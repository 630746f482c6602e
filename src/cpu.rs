//! The execution engine: machine state and the interpretation of a program image.
use byte_slice_cast::AsByteSlice;
use vstd::prelude::*;

use crate::error::{Error, ErrorView};
use crate::instruction::{decode_spec, Instruction};
use crate::interrupt::{interrupt_spec, Interrupt};
use crate::text::{decimal, push_decimal, push_signed, signed_decimal, string_of};
use crate::{DATA_REGISTERS, IRS, RAM, URS};

verus! {

/// The state of the machine as the contracts speak of it.
pub struct CpuState {
    /// The accumulator.
    pub a: IRS,
    /// The program counter.
    pub bz: URS,
    /// The register file.
    pub rx: Seq<IRS>,
    /// The program image.
    pub ram: Seq<(URS, IRS)>,
}

/// What executing one instruction signals, besides the new state.
pub enum Outcome {
    /// Nothing to report.
    Continue,
    /// `END` was executed.
    Ended,
    /// `BP` was executed.
    HitBreakPoint,
    /// `INT` raised this interrupt, whose text is handed out.
    Print(Interrupt),
}

/// How a bounded run stopped without an error.
pub enum RunEnd {
    Ended,
    HitBreakPoint,
    NotFinished,
}

/// Whether `i` is a valid register index.
pub open spec fn rx_index_ok(i: IRS) -> bool {
    0 <= i < DATA_REGISTERS
}

/// The error for an operand `i` that is no register index.
pub open spec fn rx_error(s: CpuState, i: IRS) -> ErrorView {
    ErrorView::InvalidRxIndex { i, len: DATA_REGISTERS, BZ: s.bz }
}

/// `s` with the program counter moved to the next instruction.
pub open spec fn advance(s: CpuState) -> CpuState {
    CpuState { bz: (s.bz + 1) as URS, ..s }
}

/// `s` with accumulator `a`, moved to the next instruction.
pub open spec fn with_a(s: CpuState, a: IRS) -> CpuState {
    CpuState { a, bz: (s.bz + 1) as URS, ..s }
}

/// Integer division rounding toward zero, as Rust's `/` does.
pub open spec fn trunc_div(x: int, d: int) -> int {
    if x == 0 {
        0
    } else if x > 0 && d > 0 {
        x / d
    } else if x < 0 && d < 0 {
        (-x) / (-d)
    } else if x < 0 {
        -((-x) / d)
    } else {
        -(x / (-d))
    }
}

/// Signed division rounding toward zero; the one quotient out of range,
/// that of `i64::MIN / -1`, wraps to `i64::MIN`.
pub open spec fn div_spec(a: IRS, d: IRS) -> IRS {
    let q = trunc_div(a as int, d as int);
    if i64::MIN <= q <= i64::MAX {
        q as IRS
    } else {
        i64::MIN
    }
}

/// Whether a conditional jump is taken for accumulator `a`.
pub open spec fn jump_taken(inst: Instruction, a: IRS) -> bool {
    match inst {
        Instruction::JUMP => true,
        Instruction::JGE => a >= 0,
        Instruction::JGT => a > 0,
        Instruction::JLE => a <= 0,
        Instruction::JLT => a < 0,
        Instruction::JEQ => a == 0,
        Instruction::JNE => a != 0,
        _ => false,
    }
}

/// Whether an instruction is one of the jumps.
pub open spec fn is_jump(inst: Instruction) -> bool {
    inst is JUMP || inst is JGE || inst is JGT || inst is JLE || inst is JLT || inst is JEQ
        || inst is JNE
}

/// An arithmetic instruction applied to the accumulator and a register value;
/// sums, differences and products wrap around.
pub open spec fn alu_spec(inst: Instruction, a: IRS, r: IRS) -> IRS {
    match inst {
        Instruction::ADD => a.wrapping_add(r),
        Instruction::SUB => a.wrapping_sub(r),
        Instruction::MULT => a.wrapping_mul(r),
        _ => div_spec(a, r),
    }
}

/// Executes instruction `inst` with operand `v` in state `s`: the next state
/// and what it signals, or the error, in which case the state stays as it was.
pub open spec fn exec_spec(s: CpuState, inst: Instruction, v: IRS) -> Result<
    (CpuState, Outcome),
    ErrorView,
> {
    match inst {
        Instruction::DLOAD => Ok((with_a(s, v), Outcome::Continue)),
        Instruction::LOAD => if rx_index_ok(v) {
            Ok((with_a(s, s.rx[v as int]), Outcome::Continue))
        } else {
            Err(rx_error(s, v))
        },
        Instruction::STORE => if rx_index_ok(v) {
            Ok((CpuState { rx: s.rx.update(v as int, s.a), ..advance(s) }, Outcome::Continue))
        } else {
            Err(rx_error(s, v))
        },
        Instruction::ADD | Instruction::SUB | Instruction::MULT => if rx_index_ok(v) {
            Ok((with_a(s, alu_spec(inst, s.a, s.rx[v as int])), Outcome::Continue))
        } else {
            Err(rx_error(s, v))
        },
        Instruction::DIV => if !rx_index_ok(v) {
            Err(rx_error(s, v))
        } else if s.rx[v as int] == 0 {
            Err(ErrorView::DivideByZero { lhs: s.a, BZ: s.bz })
        } else {
            Ok((with_a(s, div_spec(s.a, s.rx[v as int])), Outcome::Continue))
        },
        Instruction::JUMP | Instruction::JGE | Instruction::JGT | Instruction::JLE
        | Instruction::JLT | Instruction::JEQ | Instruction::JNE => if jump_taken(inst, s.a) {
            Ok((CpuState { bz: v as URS, ..s }, Outcome::Continue))
        } else {
            Ok((advance(s), Outcome::Continue))
        },
        Instruction::END => Ok((advance(s), Outcome::Ended)),
        Instruction::BP => Ok((advance(s), Outcome::HitBreakPoint)),
        Instruction::NOOP => Ok((advance(s), Outcome::Continue)),
        Instruction::INT => match interrupt_spec(v as int) {
            Some(irq) => Ok((advance(s), Outcome::Print(irq))),
            None => Err(ErrorView::InvalidInterrupt { int: v, BZ: s.bz }),
        },
    }
}

/// The instruction and operand at the program counter.
pub open spec fn fetch_spec(s: CpuState) -> Result<(Instruction, IRS), ErrorView> {
    if s.bz >= s.ram.len() {
        Err(ErrorView::NoMoreInstructions { BZ: s.bz })
    } else {
        match decode_spec(s.ram[s.bz as int].0 as int) {
            Some(inst) => Ok((inst, s.ram[s.bz as int].1)),
            None => Err(ErrorView::InvalidInstruction { inst: s.ram[s.bz as int].0, BZ: s.bz }),
        }
    }
}

/// One step: fetch the instruction at the program counter and execute it.
pub open spec fn step_spec(s: CpuState) -> Result<(CpuState, Outcome), ErrorView> {
    match fetch_spec(s) {
        Err(e) => Err(e),
        Ok((inst, v)) => exec_spec(s, inst, v),
    }
}

/// What a run of at most `n` steps does from state `s`: the state it stops
/// in, how it stops, and each interrupt it raised with the state before it.
/// It stops at `END`, at `BP` when `to_bp` holds, at an error (in the state
/// before the failing instruction), or when the steps are used up.
pub open spec fn run_spec(s: CpuState, n: nat, to_bp: bool) -> (
    CpuState,
    Result<RunEnd, ErrorView>,
    Seq<(CpuState, Interrupt)>,
)
    decreases n,
{
    if n == 0 {
        (s, Ok(RunEnd::NotFinished), seq![])
    } else {
        match step_spec(s) {
            Err(e) => (s, Err(e), seq![]),
            Ok((s2, out)) => match out {
                Outcome::Ended => (s2, Ok(RunEnd::Ended), seq![]),
                Outcome::HitBreakPoint => if to_bp {
                    (s2, Ok(RunEnd::HitBreakPoint), seq![])
                } else {
                    run_spec(s2, (n - 1) as nat, to_bp)
                },
                Outcome::Print(irq) => {
                    let r = run_spec(s2, (n - 1) as nat, to_bp);
                    (r.0, r.1, seq![(s, irq)] + r.2)
                },
                Outcome::Continue => run_spec(s2, (n - 1) as nat, to_bp),
            },
        }
    }
}

/// The state of a machine that has just loaded `ram`.
pub open spec fn fresh_state(ram: Seq<(URS, IRS)>) -> CpuState {
    CpuState { a: 0, bz: 0, rx: Seq::new(DATA_REGISTERS as nat, |i: int| 0i64), ram }
}

} // verus!

verus! {

// ---------------------------------------------------------------------------
// Texts of the interrupts
// ---------------------------------------------------------------------------

/// How many registers `Print` and `PrintBytes` show when all of them are zero.
pub const BLANK_SHOWN_REGISTERS: usize = 10;

/// The index of the last non-zero value among the first `n`.
pub open spec fn last_nonzero(rx: Seq<IRS>, n: nat) -> Option<nat>
    decreases n,
{
    if n == 0 {
        None
    } else if rx[n - 1] != 0 {
        Some((n - 1) as nat)
    } else {
        last_nonzero(rx, (n - 1) as nat)
    }
}

/// The registers that `Print` and `PrintBytes` show: up to the last non-zero
/// one, or the first `BLANK_SHOWN_REGISTERS` when all are zero.
pub open spec fn shown_registers(rx: Seq<IRS>) -> Seq<IRS> {
    match last_nonzero(rx, rx.len()) {
        Some(k) => rx.take(k as int + 1),
        None => rx.take(BLANK_SHOWN_REGISTERS as int),
    }
}

/// The eight bytes of a value, least significant first.
pub open spec fn le_bytes_of(v: IRS) -> Seq<u8> {
    Seq::new(8, |j: int| ((v as u64) >> ((8 * j) as u64)) as u8)
}

/// The eight bytes of a value, most significant first.
pub open spec fn be_bytes_of(v: IRS) -> Seq<u8> {
    Seq::new(8, |j: int| le_bytes_of(v)[7 - j])
}

/// The memory of a list of values on a little-endian machine.
pub open spec fn le_bytes(vals: Seq<IRS>) -> Seq<u8> {
    vals.map_values(|v: IRS| le_bytes_of(v)).flatten()
}

/// The memory of a list of values on a big-endian machine.
pub open spec fn be_bytes(vals: Seq<IRS>) -> Seq<u8> {
    vals.map_values(|v: IRS| be_bytes_of(v)).flatten()
}

/// Texts joined with `, ` between them.
pub open spec fn join(items: Seq<Seq<char>>) -> Seq<char>
    decreases items.len(),
{
    if items.len() == 0 {
        seq![]
    } else if items.len() == 1 {
        items[0]
    } else {
        join(items.drop_last()) + seq![',', ' '] + items.last()
    }
}

/// Texts as a bracketed list: `[a, b, c]`.
pub open spec fn list_text(items: Seq<Seq<char>>) -> Seq<char> {
    seq!['['] + join(items) + seq![']']
}

/// A list of bytes as text: `[72, 105]`.
pub open spec fn byte_list_text(b: Seq<u8>) -> Seq<char> {
    list_text(b.map_values(|x: u8| decimal(x as nat)))
}

/// A list of values as text: `[5, -1, 0]`.
pub open spec fn value_list_text(vals: Seq<IRS>) -> Seq<char> {
    list_text(vals.map_values(|v: IRS| signed_decimal(v as int)))
}

/// An `(opcode, operand)` pair as text: `(1, -5)`.
pub open spec fn pair_text(p: (URS, IRS)) -> Seq<char> {
    seq!['('] + decimal(p.0 as nat) + seq![',', ' '] + signed_decimal(p.1 as int) + seq![')']
}

/// A program image as text: `[(1, 5), (14, 0)]`.
pub open spec fn ram_text(ram: Seq<(URS, IRS)>) -> Seq<char> {
    list_text(ram.map_values(|p: (URS, IRS)| pair_text(p)))
}

/// Whether `t` is a text that interrupt `irq` may hand out in state `s`. The
/// two printing interrupts read the registers' memory, whose byte order is
/// the machine's.
pub open spec fn interrupt_text_ok(s: CpuState, irq: Interrupt, t: Seq<char>) -> bool {
    match irq {
        Interrupt::Print => t == lossy_text(le_bytes(shown_registers(s.rx))) || t == lossy_text(
            be_bytes(shown_registers(s.rx)),
        ),
        Interrupt::PrintBytes => t == byte_list_text(le_bytes(shown_registers(s.rx))) || t
            == byte_list_text(be_bytes(shown_registers(s.rx))),
        Interrupt::DumpA => t == signed_decimal(s.a as int),
        Interrupt::DumpBZ => t == decimal(s.bz as nat),
        Interrupt::DumpRx => t == value_list_text(s.rx),
        Interrupt::DumpRam => t == ram_text(s.ram),
    }
}

/// The text that `String::from_utf8_lossy` makes of a list of bytes.
pub uninterp spec fn lossy_text(b: Seq<u8>) -> Seq<char>;

/// Relies on `String::from_utf8_lossy`: the bytes decoded as UTF-8, with
/// invalid sequences replaced; a function of the bytes alone.
#[verifier::external_body]
fn utf8_lossy(b: &Vec<u8>) -> (r: String)
    ensures
        r@ == lossy_text(b@),
{
    String::from_utf8_lossy(b.as_slice()).into_owned()
}

/// Relies on `byte_slice_cast::AsByteSlice::as_byte_slice`: the memory of the
/// values, eight bytes each in the machine's byte order.
#[verifier::external_body]
fn register_bytes(values: &Vec<IRS>) -> (r: Vec<u8>)
    ensures
        r@ == le_bytes(values@) || r@ == be_bytes(values@),
{
    values.as_byte_slice().to_vec()
}

} // verus!

verus! {

proof fn lemma_join_push(xs: Seq<Seq<char>>, x: Seq<char>)
    ensures
        join(xs.push(x)) == if xs.len() == 0 {
            x
        } else {
            join(xs) + seq![',', ' '] + x
        },
{
    assert(xs.push(x).drop_last() =~= xs);
    if xs.len() == 0 {
        assert(xs.push(x)[0] == x);
    }
}

/// A list of bytes as text.
fn byte_list(b: &Vec<u8>) -> (r: Vec<char>)
    ensures
        r@ == byte_list_text(b@),
{
    let ghost items = b@.map_values(|x: u8| decimal(x as nat));
    let mut out: Vec<char> = Vec::new();
    out.push('[');
    for k in 0..b.len()
        invariant
            items == b@.map_values(|x: u8| decimal(x as nat)),
            out@ == seq!['['] + join(items.take(k as int)),
    {
        let ghost before = out@;
        if k > 0 {
            out.push(',');
            out.push(' ');
        }
        push_decimal(&mut out, b[k] as u64);
        proof {
            assert(items.take(k as int + 1) =~= items.take(k as int).push(items[k as int]));
            lemma_join_push(items.take(k as int), items[k as int]);
        }
        assert(out@ =~= seq!['['] + join(items.take(k as int + 1)));
    }
    out.push(']');
    assert(items.take(b.len() as int) =~= items);
    assert(out@ =~= byte_list_text(b@));
    out
}

/// A list of values as text.
fn value_list(vals: &[IRS]) -> (r: Vec<char>)
    ensures
        r@ == value_list_text(vals@),
{
    let ghost items = vals@.map_values(|v: IRS| signed_decimal(v as int));
    let mut out: Vec<char> = Vec::new();
    out.push('[');
    for k in 0..vals.len()
        invariant
            items == vals@.map_values(|v: IRS| signed_decimal(v as int)),
            out@ == seq!['['] + join(items.take(k as int)),
    {
        if k > 0 {
            out.push(',');
            out.push(' ');
        }
        push_signed(&mut out, vals[k]);
        proof {
            assert(items.take(k as int + 1) =~= items.take(k as int).push(items[k as int]));
            lemma_join_push(items.take(k as int), items[k as int]);
        }
        assert(out@ =~= seq!['['] + join(items.take(k as int + 1)));
    }
    out.push(']');
    assert(items.take(vals@.len() as int) =~= items);
    assert(out@ =~= value_list_text(vals@));
    out
}

/// A program image as text.
fn ram_list(ram: &RAM) -> (r: Vec<char>)
    ensures
        r@ == ram_text(ram@),
{
    let ghost items = ram@.map_values(|p: (URS, IRS)| pair_text(p));
    let mut out: Vec<char> = Vec::new();
    out.push('[');
    for k in 0..ram.len()
        invariant
            items == ram@.map_values(|p: (URS, IRS)| pair_text(p)),
            out@ == seq!['['] + join(items.take(k as int)),
    {
        if k > 0 {
            out.push(',');
            out.push(' ');
        }
        let (code, value) = ram[k];
        out.push('(');
        push_decimal(&mut out, code as u64);
        out.push(',');
        out.push(' ');
        push_signed(&mut out, value);
        out.push(')');
        proof {
            assert(items.take(k as int + 1) =~= items.take(k as int).push(items[k as int]));
            lemma_join_push(items.take(k as int), items[k as int]);
        }
        assert(out@ =~= seq!['['] + join(items.take(k as int + 1)));
    }
    out.push(']');
    assert(items.take(ram.len() as int) =~= items);
    assert(out@ =~= ram_text(ram@));
    out
}

/// The registers that `Print` and `PrintBytes` show.
fn shown(rx: &[IRS; DATA_REGISTERS]) -> (r: Vec<IRS>)
    ensures
        r@ == shown_registers(rx@),
{
    let mut n: usize = DATA_REGISTERS;
    while n > 0 && rx[n - 1] == 0
        invariant
            n <= DATA_REGISTERS,
            rx@.len() == DATA_REGISTERS,
            last_nonzero(rx@, DATA_REGISTERS as nat) == last_nonzero(rx@, n as nat),
        decreases n,
    {
        n = n - 1;
    }
    let count: usize = if n == 0 {
        BLANK_SHOWN_REGISTERS
    } else {
        n
    };
    let mut r: Vec<IRS> = Vec::new();
    for k in 0..count
        invariant
            count <= DATA_REGISTERS,
            rx@.len() == DATA_REGISTERS,
            r@ == rx@.take(k as int),
    {
        r.push(rx[k]);
        assert(r@ =~= rx@.take(k as int + 1));
    }
    r
}

} // verus!

verus! {

// ---------------------------------------------------------------------------
// The machine
// ---------------------------------------------------------------------------

/// The machine: accumulator, program counter, registers, a program image and
/// the lines printed so far.
#[derive(Debug)]
pub struct CPU {
    A: IRS,
    BZ: URS,
    Rx: [IRS; DATA_REGISTERS],
    ram: RAM,
    stdout: Vec<String>,
}

/// What a step or a bounded run reports.
#[derive(Clone, Debug)]
pub enum ExecResult {
    /// Nothing to report.
    Continue,
    /// `END` was executed.
    Ended,
    /// `BP` was executed.
    HitBreakPoint,
    /// An interrupt handed out this text.
    Print(String),
    /// The budget of steps is used up; the run can be resumed.
    NotFinished,
}

impl View for CPU {
    type V = CpuState;

    closed spec fn view(&self) -> CpuState {
        CpuState { a: self.A, bz: self.BZ, rx: self.Rx@, ram: self.ram@ }
    }
}

/// Whether a state has a full register file.
pub open spec fn state_ok(s: CpuState) -> bool {
    s.rx.len() == DATA_REGISTERS
}

/// Whether a reported result is what outcome `out` of a step from `s` reports.
pub open spec fn result_matches(s: CpuState, out: Outcome, res: ExecResult) -> bool {
    match (out, res) {
        (Outcome::Continue, ExecResult::Continue) => true,
        (Outcome::Ended, ExecResult::Ended) => true,
        (Outcome::HitBreakPoint, ExecResult::HitBreakPoint) => true,
        (Outcome::Print(irq), ExecResult::Print(t)) => interrupt_text_ok(s, irq, t@),
        _ => false,
    }
}

/// Whether a step from `s` that ended in `s_new` with `r` did what `expected`
/// says; on an error the state is left as it was.
pub open spec fn step_matches(
    s: CpuState,
    s_new: CpuState,
    expected: Result<(CpuState, Outcome), ErrorView>,
    r: Result<ExecResult, Error>,
) -> bool {
    match expected {
        Err(e) => s_new == s && (r matches Err(x) && x@ == e),
        Ok((s2, out)) => s_new == s2 && (r matches Ok(res) && result_matches(s, out, res)),
    }
}

/// Whether a reported result is how a bounded run stopped.
pub open spec fn run_end_matches(end: RunEnd, res: ExecResult) -> bool {
    match (end, res) {
        (RunEnd::Ended, ExecResult::Ended) => true,
        (RunEnd::HitBreakPoint, ExecResult::HitBreakPoint) => true,
        (RunEnd::NotFinished, ExecResult::NotFinished) => true,
        _ => false,
    }
}

impl CPU {
    /// The lines printed so far.
    pub closed spec fn output(&self) -> Seq<Seq<char>> {
        self.stdout@.map_values(|s: String| s@)
    }

    /// A machine with `ram` loaded, all registers zero and nothing printed.
    pub fn new(ram: RAM) -> (r: CPU)
        ensures
            r@ == fresh_state(ram@),
            r.output() == Seq::<Seq<char>>::empty(),
    {
        let r = CPU { A: 0, BZ: 0, Rx: [0; DATA_REGISTERS], ram, stdout: Vec::new() };
        assert(r@.rx =~= fresh_state(ram@).rx);
        assert(r.output() =~= Seq::<Seq<char>>::empty());
        r
    }

    /// Sets the accumulator, the program counter and every register to zero;
    /// the program image stays.
    pub fn reset_registers(&mut self)
        ensures
            final(self)@ == fresh_state(old(self)@.ram),
            final(self).output() == old(self).output(),
    {
        self.A = 0;
        self.BZ = 0;
        self.Rx = [0; DATA_REGISTERS];
        assert(self@.rx =~= fresh_state(old(self)@.ram).rx);
    }

    /// The accumulator.
    pub fn A(&self) -> (r: IRS)
        ensures
            r == self@.a,
    {
        self.A
    }

    /// The program counter.
    pub fn BZ(&self) -> (r: URS)
        ensures
            r == self@.bz,
    {
        self.BZ
    }

    /// The register file.
    pub fn Rx(&self) -> (r: &[IRS; DATA_REGISTERS])
        ensures
            r@ == self@.rx,
    {
        &self.Rx
    }

    /// The program image.
    pub fn ram(&self) -> (r: &RAM)
        ensures
            r@ == self@.ram,
    {
        &self.ram
    }

    /// The lines printed so far.
    pub fn stdout(&self) -> (r: &Vec<String>)
        ensures
            r@.map_values(|s: String| s@) == self.output(),
    {
        &self.stdout
    }

    /// The program counter, to be changed by the host.
    pub fn BZ_mut(&mut self) -> (r: &mut URS)
        ensures
            *r == old(self)@.bz,
            final(self)@ == (CpuState { bz: *final(r), ..old(self)@ }),
            final(self).output() == old(self).output(),
    {
        &mut self.BZ
    }

    /// The program image, to be changed or replaced by the host.
    pub fn ram_mut(&mut self) -> (r: &mut RAM)
        ensures
            r@ == old(self)@.ram,
            final(self)@ == (CpuState { ram: final(r)@, ..old(self)@ }),
            final(self).output() == old(self).output(),
    {
        &mut self.ram
    }

    /// Prints a line.
    pub fn println(&mut self, s: &str)
        ensures
            final(self)@ == old(self)@,
            final(self).output() == old(self).output().push(s@),
    {
        self.stdout.push(s.to_owned());
        assert(self.output() =~= old(self).output().push(s@));
    }
}

} // verus!

verus! {

impl CPU {
    /// The register index that operand `i` stands for.
    fn check_rx_index(&self, i: IRS) -> (r: Result<usize, Error>)
        ensures
            match r {
                Ok(k) => rx_index_ok(i) && k == i,
                Err(e) => !rx_index_ok(i) && e@ == rx_error(self@, i),
            },
    {
        if i < 0 || i >= DATA_REGISTERS as IRS {
            Err(Error::InvalidRxIndex { i, len: DATA_REGISTERS, BZ: self.BZ })
        } else {
            Ok(i as usize)
        }
    }

    /// The text that interrupt `irq` hands out.
    fn interrupt_text(&self, irq: Interrupt) -> (r: String)
        ensures
            interrupt_text_ok(self@, irq, r@),
    {
        match irq {
            Interrupt::Print => {
                let bytes = register_bytes(&shown(&self.Rx));
                utf8_lossy(&bytes)
            },
            Interrupt::PrintBytes => {
                let bytes = register_bytes(&shown(&self.Rx));
                string_of(&byte_list(&bytes))
            },
            Interrupt::DumpA => {
                let mut out: Vec<char> = Vec::new();
                push_signed(&mut out, self.A);
                string_of(&out)
            },
            Interrupt::DumpBZ => {
                let mut out: Vec<char> = Vec::new();
                push_decimal(&mut out, self.BZ as u64);
                string_of(&out)
            },
            Interrupt::DumpRx => string_of(&value_list(self.Rx.as_slice())),
            Interrupt::DumpRam => string_of(&ram_list(&self.ram)),
        }
    }

    /// Executes `INT` with operand `code`.
    fn handle_interrupt(&mut self, code: IRS) -> (r: Result<ExecResult, Error>)
        requires
            old(self)@.bz < usize::MAX,
        ensures
            step_matches(old(self)@, final(self)@, exec_spec(old(self)@, Instruction::INT, code), r),
            final(self).output() == old(self).output(),
    {
        let irq = match Interrupt::from_code(code) {
            Some(irq) => irq,
            None => return Err(Error::InvalidInterrupt { int: code, BZ: self.BZ }),
        };
        let text = self.interrupt_text(irq);
        self.BZ = self.BZ + 1;
        Ok(ExecResult::Print(text))
    }

    /// Executes instruction `inst` with operand `value`, as `exec_spec`
    /// describes; on an error nothing changes.
    pub fn exec(&mut self, inst: Instruction, value: IRS) -> (r: Result<ExecResult, Error>)
        requires
            old(self)@.bz < usize::MAX,
        ensures
            step_matches(old(self)@, final(self)@, exec_spec(old(self)@, inst, value), r),
            final(self).output() == old(self).output(),
    {
        match inst {
            Instruction::LOAD => {
                let k = match self.check_rx_index(value) {
                    Ok(k) => k,
                    Err(e) => return Err(e),
                };
                self.A = self.Rx[k];
                self.BZ = self.BZ + 1;
                Ok(ExecResult::Continue)
            },
            Instruction::DLOAD => {
                self.A = value;
                self.BZ = self.BZ + 1;
                Ok(ExecResult::Continue)
            },
            Instruction::STORE => {
                let k = match self.check_rx_index(value) {
                    Ok(k) => k,
                    Err(e) => return Err(e),
                };
                self.Rx[k] = self.A;
                self.BZ = self.BZ + 1;
                assert(self@.rx =~= old(self)@.rx.update(value as int, old(self)@.a));
                Ok(ExecResult::Continue)
            },
            Instruction::ADD | Instruction::SUB | Instruction::MULT | Instruction::DIV => {
                let k = match self.check_rx_index(value) {
                    Ok(k) => k,
                    Err(e) => return Err(e),
                };
                let rhs = self.Rx[k];
                let a = self.A;
                let res = match inst {
                    Instruction::ADD => a.wrapping_add(rhs),
                    Instruction::SUB => a.wrapping_sub(rhs),
                    Instruction::MULT => a.wrapping_mul(rhs),
                    _ => {
                        if rhs == 0 {
                            return Err(Error::DivideByZero { lhs: a, BZ: self.BZ });
                        }
                        divide(a, rhs)
                    },
                };
                self.A = res;
                self.BZ = self.BZ + 1;
                Ok(ExecResult::Continue)
            },
            Instruction::JUMP => self.jump(value, true),
            Instruction::JGE => self.jump(value, self.A >= 0),
            Instruction::JGT => self.jump(value, self.A > 0),
            Instruction::JLE => self.jump(value, self.A <= 0),
            Instruction::JLT => self.jump(value, self.A < 0),
            Instruction::JEQ => self.jump(value, self.A == 0),
            Instruction::JNE => self.jump(value, self.A != 0),
            Instruction::END => {
                self.BZ = self.BZ + 1;
                Ok(ExecResult::Ended)
            },
            Instruction::BP => {
                self.BZ = self.BZ + 1;
                Ok(ExecResult::HitBreakPoint)
            },
            Instruction::NOOP => {
                self.BZ = self.BZ + 1;
                Ok(ExecResult::Continue)
            },
            Instruction::INT => self.handle_interrupt(value),
        }
    }

    /// Jumps to `addr` if `taken`, else moves to the next instruction.
    fn jump(&mut self, addr: IRS, taken: bool) -> (r: Result<ExecResult, Error>)
        requires
            old(self)@.bz < usize::MAX,
        ensures
            final(self)@ == (if taken {
                CpuState { bz: addr as URS, ..old(self)@ }
            } else {
                advance(old(self)@)
            }),
            r matches Ok(ExecResult::Continue),
            final(self).output() == old(self).output(),
    {
        if taken {
            self.BZ = #[verifier::truncate] (addr as URS);
        } else {
            self.BZ = self.BZ + 1;
        }
        Ok(ExecResult::Continue)
    }
}

/// Signed division as `div_spec` describes; the divisor is not zero.
fn divide(a: IRS, d: IRS) -> (r: IRS)
    requires
        d != 0,
    ensures
        r == div_spec(a, d),
{
    match a.checked_div(d) {
        Some(q) => q,
        None => i64::MIN,
    }
}

} // verus!

verus! {

/// Whether a bounded run from `s` with output `o`, that ended in `s_new` with
/// output `o_new` and result `r`, did what `expected` says: it stopped in
/// the state and the way `expected` gives, and printed one line for each
/// interrupt raised, with a text that interrupt may hand out.
pub open spec fn run_matches(
    o: Seq<Seq<char>>,
    s_new: CpuState,
    o_new: Seq<Seq<char>>,
    expected: (CpuState, Result<RunEnd, ErrorView>, Seq<(CpuState, Interrupt)>),
    r: Result<ExecResult, Error>,
) -> bool {
    let (s2, end, ev) = expected;
    &&& s_new == s2
    &&& match end {
        Ok(e) => r matches Ok(x) && run_end_matches(e, x),
        Err(e) => r matches Err(x) && x@ == e,
    }
    &&& o_new.len() == o.len() + ev.len()
    &&& o_new.take(o.len() as int) == o
    &&& forall|k: int|
        0 <= k < ev.len() ==> interrupt_text_ok(ev[k].0, ev[k].1, #[trigger] o_new[o.len() + k])
}

impl CPU {
    /// The instruction and operand at the program counter.
    fn next_instruction(&self) -> (r: Result<(Instruction, IRS), Error>)
        ensures
            match (r, fetch_spec(self@)) {
                (Ok(p), Ok(q)) => p == q,
                (Err(e), Err(f)) => e@ == f,
                _ => false,
            },
            r is Ok ==> self@.bz < usize::MAX,
    {
        if self.BZ >= self.ram.len() {
            return Err(Error::NoMoreInstructions { BZ: self.BZ });
        }
        let (code, value) = self.ram[self.BZ];
        match Instruction::from_opcode(code) {
            Some(inst) => Ok((inst, value)),
            None => Err(Error::InvalidInstruction { inst: code, BZ: self.BZ }),
        }
    }

    /// Executes the instruction at the program counter, as `step_spec`
    /// describes; on an error nothing changes.
    pub fn step(&mut self) -> (r: Result<ExecResult, Error>)
        ensures
            step_matches(old(self)@, final(self)@, step_spec(old(self)@), r),
            final(self).output() == old(self).output(),
    {
        let (inst, value) = match self.next_instruction() {
            Ok(p) => p,
            Err(e) => return Err(e),
        };
        self.exec(inst, value)
    }

    /// Steps until `END`, or `BP` too when `to_bp` holds, at most `max_steps`
    /// times, printing the text of each interrupt.
    fn run(&mut self, max_steps: usize, to_bp: bool) -> (r: Result<ExecResult, Error>)
        ensures
            run_matches(
                old(self).output(),
                final(self)@,
                final(self).output(),
                run_spec(old(self)@, max_steps as nat, to_bp),
                r,
            ),
    {
        let ghost s0 = self@;
        let ghost o0 = self.output();
        let ghost mut ev: Seq<(CpuState, Interrupt)> = seq![];
        assert(ev + run_spec(s0, max_steps as nat, to_bp).2 =~= run_spec(s0, max_steps as nat, to_bp).2);
        for i in 0..max_steps
            invariant
                s0 == old(self)@,
                o0 == old(self).output(),
                run_spec(s0, max_steps as nat, to_bp) == ({
                    let rest = run_spec(self@, (max_steps - i) as nat, to_bp);
                    (rest.0, rest.1, ev + rest.2)
                }),
                self.output().len() == o0.len() + ev.len(),
                self.output().take(o0.len() as int) == o0,
                forall|k: int|
                    0 <= k < ev.len() ==> interrupt_text_ok(
                        ev[k].0,
                        ev[k].1,
                        #[trigger] self.output()[o0.len() + k],
                    ),
        {
            let ghost pre = self@;
            let ghost m = (max_steps - i) as nat;
            let r = self.step();
            assert(m > 0);
            match r {
                Err(e) => {
                    assert(run_spec(pre, m, to_bp) == (
                        pre,
                        Err::<RunEnd, ErrorView>(e@),
                        Seq::<(CpuState, Interrupt)>::empty(),
                    ));
                    assert(ev + seq![] =~= ev);
                    return Err(e);
                },
                Ok(ExecResult::Ended) => {
                    assert(run_spec(pre, m, to_bp) == (
                        self@,
                        Ok::<RunEnd, ErrorView>(RunEnd::Ended),
                        Seq::<(CpuState, Interrupt)>::empty(),
                    ));
                    assert(ev + seq![] =~= ev);
                    return Ok(ExecResult::Ended);
                },
                Ok(ExecResult::HitBreakPoint) => {
                    if to_bp {
                        assert(ev + seq![] =~= ev);
                        return Ok(ExecResult::HitBreakPoint);
                    }
                },
                Ok(ExecResult::Print(t)) => {
                    let ghost irq = step_spec(pre)->Ok_0.1->Print_0;
                    let ghost o1 = self.output();
                    self.println(t.as_str());
                    proof {
                        let rest = run_spec(self@, (m - 1) as nat, to_bp);
                        assert(ev + (seq![(pre, irq)] + rest.2) =~= ev.push((pre, irq)) + rest.2);
                        assert(self.output().take(o0.len() as int) =~= o1.take(o0.len() as int));
                        ev = ev.push((pre, irq));
                        assert forall|k: int| 0 <= k < ev.len() implies interrupt_text_ok(
                            ev[k].0,
                            ev[k].1,
                            #[trigger] self.output()[o0.len() + k],
                        ) by {
                            if k < ev.len() - 1 {
                                assert(self.output()[o0.len() + k] == o1[o0.len() + k]);
                            }
                        }
                    }
                },
                _ => {},
            }
        }
        assert(ev + seq![] =~= ev);
        Ok(ExecResult::NotFinished)
    }

    /// Steps until `END` or `BP`, at most `max_steps` times, printing the
    /// text of each interrupt. A used-up budget reports `NotFinished`, and a
    /// later call goes on from where this one stopped.
    pub fn step_to_breakpoint(&mut self, max_steps: usize) -> (r: Result<ExecResult, Error>)
        ensures
            run_matches(
                old(self).output(),
                final(self)@,
                final(self).output(),
                run_spec(old(self)@, max_steps as nat, true),
                r,
            ),
    {
        self.run(max_steps, true)
    }

    /// Steps until `END`, at most `max_steps` times, printing the text of
    /// each interrupt. A used-up budget reports `NotFinished`, and a later
    /// call goes on from where this one stopped.
    pub fn step_to_end(&mut self, max_steps: usize) -> (r: Result<ExecResult, Error>)
        ensures
            run_matches(
                old(self).output(),
                final(self)@,
                final(self).output(),
                run_spec(old(self)@, max_steps as nat, false),
                r,
            ),
    {
        self.run(max_steps, false)
    }
}

} // verus!

verus! {

// ---------------------------------------------------------------------------
// Laws of execution
// ---------------------------------------------------------------------------

/// Whether every jump of a program image goes forward: from address `k` to
/// an address above `k` (that fits a program counter).
pub open spec fn forward_only(ram: Seq<(URS, IRS)>) -> bool {
    forall|k: int|
        0 <= k < ram.len() && (#[trigger] decode_spec(ram[k].0 as int)) is Some && is_jump(
            decode_spec(ram[k].0 as int).unwrap(),
        ) ==> k < ram[k].1 <= usize::MAX
}

proof fn lemma_forward_run(s: CpuState, n: nat, to_bp: bool)
    requires
        s.ram.len() <= usize::MAX,
        forward_only(s.ram),
        n > 0,
        n + s.bz > s.ram.len(),
    ensures
        run_spec(s, n, to_bp).1 != Ok::<RunEnd, ErrorView>(RunEnd::NotFinished),
    decreases s.ram.len() - s.bz,
{
    if s.bz < s.ram.len() {
        match step_spec(s) {
            Err(_) => {},
            Ok((s2, out)) => {
                let k = s.bz as int;
                let inst = decode_spec(s.ram[k].0 as int).unwrap();
                if is_jump(inst) {
                    assert(k < s.ram[k].1 <= usize::MAX);
                }
                assert(s2.ram == s.ram);
                assert(s.bz < s2.bz);
                if s2.bz < s.ram.len() {
                    lemma_forward_run(s2, (n - 1) as nat, to_bp);
                } else {
                    assert(n - 1 > 0);
                    assert(step_spec(s2) is Err);
                    assert(run_spec(s2, (n - 1) as nat, to_bp).1 is Err);
                }
            },
        }
    }
}

/// A program image whose jumps all go forward runs to its end within one
/// step more than it has instructions: loaded into a fresh machine and run
/// with such a budget, it reaches `END` or fails, and never reports that the
/// budget ran out.
pub proof fn law_forward_program_finishes(ram: Seq<(URS, IRS)>, n: nat)
    requires
        ram.len() <= usize::MAX,
        forward_only(ram),
        n > ram.len(),
    ensures
        run_spec(fresh_state(ram), n, false).1 != Ok::<RunEnd, ErrorView>(RunEnd::NotFinished),
{
    lemma_forward_run(fresh_state(ram), n, false);
}

/// `DIV` by a register that holds zero fails with `DivideByZero`, carrying
/// the accumulator and the program counter; a failing step leaves the state,
/// accumulator and program counter included, as it was (see `step_matches`).
pub proof fn law_divide_by_zero(s: CpuState, i: IRS)
    requires
        state_ok(s),
        fetch_spec(s) == Ok::<(Instruction, IRS), ErrorView>((Instruction::DIV, i)),
        rx_index_ok(i),
        s.rx[i as int] == 0,
    ensures
        step_spec(s) == Err::<(CpuState, Outcome), ErrorView>(
            ErrorView::DivideByZero { lhs: s.a, BZ: s.bz },
        ),
{
}

/// An operand used as a register index by `LOAD`, `STORE` or an arithmetic
/// instruction fails with `InvalidRxIndex` when it is negative or at least
/// the number of registers; the last register, `DATA_REGISTERS - 1`, is
/// accepted (only `DIV` by a zero there fails, with `DivideByZero`).
pub proof fn law_register_index_bounds(s: CpuState, inst: Instruction, i: IRS)
    requires
        state_ok(s),
        inst is LOAD || inst is STORE || inst is ADD || inst is SUB || inst is MULT
            || inst is DIV,
    ensures
        (i < 0 || i >= DATA_REGISTERS) ==> exec_spec(s, inst, i) == Err::<
            (CpuState, Outcome),
            ErrorView,
        >(ErrorView::InvalidRxIndex { i, len: DATA_REGISTERS, BZ: s.bz }),
        i == DATA_REGISTERS - 1 && !(inst is DIV && s.rx[i as int] == 0) ==> exec_spec(
            s,
            inst,
            i,
        ) is Ok,
{
}

/// A run that stops before its budget is used up stops the same way, in the
/// same state and with the same interrupts, under any larger budget.
pub proof fn law_finished_run_is_stable(s: CpuState, n: nat, c: nat, to_bp: bool)
    requires
        run_spec(s, n, to_bp).1 != Ok::<RunEnd, ErrorView>(RunEnd::NotFinished),
    ensures
        run_spec(s, n + c, to_bp) == run_spec(s, n, to_bp),
    decreases n,
{
    if n > 0 {
        match step_spec(s) {
            Err(_) => {},
            Ok((s2, out)) => {
                assert((n + c - 1) as nat == (n - 1) as nat + c);
                let stops = out is Ended || (to_bp && out is HitBreakPoint);
                if !stops {
                    law_finished_run_is_stable(s2, (n - 1) as nat, c, to_bp);
                }
            },
        }
    }
}

/// A run that used up its budget can be resumed: running `n` steps and then
/// `c` more from where it stopped does what running `n + c` steps at once
/// does, with the interrupts of both parts in order.
pub proof fn law_resume(s: CpuState, n: nat, c: nat, to_bp: bool)
    requires
        run_spec(s, n, to_bp).1 == Ok::<RunEnd, ErrorView>(RunEnd::NotFinished),
    ensures
        ({
            let first = run_spec(s, n, to_bp);
            let second = run_spec(first.0, c, to_bp);
            run_spec(s, n + c, to_bp) == (second.0, second.1, first.2 + second.2)
        }),
    decreases n,
{
    if n == 0 {
        assert(seq![] + run_spec(s, c, to_bp).2 =~= run_spec(s, c, to_bp).2);
    } else {
        match step_spec(s) {
            Err(_) => {},
            Ok((s2, out)) => {
                law_resume(s2, (n - 1) as nat, c, to_bp);
                assert((n + c - 1) as nat == (n - 1) as nat + c);
                let first = run_spec(s2, (n - 1) as nat, to_bp);
                let second = run_spec(first.0, c, to_bp);
                match out {
                    Outcome::Print(irq) => {
                        assert(seq![(s, irq)] + first.2 + second.2 =~= seq![(s, irq)] + (first.2
                            + second.2));
                    },
                    _ => {},
                }
            },
        }
    }
}

} // verus!
