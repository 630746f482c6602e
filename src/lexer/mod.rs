//! The assembler: from source text to a program image.
use vstd::prelude::*;

pub mod code_line;
pub mod code_token;

use code_line::{
    check_spec, line_resolved, parse_line_spec, urs_irs_of, CodeLine, CodeLineView,
};
use code_token::{takes_second_spec, CodeToken, CodeTokenView, JumpPoint};
use crate::error::{Error, ErrorView, ParseErrorView};
use crate::cpu::is_jump;
use crate::instruction::{lemma_not_mnemonic, opcode_of, Instruction};
use crate::text::{
    chars_equal, chars_of, decimal, is_digit, lemma_decimal, lemma_no_comment, lemma_parse_decimal,
    lemma_parse_signed_decimal, lemma_upper_signed_decimal, lemma_words_pair, lemma_words_single,
    lemma_lines_of_text, lines_of, no_ws, plain_line, signed_decimal, split_lines, string_of,
    text_of_lines,
};
use crate::{result_view, IRS, RAM, URS};

verus! {

/// A code line with the number (counted from 1) of the source line it came from.
pub type NumberedLine = (usize, CodeLineView);

/// Pass one over the first `n` source lines: each line that holds tokens,
/// with its number; the first line that cannot be read fails the pass.
pub open spec fn parse_lines_spec(lines: Seq<Seq<char>>, n: nat) -> Result<
    Seq<NumberedLine>,
    ErrorView,
>
    decreases n,
{
    if n == 0 {
        Ok(seq![])
    } else {
        match parse_lines_spec(lines, (n - 1) as nat) {
            Err(e) => Err(e),
            Ok(acc) => match parse_line_spec(lines[n - 1]) {
                Err(e) => Err(ErrorView::ParsingFailed { s: lines[n - 1], line: n as usize, err: e }),
                Ok(None) => Ok(acc),
                Ok(Some(cl)) => Ok(acc.push((n as usize, cl))),
            },
        }
    }
}

/// The structural check of the first `n` code lines: the first line whose
/// tokens do not fit together fails it.
pub open spec fn check_lines_spec(cls: Seq<NumberedLine>, n: nat) -> Result<(), ErrorView>
    decreases n,
{
    if n == 0 {
        Ok(())
    } else {
        match check_lines_spec(cls, (n - 1) as nat) {
            Err(e) => Err(e),
            Ok(()) => match check_spec(cls[n - 1].1) {
                Err(e) => Err(ErrorView::InvalidTokenArrangement { line: cls[n - 1].0, err: e }),
                Ok(()) => Ok(()),
            },
        }
    }
}

/// The address of the last declaration of label `name` among the first `n`
/// code lines: the line's position among the code lines.
pub open spec fn last_declaration(cls: Seq<NumberedLine>, name: Seq<char>, n: nat) -> Option<nat>
    decreases n,
{
    if n == 0 {
        None
    } else if cls[n - 1].1 == CodeLineView::SingleToken(CodeTokenView::JumpPointDeclaration(name)) {
        Some((n - 1) as nat)
    } else {
        last_declaration(cls, name, (n - 1) as nat)
    }
}

/// The address that label `name` stands for in a list of code lines.
pub open spec fn label_address(cls: Seq<NumberedLine>, name: Seq<char>) -> Option<nat> {
    last_declaration(cls, name, cls.len())
}

/// A code line after label resolution: a declaration becomes `NOOP`, and a
/// reference in second place becomes the address of the label.
pub open spec fn resolve_line(cls: Seq<NumberedLine>, cl: CodeLineView) -> CodeLineView {
    match cl {
        CodeLineView::SingleToken(CodeTokenView::JumpPointDeclaration(_)) => CodeLineView::SingleToken(
            CodeTokenView::Inst(Instruction::NOOP),
        ),
        CodeLineView::DoubleToken(t0, CodeTokenView::JumpPoint(name)) => CodeLineView::DoubleToken(
            t0,
            CodeTokenView::Val(label_address(cls, name).unwrap() as IRS),
        ),
        _ => cl,
    }
}

/// Whether a code line refers to a label that no line declares.
pub open spec fn undefined_reference(cls: Seq<NumberedLine>, cl: CodeLineView) -> bool {
    match cl {
        CodeLineView::DoubleToken(_, CodeTokenView::JumpPoint(name)) => label_address(
            cls,
            name,
        ) is None,
        _ => false,
    }
}

/// Label resolution over the first `n` code lines; the first reference to an
/// undeclared label fails it.
pub open spec fn resolve_lines_spec(cls: Seq<NumberedLine>, n: nat) -> Result<
    Seq<NumberedLine>,
    ErrorView,
>
    decreases n,
{
    if n == 0 {
        Ok(seq![])
    } else {
        match resolve_lines_spec(cls, (n - 1) as nat) {
            Err(e) => Err(e),
            Ok(acc) => if undefined_reference(cls, cls[n - 1].1) {
                Err(
                    ErrorView::UndefinedJumpPoint {
                        name: cls[n - 1].1->DoubleToken_1->JumpPoint_0,
                        line: cls[n - 1].0,
                    },
                )
            } else {
                Ok(acc.push((cls[n - 1].0, resolve_line(cls, cls[n - 1].1))))
            },
        }
    }
}

/// The two passes of the assembler over a list of source lines: reading and
/// checking every line, then resolving labels.
pub open spec fn assemble_lines_spec(lines: Seq<Seq<char>>) -> Result<Seq<NumberedLine>, ErrorView> {
    match parse_lines_spec(lines, lines.len()) {
        Err(e) => Err(e),
        Ok(cls) => match check_lines_spec(cls, cls.len()) {
            Err(e) => Err(e),
            Ok(()) => resolve_lines_spec(cls, cls.len()),
        },
    }
}

/// The code lines that a source text assembles to.
pub open spec fn document_spec(s: Seq<char>) -> Result<Seq<NumberedLine>, ErrorView> {
    assemble_lines_spec(lines_of(s))
}

/// The program image of a list of resolved code lines, one pair per line.
pub open spec fn image_of(cls: Seq<NumberedLine>) -> Seq<(URS, IRS)> {
    cls.map_values(|p: NumberedLine| urs_irs_of(p.1))
}

/// The program image that a source text assembles to.
pub open spec fn assemble_spec(s: Seq<char>) -> Result<Seq<(URS, IRS)>, ErrorView> {
    match document_spec(s) {
        Ok(cls) => Ok(image_of(cls)),
        Err(e) => Err(e),
    }
}

/// Whether every line of a list of code lines is resolved.
pub open spec fn all_resolved(cls: Seq<NumberedLine>) -> bool {
    forall|k: int| 0 <= k < cls.len() ==> line_resolved(#[trigger] cls[k].1)
}

/// Numbered code lines seen through the views of their lines.
pub open spec fn numbered_view(v: Seq<(usize, CodeLine)>) -> Seq<NumberedLine> {
    v.map_values(|p: (usize, CodeLine)| (p.0, p.1@))
}

/// The labels declared among the first `n` code lines, in order, each with
/// the address of its declaration.
pub open spec fn declarations_spec(cls: Seq<NumberedLine>, n: nat) -> Seq<(Seq<char>, nat)>
    decreases n,
{
    if n == 0 {
        seq![]
    } else {
        let t = declarations_spec(cls, (n - 1) as nat);
        match cls[n - 1].1 {
            CodeLineView::SingleToken(CodeTokenView::JumpPointDeclaration(name)) => t.push(
                (name, (n - 1) as nat),
            ),
            _ => t,
        }
    }
}

/// The address of the last entry for `name` in a symbol table.
pub open spec fn lookup_last(t: Seq<(Seq<char>, nat)>, name: Seq<char>) -> Option<nat>
    decreases t.len(),
{
    if t.len() == 0 {
        None
    } else if t.last().0 == name {
        Some(t.last().1)
    } else {
        lookup_last(t.drop_last(), name)
    }
}

proof fn lemma_lookup_declarations(cls: Seq<NumberedLine>, name: Seq<char>, n: nat)
    requires
        n <= cls.len(),
    ensures
        lookup_last(declarations_spec(cls, n), name) == last_declaration(cls, name, n),
    decreases n,
{
    if n > 0 {
        lemma_lookup_declarations(cls, name, (n - 1) as nat);
        let t = declarations_spec(cls, (n - 1) as nat);
        match cls[n - 1].1 {
            CodeLineView::SingleToken(CodeTokenView::JumpPointDeclaration(nm)) => {
                assert(t.push((nm, (n - 1) as nat)).drop_last() =~= t);
            },
            _ => {},
        }
    }
}

proof fn lemma_checked_lines(cls: Seq<NumberedLine>, n: nat, k: int)
    requires
        n <= cls.len(),
        check_lines_spec(cls, n) is Ok,
        0 <= k < n,
    ensures
        check_spec(cls[k].1) is Ok,
    decreases n,
{
    if k < n - 1 {
        lemma_checked_lines(cls, (n - 1) as nat, k);
    }
}

proof fn lemma_parse_error_stays(lines: Seq<Seq<char>>, m: nat, n: nat)
    requires
        m <= n,
        parse_lines_spec(lines, m) is Err,
    ensures
        parse_lines_spec(lines, n) == parse_lines_spec(lines, m),
    decreases n,
{
    if n > m {
        lemma_parse_error_stays(lines, m, (n - 1) as nat);
    }
}

proof fn lemma_check_error_stays(cls: Seq<NumberedLine>, m: nat, n: nat)
    requires
        m <= n,
        check_lines_spec(cls, m) is Err,
    ensures
        check_lines_spec(cls, n) == check_lines_spec(cls, m),
    decreases n,
{
    if n > m {
        lemma_check_error_stays(cls, m, (n - 1) as nat);
    }
}

proof fn lemma_resolve_error_stays(cls: Seq<NumberedLine>, m: nat, n: nat)
    requires
        m <= n,
        resolve_lines_spec(cls, m) is Err,
    ensures
        resolve_lines_spec(cls, n) == resolve_lines_spec(cls, m),
    decreases n,
{
    if n > m {
        lemma_resolve_error_stays(cls, m, (n - 1) as nat);
    }
}

/// A symbol table: label names with the addresses of their declarations.
pub open spec fn table_view(t: Seq<(Vec<char>, usize)>) -> Seq<(Seq<char>, nat)> {
    t.map_values(|e: (Vec<char>, usize)| (e.0@, e.1 as nat))
}

/// A parsed source text: its code lines with their line numbers.
#[derive(Debug)]
pub struct Document {
    code_lines: Vec<(usize, CodeLine)>,
}

impl View for Document {
    type V = Seq<NumberedLine>;

    closed spec fn view(&self) -> Seq<NumberedLine> {
        numbered_view(self.code_lines@)
    }
}

} // verus!

verus! {

/// The address of the last entry for `name` in a symbol table.
fn lookup(table: &Vec<(Vec<char>, usize)>, name: &Vec<char>) -> (r: Option<usize>)
    ensures
        match (r, lookup_last(table_view(table@), name@)) {
            (Some(a), Some(b)) => a == b,
            (None, None) => true,
            _ => false,
        },
{
    let mut j: usize = table.len();
    assert(table@.take(j as int) =~= table@);
    while j > 0
        invariant
            j <= table.len(),
            lookup_last(table_view(table@), name@) == lookup_last(table_view(table@.take(j as int)), name@),
        decreases j,
    {
        assert(table_view(table@.take(j as int)).drop_last() =~= table_view(table@.take(j as int - 1)));
        if chars_equal(&table[j - 1].0, name) {
            return Some(table[j - 1].1);
        }
        j = j - 1;
    }
    None
}

impl Document {
    /// Assembles a source text: reads and checks each line, then resolves
    /// labels. Either every label is resolved or the whole text fails.
    pub fn from_str(s: &str) -> (r: Result<Document, Error>)
        ensures
            result_view(r) == document_spec(s@),
            r matches Ok(d) ==> all_resolved(d@),
    {
        let doc = match Document::parse(s) {
            Ok(d) => d,
            Err(e) => return Err(e),
        };
        match doc.check() {
            Ok(()) => {},
            Err(e) => return Err(e),
        }
        doc.resolve_jump_points()
    }

    /// The program image: the `(opcode, operand)` pair of each code line.
    pub fn as_ram(&self) -> (r: RAM)
        requires
            all_resolved(self@),
        ensures
            r@ == image_of(self@),
    {
        let mut ram: RAM = Vec::new();
        for k in 0..self.code_lines.len()
            invariant
                all_resolved(self@),
                ram@ == image_of(self@).take(k as int),
        {
            assert(self@[k as int].1 == self.code_lines@[k as int].1@);
            let pair = self.code_lines[k].1.as_urs_irs();
            ram.push(pair);
            assert(ram@ =~= image_of(self@).take(k as int + 1));
        }
        assert(image_of(self@).take(self.code_lines.len() as int) =~= image_of(self@));
        ram
    }

    /// Pass one: each source line that holds tokens, with its number.
    fn parse(s: &str) -> (r: Result<Document, Error>)
        ensures
            result_view(r) == parse_lines_spec(lines_of(s@), lines_of(s@).len()),
    {
        let lines = split_lines(s);
        let ghost ls = lines_of(s@);
        let mut code_lines: Vec<(usize, CodeLine)> = Vec::new();
        assert(numbered_view(code_lines@) =~= seq![]);
        for k in 0..lines.len()
            invariant
                ls == lines_of(s@),
                crate::text::views_of(lines@) == ls,
                parse_lines_spec(ls, k as nat) == Ok::<Seq<NumberedLine>, ErrorView>(numbered_view(code_lines@)),
        {
            assert(ls[k as int] == lines@[k as int]@);
            match CodeLine::from_chars(&lines[k]) {
                Err(err) => {
                    let text = string_of(&lines[k]);
                    let e = Error::ParsingFailed { s: text, line: k + 1, err };
                    assert(parse_lines_spec(ls, (k + 1) as nat) == Err::<Seq<NumberedLine>, ErrorView>(e@));
                    proof {
                        lemma_parse_error_stays(ls, (k + 1) as nat, ls.len());
                    }
                    return Err(e);
                },
                Ok(None) => {},
                Ok(Some(cl)) => {
                    let ghost before = code_lines@;
                    let ghost clv = cl@;
                    code_lines.push((k + 1, cl));
                    assert(numbered_view(code_lines@) =~= numbered_view(before).push(
                        ((k + 1) as usize, clv),
                    ));
                },
            }
        }
        Ok(Document { code_lines })
    }

    /// The structural check of every code line.
    fn check(&self) -> (r: Result<(), Error>)
        ensures
            match r {
                Ok(()) => check_lines_spec(self@, self@.len()) == Ok::<(), ErrorView>(()),
                Err(e) => check_lines_spec(self@, self@.len()) == Err::<(), ErrorView>(e@),
            },
    {
        for k in 0..self.code_lines.len()
            invariant
                check_lines_spec(self@, k as nat) == Ok::<(), ErrorView>(()),
        {
            assert(self@[k as int] == (self.code_lines@[k as int].0, self.code_lines@[k as int].1@));
            match self.code_lines[k].1.check() {
                Ok(()) => {},
                Err(err) => {
                    proof {
                        lemma_check_error_stays(self@, (k + 1) as nat, self@.len());
                    }
                    return Err(Error::InvalidTokenArrangement { line: self.code_lines[k].0, err });
                },
            }
        }
        Ok(())
    }

    /// The symbol table: each declared label with its address.
    fn get_jump_point_declarations(&self) -> (t: Vec<(Vec<char>, usize)>)
        ensures
            table_view(t@) == declarations_spec(self@, self@.len()),
    {
        let mut t: Vec<(Vec<char>, usize)> = Vec::new();
        for k in 0..self.code_lines.len()
            invariant
                table_view(t@) == declarations_spec(self@, k as nat),
        {
            assert(self@[k as int] == (self.code_lines@[k as int].0, self.code_lines@[k as int].1@));
            match &self.code_lines[k].1 {
                CodeLine::SingleToken(CodeToken::JumpPointDeclaration(jp)) => {
                    let ghost before = t@;
                    t.push((chars_of(jp.name()), k));
                    assert(table_view(t@) =~= table_view(before).push((jp@, k as nat)));
                },
                _ => {},
            }
        }
        t
    }

    /// Pass two: replaces declarations by `NOOP` and references by the
    /// addresses of their labels.
    fn resolve_jump_points(&self) -> (r: Result<Document, Error>)
        requires
            check_lines_spec(self@, self@.len()) is Ok,
        ensures
            result_view(r) == resolve_lines_spec(self@, self@.len()),
            r matches Ok(d) ==> all_resolved(d@),
    {
        let table = self.get_jump_point_declarations();
        let ghost cls = self@;
        let mut out: Vec<(usize, CodeLine)> = Vec::new();
        assert(numbered_view(out@) =~= seq![]);
        for k in 0..self.code_lines.len()
            invariant
                cls == self@,
                check_lines_spec(cls, cls.len()) is Ok,
                table_view(table@) == declarations_spec(cls, cls.len()),
                resolve_lines_spec(cls, k as nat) == Ok::<Seq<NumberedLine>, ErrorView>(numbered_view(out@)),
                all_resolved(numbered_view(out@)),
        {
            let line = self.code_lines[k].0;
            assert(cls[k as int] == (line, self.code_lines@[k as int].1@));
            proof {
                lemma_checked_lines(cls, cls.len(), k as int);
            }
            let resolved = match &self.code_lines[k].1 {
                CodeLine::SingleToken(CodeToken::JumpPointDeclaration(_)) => CodeLine::SingleToken(
                    CodeToken::Inst(Instruction::NOOP),
                ),
                CodeLine::DoubleToken(t0, CodeToken::JumpPoint(jp)) => {
                    let name = chars_of(jp.name());
                    proof {
                        lemma_lookup_declarations(cls, jp@, cls.len());
                    }
                    match lookup(&table, &name) {
                        Some(addr) => CodeLine::DoubleToken(t0.duplicate(), CodeToken::Val(#[verifier::truncate] (addr as IRS))),
                        None => {
                            proof {
                                lemma_resolve_error_stays(cls, (k + 1) as nat, cls.len());
                            }
                            return Err(Error::UndefinedJumpPoint { name: jp.0.clone(), line });
                        },
                    }
                },
                CodeLine::SingleToken(t) => CodeLine::SingleToken(t.duplicate()),
                CodeLine::DoubleToken(t0, t1) => CodeLine::DoubleToken(t0.duplicate(), t1.duplicate()),
            };
            let ghost before = out@;
            let ghost rv = resolved@;
            assert(rv == resolve_line(cls, cls[k as int].1));
            out.push((line, resolved));
            assert(numbered_view(out@) =~= numbered_view(before).push((line, rv)));
        }
        Ok(Document { code_lines: out })
    }
}

} // verus!

verus! {

/// Assembles a source text into a program image; fails as a whole on the
/// first error of either pass.
pub fn assemble(source: &str) -> (r: Result<RAM, Error>)
    ensures
        result_view(r) == assemble_spec(source@),
{
    match Document::from_str(source) {
        Ok(doc) => Ok(doc.as_ram()),
        Err(e) => Err(e),
    }
}

} // verus!

verus! {

// ---------------------------------------------------------------------------
// Laws of assembly
// ---------------------------------------------------------------------------

/// Whether a line opening with opcode `c` needs an operand.
pub open spec fn raw_takes_operand(c: URS) -> bool {
    takes_second_spec(CodeTokenView::Code(c))
}

/// The source line of one instruction written with raw numbers: the opcode,
/// then the operand if the opcode takes one.
pub open spec fn raw_line(c: URS, v: IRS) -> Seq<char> {
    if raw_takes_operand(c) {
        decimal(c as nat) + seq![' '] + signed_decimal(v as int)
    } else {
        decimal(c as nat)
    }
}

/// The code line that `raw_line(c, v)` reads as.
pub open spec fn raw_code_line(c: URS, v: IRS) -> CodeLineView {
    if raw_takes_operand(c) {
        CodeLineView::DoubleToken(CodeTokenView::Code(c), CodeTokenView::Val(v))
    } else {
        CodeLineView::SingleToken(CodeTokenView::Code(c))
    }
}

/// Whether a program image can be written with raw numbers: an opcode that
/// takes no operand has operand zero.
pub open spec fn raw_program(prog: Seq<(URS, IRS)>) -> bool {
    forall|k: int| 0 <= k < prog.len() && !raw_takes_operand(#[trigger] prog[k].0) ==> prog[k].1 == 0
}

/// The source lines that write a program image with raw numbers.
pub open spec fn raw_source(prog: Seq<(URS, IRS)>) -> Seq<Seq<char>> {
    prog.map_values(|p: (URS, IRS)| raw_line(p.0, p.1))
}

proof fn lemma_number_text(v: int)
    ensures
        signed_decimal(v).len() > 0,
        no_ws(signed_decimal(v)),
        forall|i: int| 0 <= i < signed_decimal(v).len() ==> #[trigger] signed_decimal(v)[i] != ';',
        !('A' <= signed_decimal(v)[0] <= 'Z'),
        v >= 0 ==> signed_decimal(v) == decimal(v as nat),
{
    let t = signed_decimal(v);
    if v < 0 {
        lemma_decimal((-v) as nat);
        assert forall|i: int| 0 < i < t.len() implies is_digit(t[i]) by {
            assert(t[i] == decimal((-v) as nat)[i - 1]);
        }
    } else {
        lemma_decimal(v as nat);
    }
}

proof fn lemma_raw_line(c: URS, v: IRS)
    ensures
        parse_line_spec(raw_line(c, v)) == Ok::<Option<CodeLineView>, ParseErrorView>(
            Some(raw_code_line(c, v)),
        ),
{
    let x = decimal(c as nat);
    let y = signed_decimal(v as int);
    lemma_number_text(c as int);
    lemma_number_text(v as int);
    lemma_upper_signed_decimal(c as int);
    lemma_upper_signed_decimal(v as int);
    lemma_parse_decimal(c);
    lemma_parse_signed_decimal(v);
    lemma_not_mnemonic(x);
    lemma_not_mnemonic(y);
    let line = raw_line(c, v);
    if raw_takes_operand(c) {
        assert forall|i: int| 0 <= i < line.len() implies line[i] != ';' by {
            if i < x.len() {
                assert(line[i] == x[i]);
            } else if i > x.len() {
                assert(line[i] == y[i - x.len() - 1]);
            }
        }
        lemma_no_comment(line);
        lemma_words_pair(x, y);
    } else {
        lemma_no_comment(line);
        lemma_words_single(x);
    }
}

proof fn lemma_raw_parse(prog: Seq<(URS, IRS)>, n: nat)
    requires
        n <= prog.len(),
        prog.len() < usize::MAX,
    ensures
        parse_lines_spec(raw_source(prog), n) == Ok::<Seq<NumberedLine>, ErrorView>(
            Seq::new(n, |k: int| ((k + 1) as usize, raw_code_line(prog[k].0, prog[k].1))),
        ),
    decreases n,
{
    if n == 0 {
        assert(Seq::new(n, |k: int| ((k + 1) as usize, raw_code_line(prog[k].0, prog[k].1))) =~= seq![]);
    } else {
        lemma_raw_parse(prog, (n - 1) as nat);
        lemma_raw_line(prog[n - 1].0, prog[n - 1].1);
        assert(raw_source(prog)[n - 1] == raw_line(prog[n - 1].0, prog[n - 1].1));
        assert(Seq::new((n - 1) as nat, |k: int| ((k + 1) as usize, raw_code_line(prog[k].0, prog[k].1))).push(
            (n as usize, raw_code_line(prog[n - 1].0, prog[n - 1].1)),
        ) =~= Seq::new(n, |k: int| ((k + 1) as usize, raw_code_line(prog[k].0, prog[k].1))));
    }
}

proof fn lemma_raw_check(cls: Seq<NumberedLine>, n: nat)
    requires
        n <= cls.len(),
        forall|k: int| 0 <= k < cls.len() ==> exists|c: URS, v: IRS| #[trigger] cls[k].1 == raw_code_line(c, v),
    ensures
        check_lines_spec(cls, n) == Ok::<(), ErrorView>(()),
    decreases n,
{
    if n > 0 {
        lemma_raw_check(cls, (n - 1) as nat);
        let k = n - 1;
        let (c, v) = choose|c: URS, v: IRS| cls[k].1 == raw_code_line(c, v);
        assert(cls[k].1 == raw_code_line(c, v));
    }
}

proof fn lemma_raw_resolve(cls: Seq<NumberedLine>, n: nat)
    requires
        n <= cls.len(),
        forall|k: int| 0 <= k < cls.len() ==> exists|c: URS, v: IRS| #[trigger] cls[k].1 == raw_code_line(c, v),
    ensures
        resolve_lines_spec(cls, n) == Ok::<Seq<NumberedLine>, ErrorView>(cls.take(n as int)),
    decreases n,
{
    if n == 0 {
        assert(cls.take(0) =~= seq![]);
    } else {
        lemma_raw_resolve(cls, (n - 1) as nat);
        let k = n - 1;
        let (c, v) = choose|c: URS, v: IRS| cls[k].1 == raw_code_line(c, v);
        assert(cls[k].1 == raw_code_line(c, v));
        assert(cls.take(k as int).push((cls[k].0, cls[k].1)) =~= cls.take(n as int));
    }
}

proof fn lemma_raw_lines(prog: Seq<(URS, IRS)>)
    requires
        raw_program(prog),
        prog.len() < usize::MAX,
    ensures
        assemble_lines_spec(raw_source(prog)) == Ok::<Seq<NumberedLine>, ErrorView>(
            Seq::new(prog.len(), |k: int| ((k + 1) as usize, raw_code_line(prog[k].0, prog[k].1))),
        ),
        image_of(
            Seq::new(prog.len(), |k: int| ((k + 1) as usize, raw_code_line(prog[k].0, prog[k].1))),
        ) == prog,
{
    let lines = raw_source(prog);
    let cls = Seq::new(prog.len(), |k: int| ((k + 1) as usize, raw_code_line(prog[k].0, prog[k].1)));
    lemma_raw_parse(prog, prog.len());
    assert forall|k: int| 0 <= k < cls.len() implies exists|c: URS, v: IRS| #[trigger] cls[k].1 == raw_code_line(c, v) by {
        assert(cls[k].1 == raw_code_line(prog[k].0, prog[k].1));
    }
    lemma_raw_check(cls, cls.len());
    lemma_raw_resolve(cls, cls.len());
    assert(cls.take(cls.len() as int) =~= cls);
    assert forall|k: int| 0 <= k < prog.len() implies image_of(cls)[k] == prog[k] by {
        if !raw_takes_operand(prog[k].0) {
            assert(prog[k].1 == 0);
        }
    }
    assert(image_of(cls) =~= prog);
}

/// A program written with raw numeric opcodes and operands, one instruction
/// per line and no mnemonics or labels, assembles to exactly the program
/// image those numbers spell.
pub proof fn law_raw_round_trip(prog: Seq<(URS, IRS)>)
    requires
        raw_program(prog),
        prog.len() < usize::MAX,
    ensures
        assemble_spec(text_of_lines(raw_source(prog))) == Ok::<Seq<(URS, IRS)>, ErrorView>(prog),
{
    let ls = raw_source(prog);
    assert forall|k: int| 0 <= k < ls.len() implies plain_line(#[trigger] ls[k]) by {
        let (c, v) = prog[k];
        let x = decimal(c as nat);
        let y = signed_decimal(v as int);
        lemma_number_text(c as int);
        lemma_number_text(v as int);
        let line = raw_line(c, v);
        assert(ls[k] == line);
        if raw_takes_operand(c) {
            assert forall|i: int| 0 <= i < line.len() implies line[i] != '\n' by {
                if i < x.len() {
                    assert(line[i] == x[i]);
                } else if i > x.len() {
                    assert(line[i] == y[i - x.len() - 1]);
                }
            }
            assert(line.last() == y[y.len() - 1]);
        } else {
            assert(line.last() == x[x.len() - 1]);
        }
    }
    lemma_lines_of_text(ls);
    lemma_raw_lines(prog);
}

} // verus!

verus! {

/// The number of lines that hold tokens among the first `p` source lines:
/// the address in the program image of source line `p` (counted from 0).
pub open spec fn code_address(lines: Seq<Seq<char>>, p: nat) -> nat
    decreases p,
{
    if p == 0 {
        0
    } else {
        code_address(lines, (p - 1) as nat) + if parse_line_spec(lines[p - 1]) matches Ok(Some(_)) {
            1nat
        } else {
            0nat
        }
    }
}

/// Whether a code line declares label `name`.
pub open spec fn declares(cl: CodeLineView, name: Seq<char>) -> bool {
    cl == CodeLineView::SingleToken(CodeTokenView::JumpPointDeclaration(name))
}

proof fn lemma_parse_len(lines: Seq<Seq<char>>, n: nat)
    requires
        n <= lines.len(),
        parse_lines_spec(lines, n) is Ok,
    ensures
        parse_lines_spec(lines, n)->Ok_0.len() == code_address(lines, n),
    decreases n,
{
    if n > 0 {
        lemma_parse_len(lines, (n - 1) as nat);
    }
}

proof fn lemma_parse_at(lines: Seq<Seq<char>>, n: nat, r: int)
    requires
        n <= lines.len(),
        parse_lines_spec(lines, n) is Ok,
        0 <= r < n,
        parse_line_spec(lines[r]) matches Ok(Some(_)),
    ensures
        code_address(lines, r as nat) < parse_lines_spec(lines, n)->Ok_0.len(),
        parse_lines_spec(lines, n)->Ok_0[code_address(lines, r as nat) as int] == (
            (r + 1) as usize,
            parse_line_spec(lines[r])->Ok_0->Some_0,
        ),
    decreases n,
{
    let m = (n - 1) as nat;
    lemma_parse_len(lines, m);
    if r < m {
        lemma_parse_at(lines, m, r);
    }
}

proof fn lemma_parse_declaration(lines: Seq<Seq<char>>, n: nat, q: int, name: Seq<char>, b: int)
    requires
        n <= lines.len(),
        parse_lines_spec(lines, n) is Ok,
        forall|r: int|
            0 <= r < lines.len() && r != q ==> parse_line_spec(#[trigger] lines[r])
                != Ok::<Option<CodeLineView>, ParseErrorView>(
                Some(CodeLineView::SingleToken(CodeTokenView::JumpPointDeclaration(name))),
            ),
        0 <= b < parse_lines_spec(lines, n)->Ok_0.len(),
        declares(parse_lines_spec(lines, n)->Ok_0[b].1, name),
    ensures
        q < n,
        b == code_address(lines, q as nat),
    decreases n,
{
    let m = (n - 1) as nat;
    lemma_parse_len(lines, m);
    lemma_parse_len(lines, n);
    let prev = parse_lines_spec(lines, m)->Ok_0;
    if b < prev.len() {
        lemma_parse_declaration(lines, m, q, name, b);
    } else {
        assert(m as int == q);
    }
}

proof fn lemma_unique_declaration(cls: Seq<NumberedLine>, name: Seq<char>, a: int, n: nat)
    requires
        n <= cls.len(),
        0 <= a < n,
        declares(cls[a].1, name),
        forall|b: int| 0 <= b < n && declares(#[trigger] cls[b].1, name) ==> b == a,
    ensures
        last_declaration(cls, name, n) == Some(a as nat),
    decreases n,
{
    if a < n - 1 {
        assert(!declares(cls[n - 1].1, name));
        lemma_unique_declaration(cls, name, a, (n - 1) as nat);
    }
}

proof fn lemma_resolve_structure(cls: Seq<NumberedLine>, n: nat)
    requires
        n <= cls.len(),
        resolve_lines_spec(cls, n) is Ok,
    ensures
        ({
            let res = resolve_lines_spec(cls, n)->Ok_0;
            &&& res.len() == n
            &&& forall|b: int|
                0 <= b < n ==> #[trigger] res[b] == (cls[b].0, resolve_line(cls, cls[b].1))
        }),
    decreases n,
{
    if n > 0 {
        lemma_resolve_structure(cls, (n - 1) as nat);
    }
}

/// A label referred to by a conditional jump and declared once, on a later
/// line, resolves to the address of its declaration: the number of lines
/// with tokens before it, so that blank and comment lines between count for
/// nothing.
pub proof fn law_forward_label(source: Seq<char>, p: int, q: int, j: Instruction, name: Seq<char>)
    requires
        0 <= p < q < lines_of(source).len(),
        is_jump(j),
        !(j is JUMP),
        parse_line_spec(lines_of(source)[p]) == Ok::<Option<CodeLineView>, ParseErrorView>(
            Some(CodeLineView::DoubleToken(CodeTokenView::Inst(j), CodeTokenView::JumpPoint(name))),
        ),
        parse_line_spec(lines_of(source)[q]) == Ok::<Option<CodeLineView>, ParseErrorView>(
            Some(CodeLineView::SingleToken(CodeTokenView::JumpPointDeclaration(name))),
        ),
        forall|r: int|
            0 <= r < lines_of(source).len() && r != q ==> parse_line_spec(
                #[trigger] lines_of(source)[r],
            ) != Ok::<Option<CodeLineView>, ParseErrorView>(
                Some(CodeLineView::SingleToken(CodeTokenView::JumpPointDeclaration(name))),
            ),
        assemble_spec(source) is Ok,
    ensures
        code_address(lines_of(source), p as nat) < assemble_spec(source)->Ok_0.len(),
        assemble_spec(source)->Ok_0[code_address(lines_of(source), p as nat) as int] == (
            opcode_of(j) as URS,
            code_address(lines_of(source), q as nat) as IRS,
        ),
{
    let lines = lines_of(source);
    if parse_lines_spec(lines, lines.len()) is Err {
        assert(false);
    }
    let cls = parse_lines_spec(lines, lines.len())->Ok_0;
    lemma_parse_at(lines, lines.len(), p);
    lemma_parse_at(lines, lines.len(), q);
    let ap = code_address(lines, p as nat) as int;
    let aq = code_address(lines, q as nat) as int;
    assert(declares(cls[aq].1, name));
    assert forall|b: int| 0 <= b < cls.len() && declares(#[trigger] cls[b].1, name) implies b == aq by {
        lemma_parse_declaration(lines, lines.len(), q, name, b);
    }
    lemma_unique_declaration(cls, name, aq, cls.len());
    if check_lines_spec(cls, cls.len()) is Err {
        assert(false);
    }
    if resolve_lines_spec(cls, cls.len()) is Err {
        assert(false);
    }
    lemma_resolve_structure(cls, cls.len());
    let res = resolve_lines_spec(cls, cls.len())->Ok_0;
    assert(res[ap] == (cls[ap].0, resolve_line(cls, cls[ap].1)));
    assert(image_of(res)[ap] == urs_irs_of(res[ap].1));
}

} // verus!
