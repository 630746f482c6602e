//! Character-level text handling: lines, words, comments, decimal numbers.
use vstd::prelude::*;

verus! {

// ---------------------------------------------------------------------------
// Lines
// ---------------------------------------------------------------------------

/// `line` without one trailing carriage return.
pub open spec fn strip_cr(line: Seq<char>) -> Seq<char> {
    if line.len() > 0 && line.last() == '\r' {
        line.drop_last()
    } else {
        line
    }
}

/// The finished lines of `s` and the unfinished last one, reading left to right.
pub open spec fn lines_acc(s: Seq<char>) -> (Seq<Seq<char>>, Seq<char>)
    decreases s.len(),
{
    if s.len() == 0 {
        (seq![], seq![])
    } else {
        let (done, cur) = lines_acc(s.drop_last());
        if s.last() == '\n' {
            (done.push(strip_cr(cur)), seq![])
        } else {
            (done, cur.push(s.last()))
        }
    }
}

/// The lines of a text: split at `\n`, a `\r` before it dropped, and no empty
/// line after a final line ending.
pub open spec fn lines_of(s: Seq<char>) -> Seq<Seq<char>> {
    let (done, cur) = lines_acc(s);
    if cur.len() > 0 {
        done.push(cur)
    } else {
        done
    }
}

// ---------------------------------------------------------------------------
// Comments and words
// ---------------------------------------------------------------------------

/// What precedes the first `;` of a line.
pub open spec fn strip_comment(s: Seq<char>) -> Seq<char>
    decreases s.len(),
{
    if s.len() == 0 {
        s
    } else if s[0] == ';' {
        seq![]
    } else {
        seq![s[0]] + strip_comment(s.drop_first())
    }
}

/// ASCII whitespace: space, tab, line feed, form feed and carriage return.
pub open spec fn is_ws(c: char) -> bool {
    c == ' ' || c == '\t' || c == '\n' || c == '\x0C' || c == '\r'
}

/// The finished words of `s` and the unfinished last one, reading left to right.
pub open spec fn words_acc(s: Seq<char>) -> (Seq<Seq<char>>, Seq<char>)
    decreases s.len(),
{
    if s.len() == 0 {
        (seq![], seq![])
    } else {
        let (done, cur) = words_acc(s.drop_last());
        if is_ws(s.last()) {
            if cur.len() > 0 {
                (done.push(cur), seq![])
            } else {
                (done, cur)
            }
        } else {
            (done, cur.push(s.last()))
        }
    }
}

/// The maximal runs of non-whitespace characters of `s`, in order.
pub open spec fn words_of(s: Seq<char>) -> Seq<Seq<char>> {
    let (done, cur) = words_acc(s);
    if cur.len() > 0 {
        done.push(cur)
    } else {
        done
    }
}

// ---------------------------------------------------------------------------
// Decimal numbers
// ---------------------------------------------------------------------------

pub open spec fn is_digit(c: char) -> bool {
    '0' <= c <= '9'
}

pub open spec fn all_digits(s: Seq<char>) -> bool {
    forall|i: int| 0 <= i < s.len() ==> is_digit(#[trigger] s[i])
}

pub open spec fn digit_value(c: char) -> nat {
    (c as int - '0' as int) as nat
}

/// The number that a string of decimal digits denotes.
pub open spec fn digits_value(s: Seq<char>) -> nat
    decreases s.len(),
{
    if s.len() == 0 {
        0
    } else {
        digits_value(s.drop_last()) * 10 + digit_value(s.last())
    }
}

/// The digits of a number with an optional leading `+` removed; `None` if
/// what remains is empty or holds a non-digit.
pub open spec fn unsigned_digits(s: Seq<char>) -> Option<nat> {
    let body = if s.len() > 0 && s[0] == '+' {
        s.drop_first()
    } else {
        s
    };
    if body.len() > 0 && all_digits(body) {
        Some(digits_value(body))
    } else {
        None
    }
}

/// A decimal integer with an optional sign, as `str::parse` reads one.
pub open spec fn signed_digits(s: Seq<char>) -> Option<int> {
    if s.len() > 0 && s[0] == '-' {
        let body = s.drop_first();
        if body.len() > 0 && all_digits(body) {
            Some(-digits_value(body))
        } else {
            None
        }
    } else {
        match unsigned_digits(s) {
            Some(n) => Some(n as int),
            None => None,
        }
    }
}

/// `s` read as a `usize`, if it is a decimal number in range.
pub open spec fn parse_usize_spec(s: Seq<char>) -> Option<usize> {
    match unsigned_digits(s) {
        Some(n) => if n <= usize::MAX {
            Some(n as usize)
        } else {
            None
        },
        None => None,
    }
}

/// `s` read as an `i64`, if it is a signed decimal number in range.
pub open spec fn parse_i64_spec(s: Seq<char>) -> Option<i64> {
    match signed_digits(s) {
        Some(n) => if i64::MIN <= n <= i64::MAX {
            Some(n as i64)
        } else {
            None
        },
        None => None,
    }
}

pub open spec fn digit_char(d: nat) -> char {
    ((d % 10) + '0' as nat) as char
}

/// The decimal digits of `n`, without leading zeros (`0` for zero).
pub open spec fn decimal(n: nat) -> Seq<char>
    decreases n,
{
    if n < 10 {
        seq![digit_char(n)]
    } else {
        decimal(n / 10).push(digit_char(n % 10))
    }
}

/// The decimal text of an integer, with `-` before a negative one.
pub open spec fn signed_decimal(v: int) -> Seq<char> {
    if v < 0 {
        seq!['-'] + decimal((-v) as nat)
    } else {
        decimal(v as nat)
    }
}

} // verus!

verus! {

// ---------------------------------------------------------------------------
// Executable text handling
// ---------------------------------------------------------------------------

/// The character sequences that a list of character vectors holds.
pub open spec fn views_of(v: Seq<Vec<char>>) -> Seq<Seq<char>> {
    v.map_values(|w: Vec<char>| w@)
}

/// The characters of a string slice, in order.
pub fn chars_of(s: &str) -> (r: Vec<char>)
    ensures
        r@ == s@,
{
    let mut r: Vec<char> = Vec::new();
    for c in it: s.chars()
        invariant
            it.seq() == s@,
            r@ == it.seq().take(it.index() as int),
    {
        r.push(c);
        assert(r@ =~= it.seq().take(it.index() as int + 1));
    }
    assert(r@ =~= s@);
    r
}

} // verus!

verus! {

/// Relies on `String::push`: appends one character at the end.
#[verifier::external_body]
fn push_char(s: &mut String, c: char)
    ensures
        final(s)@ == old(s)@.push(c),
{
    s.push(c)
}

/// A `String` holding the given characters.
pub fn string_of(chars: &Vec<char>) -> (r: String)
    ensures
        r@ == chars@,
{
    let mut r = String::new();
    for i in 0..chars.len()
        invariant
            r@ == chars@.take(i as int),
    {
        push_char(&mut r, chars[i]);
        assert(r@ =~= chars@.take(i as int + 1));
    }
    assert(chars@.take(chars@.len() as int) =~= chars@);
    r
}

/// The ASCII upper case of one character.
pub open spec fn ascii_upper_char(c: char) -> char {
    if 'a' <= c <= 'z' {
        ((c as int) - 32) as char
    } else {
        c
    }
}

/// The case-folded form of a word: ASCII letters `a` to `z` become `A` to
/// `Z`, every other character stays.
pub open spec fn upper_of(s: Seq<char>) -> Seq<char> {
    s.map_values(|c: char| ascii_upper_char(c))
}

/// The case-folded characters of a word.
pub fn upper_chars(s: &str) -> (r: Vec<char>)
    ensures
        r@ == upper_of(s@),
{
    let cs = chars_of(s);
    let mut r: Vec<char> = Vec::new();
    for i in 0..cs.len()
        invariant
            cs@ == s@,
            r@ == upper_of(cs@.take(i as int)),
    {
        let c = cs[i];
        let u: char = if 'a' <= c && c <= 'z' {
            ((c as u32 - 32) as u8) as char
        } else {
            c
        };
        r.push(u);
        assert(r@ =~= upper_of(cs@.take(i as int + 1)));
    }
    assert(cs@.take(cs@.len() as int) =~= cs@);
    r
}

} // verus!

verus! {

/// The lines of a text, as `lines_of` describes them.
pub fn split_lines(s: &str) -> (r: Vec<Vec<char>>)
    ensures
        views_of(r@) == lines_of(s@),
{
    let cs = chars_of(s);
    let mut done: Vec<Vec<char>> = Vec::new();
    let mut cur: Vec<char> = Vec::new();
    for i in 0..cs.len()
        invariant
            cs@ == s@,
            (views_of(done@), cur@) == lines_acc(cs@.take(i as int)),
    {
        let c = cs[i];
        assert(cs@.take(i as int + 1).drop_last() =~= cs@.take(i as int));
        if c == '\n' {
            let n = cur.len();
            if n > 0 && cur[n - 1] == '\r' {
                cur.pop();
            }
            done.push(cur);
            cur = Vec::new();
            assert(views_of(done@) =~= lines_acc(cs@.take(i as int + 1)).0);
        } else {
            cur.push(c);
        }
        assert(cur@ =~= lines_acc(cs@.take(i as int + 1)).1);
    }
    assert(cs@.take(cs@.len() as int) =~= cs@);
    if cur.len() > 0 {
        done.push(cur);
    }
    assert(views_of(done@) =~= lines_of(s@));
    done
}

/// The words of a line before its first `;`.
pub fn code_words(line: &Vec<char>) -> (r: Vec<Vec<char>>)
    ensures
        views_of(r@) == words_of(strip_comment(line@)),
{
    let mut done: Vec<Vec<char>> = Vec::new();
    let mut cur: Vec<char> = Vec::new();
    let mut i: usize = 0;
    assert(line@.skip(0) =~= line@);
    assert(line@.take(0) + strip_comment(line@) =~= strip_comment(line@));
    while i < line.len() && line[i] != ';'
        invariant
            i <= line.len(),
            strip_comment(line@) == line@.take(i as int) + strip_comment(line@.skip(i as int)),
            (views_of(done@), cur@) == words_acc(line@.take(i as int)),
        decreases line.len() - i,
    {
        let c = line[i];
        assert(line@.take(i as int + 1).drop_last() =~= line@.take(i as int));
        assert(line@.skip(i as int).drop_first() =~= line@.skip(i as int + 1));
        assert(line@.take(i as int) + seq![c] =~= line@.take(i as int + 1));
        if c == ' ' || c == '\t' || c == '\n' || c == '\x0C' || c == '\r' {
            if cur.len() > 0 {
                done.push(cur);
                cur = Vec::new();
                assert(views_of(done@) =~= words_acc(line@.take(i as int + 1)).0);
            }
        } else {
            cur.push(c);
        }
        assert(cur@ =~= words_acc(line@.take(i as int + 1)).1);
        i = i + 1;
    }
    assert(strip_comment(line@) =~= line@.take(i as int));
    if cur.len() > 0 {
        done.push(cur);
    }
    assert(views_of(done@) =~= words_of(strip_comment(line@)));
    done
}

} // verus!

verus! {

proof fn lemma_digits_prefix(s: Seq<char>, k: int)
    requires
        all_digits(s),
        0 <= k <= s.len(),
    ensures
        digits_value(s.take(k)) <= digits_value(s),
    decreases s.len(),
{
    if k < s.len() {
        assert(s.take(k) =~= s.drop_last().take(k));
        lemma_digits_prefix(s.drop_last(), k);
    } else {
        assert(s.take(k) =~= s);
    }
}

/// The number that `w` holds from position `start` on, if that part is a
/// non-empty run of decimal digits whose value is at most `limit`.
fn digits_upto(w: &Vec<char>, start: usize, limit: u64) -> (r: Option<u64>)
    requires
        start <= w.len(),
    ensures
        r == (if w@.skip(start as int).len() > 0 && all_digits(w@.skip(start as int))
            && digits_value(w@.skip(start as int)) <= limit {
            Some(digits_value(w@.skip(start as int)) as u64)
        } else {
            None
        }),
{
    let ghost body = w@.skip(start as int);
    if start == w.len() {
        return None;
    }
    let mut acc: u64 = 0;
    let mut i: usize = start;
    assert(w@.subrange(start as int, start as int) =~= seq![]);
    while i < w.len()
        invariant
            start <= i <= w.len(),
            body == w@.skip(start as int),
            all_digits(w@.subrange(start as int, i as int)),
            acc as nat == digits_value(w@.subrange(start as int, i as int)),
            acc <= limit,
        decreases w.len() - i,
    {
        let c = w[i];
        let ghost pre = w@.subrange(start as int, i as int);
        let ghost next = w@.subrange(start as int, i as int + 1);
        assert(next.drop_last() =~= pre);
        assert(next.last() == c);
        assert(body[i - start] == c);
        if !('0' <= c && c <= '9') {
            return None;
        }
        let d: u64 = (c as u32 - '0' as u32) as u64;
        if d > limit || acc > (limit - d) / 10 {
            proof {
                assert(acc * 10 + d > limit) by (nonlinear_arith)
                    requires d > limit || acc > (limit - d) / 10, acc >= 0;
                if all_digits(body) {
                    assert(next =~= body.take(i - start + 1));
                    lemma_digits_prefix(body, i - start + 1);
                }
            }
            return None;
        }
        assert(acc * 10 + d <= limit) by (nonlinear_arith)
            requires acc <= (limit - d) / 10, d <= limit;
        acc = acc * 10 + d;
        i = i + 1;
    }
    assert(w@.subrange(start as int, i as int) =~= body);
    Some(acc)
}

} // verus!

verus! {

/// A word read as a `usize`, as `parse_usize_spec` describes.
pub fn parse_usize(w: &Vec<char>) -> (r: Option<usize>)
    ensures
        r == parse_usize_spec(w@),
{
    let start: usize = if w.len() > 0 && w[0] == '+' {
        1
    } else {
        0
    };
    assert(w@.skip(1) =~= w@.drop_first());
    assert(w@.skip(0) =~= w@);
    match digits_upto(w, start, usize::MAX as u64) {
        Some(n) => Some(n as usize),
        None => None,
    }
}

/// A word read as an `i64`, as `parse_i64_spec` describes.
pub fn parse_i64(w: &Vec<char>) -> (r: Option<i64>)
    ensures
        r == parse_i64_spec(w@),
{
    assert(w@.skip(1) =~= w@.drop_first());
    assert(w@.skip(0) =~= w@);
    if w.len() > 0 && w[0] == '-' {
        match digits_upto(w, 1, 0x8000_0000_0000_0000u64) {
            Some(n) => {
                if n == 0x8000_0000_0000_0000u64 {
                    Some(i64::MIN)
                } else {
                    Some(-(n as i64))
                }
            },
            None => None,
        }
    } else {
        let start: usize = if w.len() > 0 && w[0] == '+' {
            1
        } else {
            0
        };
        match digits_upto(w, start, i64::MAX as u64) {
            Some(n) => Some(n as i64),
            None => None,
        }
    }
}

/// Appends the decimal digits of `n`.
pub fn push_decimal(out: &mut Vec<char>, n: u64)
    ensures
        final(out)@ == old(out)@ + decimal(n as nat),
    decreases n,
{
    if n >= 10 {
        push_decimal(out, n / 10);
    }
    let d: u8 = (n % 10) as u8;
    let c: char = (d + 48u8) as char;
    assert(c == digit_char(n as nat));
    out.push(c);
    assert(out@ =~= old(out)@ + decimal(n as nat));
}

/// Appends the decimal text of `v`, with a `-` if it is negative.
pub fn push_signed(out: &mut Vec<char>, v: i64)
    ensures
        final(out)@ == old(out)@ + signed_decimal(v as int),
{
    if v < 0 {
        out.push('-');
        let m: u64 = ((-(v + 1)) as u64) + 1;
        push_decimal(out, m);
        assert(out@ =~= old(out)@ + signed_decimal(v as int));
    } else {
        push_decimal(out, v as u64);
    }
}

} // verus!

verus! {

/// Whether two character vectors hold the same characters.
pub fn chars_equal(a: &Vec<char>, b: &Vec<char>) -> (r: bool)
    ensures
        r == (a@ == b@),
{
    if a.len() != b.len() {
        return false;
    }
    for i in 0..a.len()
        invariant
            a.len() == b.len(),
            forall|j: int| 0 <= j < i ==> a@[j] == b@[j],
    {
        if a[i] != b[i] {
            return false;
        }
    }
    assert(a@ =~= b@);
    true
}

} // verus!

verus! {

// ---------------------------------------------------------------------------
// Lemmas on numbers as text
// ---------------------------------------------------------------------------

pub proof fn lemma_digit_char(d: nat)
    requires
        d < 10,
    ensures
        is_digit(digit_char(d)),
        digit_value(digit_char(d)) == d,
{
}

/// The decimal text of a number is a non-empty run of digits denoting it.
pub proof fn lemma_decimal(n: nat)
    ensures
        decimal(n).len() > 0,
        all_digits(decimal(n)),
        digits_value(decimal(n)) == n,
    decreases n,
{
    if n < 10 {
        lemma_digit_char(n);
        assert(decimal(n).drop_last() =~= seq![]);
        assert(decimal(n).last() == digit_char(n));
        assert(digits_value(decimal(n).drop_last()) == 0);
        assert(digits_value(decimal(n)) == digits_value(decimal(n).drop_last()) * 10 + digit_value(
            decimal(n).last(),
        ));
    } else {
        lemma_decimal(n / 10);
        lemma_digit_char(n % 10);
        assert(decimal(n).drop_last() =~= decimal(n / 10));
        assert(digit_char(n % 10) == digit_char(n));
        assert(decimal(n).last() == digit_char(n % 10));
        assert((n / 10) * 10 + n % 10 == n) by (nonlinear_arith);
        assert(digits_value(decimal(n)) == digits_value(decimal(n).drop_last()) * 10 + digit_value(
            decimal(n).last(),
        ));
    }
}

/// Reading the decimal text of a `usize` gives it back.
pub proof fn lemma_parse_decimal(c: usize)
    ensures
        parse_usize_spec(decimal(c as nat)) == Some(c),
{
    lemma_decimal(c as nat);
    assert(is_digit(decimal(c as nat)[0]));
}

/// Reading the signed decimal text of an `i64` gives it back.
pub proof fn lemma_parse_signed_decimal(v: i64)
    ensures
        parse_i64_spec(signed_decimal(v as int)) == Some(v),
{
    if v < 0 {
        let d = decimal((-v) as nat);
        lemma_decimal((-v) as nat);
        assert((seq!['-'] + d).drop_first() =~= d);
    } else {
        lemma_decimal(v as nat);
        assert(is_digit(decimal(v as nat)[0]));
    }
}

/// Case folding keeps the signed decimal text of a number.
pub proof fn lemma_upper_signed_decimal(v: int)
    ensures
        upper_of(signed_decimal(v)) == signed_decimal(v),
        upper_of(decimal(v as nat)) == decimal(v as nat),
{
    let t = signed_decimal(v);
    if v < 0 {
        lemma_decimal((-v) as nat);
        assert forall|i: int| 0 <= i < t.len() implies ascii_upper_char(t[i]) == t[i] by {
            if i > 0 {
                assert(t[i] == decimal((-v) as nat)[i - 1]);
            }
        }
    } else {
        lemma_decimal(v as nat);
    }
    assert(upper_of(t) =~= t);
    lemma_decimal(v as nat);
    assert(upper_of(decimal(v as nat)) =~= decimal(v as nat));
}

/// A line without `;` has no comment.
pub proof fn lemma_no_comment(s: Seq<char>)
    requires
        forall|i: int| 0 <= i < s.len() ==> s[i] != ';',
    ensures
        strip_comment(s) == s,
    decreases s.len(),
{
    if s.len() > 0 {
        lemma_no_comment(s.drop_first());
        assert(seq![s[0]] + s.drop_first() =~= s);
    }
}

/// Whether `s` holds no whitespace.
pub open spec fn no_ws(s: Seq<char>) -> bool {
    forall|i: int| 0 <= i < s.len() ==> !is_ws(#[trigger] s[i])
}

proof fn lemma_words_acc_run(done: Seq<Seq<char>>, x: Seq<char>, y: Seq<char>)
    requires
        no_ws(y),
        words_acc(x) == (done, Seq::<char>::empty()),
    ensures
        words_acc(x + y) == (done, y),
    decreases y.len(),
{
    if y.len() == 0 {
        assert(x + y =~= x);
    } else {
        lemma_words_acc_run(done, x, y.drop_last());
        assert((x + y).drop_last() =~= x + y.drop_last());
        assert((x + y).last() == y.last());
        assert(y.drop_last().push(y.last()) =~= y);
    }
}

/// The words of one run of non-whitespace characters: that run.
pub proof fn lemma_words_single(w: Seq<char>)
    requires
        w.len() > 0,
        no_ws(w),
    ensures
        words_of(w) == seq![w],
{
    lemma_words_acc_run(seq![], seq![], w);
    assert(Seq::<char>::empty() + w =~= w);
}

/// The words of two runs with a space between them: the two runs.
pub proof fn lemma_words_pair(x: Seq<char>, y: Seq<char>)
    requires
        x.len() > 0,
        y.len() > 0,
        no_ws(x),
        no_ws(y),
    ensures
        words_of(x + seq![' '] + y) == seq![x, y],
{
    lemma_words_acc_run(seq![], seq![], x);
    assert(Seq::<char>::empty() + x =~= x);
    assert((x + seq![' ']).drop_last() =~= x);
    assert(words_acc(x + seq![' ']) == (seq![x], Seq::<char>::empty()));
    lemma_words_acc_run(seq![x], x + seq![' '], y);
}

} // verus!

verus! {

/// Lines written one after another, each ended by `\n`.
pub open spec fn text_of_lines(ls: Seq<Seq<char>>) -> Seq<char>
    decreases ls.len(),
{
    if ls.len() == 0 {
        seq![]
    } else {
        text_of_lines(ls.drop_last()) + ls.last() + seq!['\n']
    }
}

/// Whether a line can be written as one line of text: it holds no `\n` and
/// does not end in `\r`.
pub open spec fn plain_line(l: Seq<char>) -> bool {
    &&& forall|i: int| 0 <= i < l.len() ==> #[trigger] l[i] != '\n'
    &&& !(l.len() > 0 && l.last() == '\r')
}

proof fn lemma_lines_acc_run(done: Seq<Seq<char>>, x: Seq<char>, y: Seq<char>)
    requires
        forall|i: int| 0 <= i < y.len() ==> #[trigger] y[i] != '\n',
        lines_acc(x) == (done, Seq::<char>::empty()),
    ensures
        lines_acc(x + y) == (done, y),
    decreases y.len(),
{
    if y.len() == 0 {
        assert(x + y =~= x);
    } else {
        lemma_lines_acc_run(done, x, y.drop_last());
        assert((x + y).drop_last() =~= x + y.drop_last());
        assert((x + y).last() == y.last());
        assert(y.drop_last().push(y.last()) =~= y);
    }
}

proof fn lemma_lines_acc_text(ls: Seq<Seq<char>>)
    requires
        forall|k: int| 0 <= k < ls.len() ==> plain_line(#[trigger] ls[k]),
    ensures
        lines_acc(text_of_lines(ls)) == (ls, Seq::<char>::empty()),
    decreases ls.len(),
{
    if ls.len() > 0 {
        let init = ls.drop_last();
        assert forall|k: int| 0 <= k < init.len() implies plain_line(#[trigger] init[k]) by {
            assert(init[k] == ls[k]);
        }
        lemma_lines_acc_text(init);
        let l = ls.last();
        assert(plain_line(ls[ls.len() - 1]));
        lemma_lines_acc_run(init, text_of_lines(init), l);
        let t = text_of_lines(ls);
        assert(t.drop_last() =~= text_of_lines(init) + l);
        assert(init.push(l) =~= ls);
    }
}

/// Lines written each with a final `\n` read back as the same lines.
pub proof fn lemma_lines_of_text(ls: Seq<Seq<char>>)
    requires
        forall|k: int| 0 <= k < ls.len() ==> plain_line(#[trigger] ls[k]),
    ensures
        lines_of(text_of_lines(ls)) == ls,
{
    lemma_lines_acc_text(ls);
}

} // verus!
