//! Character-level helpers shared by the display planner and the BDF reader:
//! Unicode white space, trimming, and conversions between `str` and `Vec<char>`.
use vstd::prelude::*;

verus! {

/// Unicode `White_Space`, the set that `char::is_whitespace` tests.
pub open spec fn is_ws(c: char) -> bool {
    ||| ('\t' <= c && c <= '\r')
    ||| c == ' '
    ||| c == '\u{85}'
    ||| c == '\u{a0}'
    ||| c == '\u{1680}'
    ||| ('\u{2000}' <= c && c <= '\u{200a}')
    ||| c == '\u{2028}'
    ||| c == '\u{2029}'
    ||| c == '\u{202f}'
    ||| c == '\u{205f}'
    ||| c == '\u{3000}'
}

pub fn is_whitespace(c: char) -> (b: bool)
    ensures
        b == is_ws(c),
{
    ('\t' <= c && c <= '\r') || c == ' ' || c == '\u{85}' || c == '\u{a0}' || c == '\u{1680}'
        || ('\u{2000}' <= c && c <= '\u{200a}') || c == '\u{2028}' || c == '\u{2029}' || c
        == '\u{202f}' || c == '\u{205f}' || c == '\u{3000}'
}

/// `s` without its leading white space.
pub open spec fn trim_start(s: Seq<char>) -> Seq<char>
    decreases s.len(),
{
    if s.len() > 0 && is_ws(s[0]) {
        trim_start(s.drop_first())
    } else {
        s
    }
}

/// `s` without its trailing white space.
pub open spec fn trim_end(s: Seq<char>) -> Seq<char>
    decreases s.len(),
{
    if s.len() > 0 && is_ws(s.last()) {
        trim_end(s.drop_last())
    } else {
        s
    }
}

/// `s` without leading and trailing white space, as `str::trim` gives it.
pub open spec fn trim(s: Seq<char>) -> Seq<char> {
    trim_end(trim_start(s))
}

proof fn lemma_trim_start_skip(s: Seq<char>, i: int)
    requires
        0 <= i <= s.len(),
        forall|k: int| 0 <= k < i ==> is_ws(#[trigger] s[k]),
    ensures
        trim_start(s) == trim_start(s.subrange(i, s.len() as int)),
    decreases i,
{
    if i > 0 {
        assert(s.drop_first() =~= s.subrange(1, s.len() as int));
        lemma_trim_start_skip(s.drop_first(), i - 1);
        assert(s.drop_first().subrange(i - 1, s.drop_first().len() as int) =~= s.subrange(
            i,
            s.len() as int,
        ));
    } else {
        assert(s =~= s.subrange(0, s.len() as int));
    }
}

proof fn lemma_trim_end_skip(s: Seq<char>, j: int)
    requires
        0 <= j <= s.len(),
        forall|k: int| j <= k < s.len() ==> is_ws(#[trigger] s[k]),
    ensures
        trim_end(s) == trim_end(s.subrange(0, j)),
    decreases s.len() - j,
{
    if j < s.len() {
        lemma_trim_end_skip(s.drop_last(), j);
        assert(s.drop_last().subrange(0, j) =~= s.subrange(0, j));
    } else {
        assert(s =~= s.subrange(0, j));
    }
}

/// The characters of `s`, in order.
pub fn chars_of(s: &str) -> (out: Vec<char>)
    ensures
        out@ == s@,
{
    let mut out: Vec<char> = Vec::new();
    for c in it: s.chars()
        invariant
            out@ == it.seq().take(it.index() as int),
            it.seq() == s@,
    {
        out.push(c);
    }
    assert(out@ =~= s@);
    out
}

/// Appends one character to a `String` (`String::push`).
#[verifier::external_body]
pub(crate) fn push_char(s: &mut String, c: char)
    ensures
        final(s)@ == old(s)@.push(c),
{
    s.push(c);
}

/// The string made of `cs[from..to]`.
pub fn string_of(cs: &[char], from: usize, to: usize) -> (s: String)
    requires
        from <= to <= cs@.len(),
    ensures
        s@ == cs@.subrange(from as int, to as int),
{
    let mut s = String::new();
    let mut i = from;
    while i < to
        invariant
            from <= i <= to <= cs@.len(),
            s@ == cs@.subrange(from as int, i as int),
        decreases to - i,
    {
        push_char(&mut s, cs[i]);
        i += 1;
        assert(s@ =~= cs@.subrange(from as int, i as int));
    }
    s
}

/// Bounds `(from, to)` of the trimmed part of `cs`.
pub fn trim_bounds(cs: &[char]) -> (r: (usize, usize))
    ensures
        r.0 <= r.1 <= cs@.len(),
        cs@.subrange(r.0 as int, r.1 as int) == trim(cs@),
{
    let n = cs.len();
    let mut i: usize = 0;
    while i < n && is_whitespace(cs[i])
        invariant
            i <= n == cs@.len(),
            forall|k: int| 0 <= k < i ==> is_ws(#[trigger] cs@[k]),
        decreases n - i,
    {
        i += 1;
    }
    proof {
        lemma_trim_start_skip(cs@, i as int);
        let rest = cs@.subrange(i as int, n as int);
        if rest.len() > 0 {
            assert(rest[0] == cs@[i as int]);
        }
        assert(trim_start(cs@) == rest);
    }
    let mut j: usize = n;
    while j > i && is_whitespace(cs[j - 1])
        invariant
            i <= j <= n == cs@.len(),
            forall|k: int| j <= k < n ==> is_ws(#[trigger] cs@[k]),
        decreases j - i,
    {
        j -= 1;
    }
    proof {
        let rest = cs@.subrange(i as int, n as int);
        lemma_trim_end_skip(rest, j - i);
        assert(rest.subrange(0, j - i) =~= cs@.subrange(i as int, j as int));
        let core = cs@.subrange(i as int, j as int);
        if core.len() > 0 {
            assert(core.last() == cs@[j - 1]);
        }
        assert(trim_end(core) == core);
    }
    (i, j)
}

/// `str::trim`, as an owned string.
pub fn trimmed(s: &str) -> (r: String)
    ensures
        r@ == trim(s@),
{
    let cs = chars_of(s);
    let (a, b) = trim_bounds(cs.as_slice());
    string_of(cs.as_slice(), a, b)
}

} // verus!

verus! {

/// The lines read so far and the unfinished line, after reading `s` from the start.
pub open spec fn line_scan(s: Seq<char>) -> (Seq<Seq<char>>, Seq<char>)
    decreases s.len(),
{
    if s.len() == 0 {
        (seq![], seq![])
    } else {
        let (done, cur) = line_scan(s.drop_last());
        if s.last() == '\n' {
            (done.push(strip_cr(cur)), seq![])
        } else {
            (done, cur.push(s.last()))
        }
    }
}

/// A line without the `'\r'` of a `"\r\n"` ending.
pub open spec fn strip_cr(line: Seq<char>) -> Seq<char> {
    if line.len() > 0 && line.last() == '\r' {
        line.drop_last()
    } else {
        line
    }
}

/// The lines of `s` as `str::lines` gives them: split at `'\n'` (with a `'\r'`
/// right before it dropped), the last line ending optional.
pub open spec fn lines(s: Seq<char>) -> Seq<Seq<char>> {
    let (done, cur) = line_scan(s);
    if cur.len() > 0 {
        done.push(cur)
    } else {
        done
    }
}

/// The words read so far and the unfinished word, after reading `s` from the start.
pub open spec fn word_scan(s: Seq<char>) -> (Seq<Seq<char>>, Seq<char>)
    decreases s.len(),
{
    if s.len() == 0 {
        (seq![], seq![])
    } else {
        let (done, cur) = word_scan(s.drop_last());
        if is_ws(s.last()) {
            if cur.len() > 0 {
                (done.push(cur), seq![])
            } else {
                (done, seq![])
            }
        } else {
            (done, cur.push(s.last()))
        }
    }
}

/// The words of `s` as `str::split_whitespace` gives them: the maximal runs of
/// characters that are not white space.
pub open spec fn words(s: Seq<char>) -> Seq<Seq<char>> {
    let (done, cur) = word_scan(s);
    if cur.len() > 0 {
        done.push(cur)
    } else {
        done
    }
}

pub open spec fn views_of(v: Seq<Vec<char>>) -> Seq<Seq<char>> {
    v.map_values(|x: Vec<char>| x@)
}

/// Splits `cs` into lines (see [`lines`]).
pub fn split_lines(cs: &[char]) -> (r: Vec<Vec<char>>)
    ensures
        views_of(r@) == lines(cs@),
{
    let mut done: Vec<Vec<char>> = Vec::new();
    let mut cur: Vec<char> = Vec::new();
    let mut i: usize = 0;
    while i < cs.len()
        invariant
            i <= cs@.len(),
            (views_of(done@), cur@) == line_scan(cs@.take(i as int)),
        decreases cs@.len() - i,
    {
        let c = cs[i];
        proof {
            assert(cs@.take(i + 1).drop_last() =~= cs@.take(i as int));
        }
        if c == '\n' {
            let ghost before = views_of(done@);
            let ghost old_cur = cur@;
            if cur.len() > 0 && cur[cur.len() - 1] == '\r' {
                cur.pop();
            }
            assert(cur@ == strip_cr(old_cur));
            done.push(cur);
            cur = Vec::new();
            assert(views_of(done@) =~= before.push(strip_cr(old_cur)));
        } else {
            cur.push(c);
        }
        i += 1;
    }
    assert(cs@.take(cs@.len() as int) =~= cs@);
    if cur.len() > 0 {
        let ghost before = views_of(done@);
        let ghost last = cur@;
        done.push(cur);
        assert(views_of(done@) =~= before.push(last));
    }
    done
}

/// Splits `cs` into words (see [`words`]).
pub fn split_words(cs: &[char]) -> (r: Vec<Vec<char>>)
    ensures
        views_of(r@) == words(cs@),
{
    let mut done: Vec<Vec<char>> = Vec::new();
    let mut cur: Vec<char> = Vec::new();
    let mut i: usize = 0;
    while i < cs.len()
        invariant
            i <= cs@.len(),
            (views_of(done@), cur@) == word_scan(cs@.take(i as int)),
        decreases cs@.len() - i,
    {
        let c = cs[i];
        proof {
            assert(cs@.take(i + 1).drop_last() =~= cs@.take(i as int));
        }
        if is_whitespace(c) {
            if cur.len() > 0 {
                let ghost before = views_of(done@);
                let ghost old_cur = cur@;
                done.push(cur);
                cur = Vec::new();
                assert(views_of(done@) =~= before.push(old_cur));
            } else {
                cur = Vec::new();
            }
        } else {
            cur.push(c);
        }
        i += 1;
    }
    assert(cs@.take(cs@.len() as int) =~= cs@);
    if cur.len() > 0 {
        let ghost before = views_of(done@);
        let ghost last = cur@;
        done.push(cur);
        assert(views_of(done@) =~= before.push(last));
    }
    done
}

/// Whether two character sequences are equal.
pub fn same_chars(a: &[char], b: &[char]) -> (r: bool)
    ensures
        r == (a@ == b@),
{
    if a.len() != b.len() {
        return false;
    }
    let mut i: usize = 0;
    while i < a.len()
        invariant
            a@.len() == b@.len(),
            i <= a@.len(),
            forall|j: int| 0 <= j < i ==> a@[j] == b@[j],
        decreases a@.len() - i,
    {
        if a[i] != b[i] {
            return false;
        }
        i += 1;
    }
    assert(a@ =~= b@);
    true
}

/// The value of `c` as a digit in base `radix` (2 to 36), as `char::to_digit` gives it.
pub open spec fn digit_value(c: char, radix: nat) -> Option<nat> {
    let v: int = if '0' <= c && c <= '9' {
        c as int - '0' as int
    } else if 'a' <= c && c <= 'z' {
        c as int - 'a' as int + 10
    } else if 'A' <= c && c <= 'Z' {
        c as int - 'A' as int + 10
    } else {
        36
    };
    if v < radix {
        Some(v as nat)
    } else {
        None
    }
}

/// Why a string is not a number of an unsigned type, as `core::num::IntErrorKind` says.
#[derive(Clone, Copy, Debug, PartialEq, Eq, Structural)]
pub enum NumberError {
    /// Nothing to read.
    Empty,
    /// A character that is no digit (a sign alone counts as one).
    InvalidDigit,
    /// The number is larger than the type holds.
    TooLarge,
}

impl NumberError {
    /// The error as `ParseIntError` writes it.
    pub fn message(&self) -> (s: String)
        ensures
            s@ == number_error_text(*self),
    {
        match self {
            NumberError::Empty => "cannot parse integer from empty string".to_string(),
            NumberError::InvalidDigit => "invalid digit found in string".to_string(),
            NumberError::TooLarge => "number too large to fit in target type".to_string(),
        }
    }
}

pub open spec fn number_error_text(e: NumberError) -> Seq<char> {
    match e {
        NumberError::Empty => "cannot parse integer from empty string"@,
        NumberError::InvalidDigit => "invalid digit found in string"@,
        NumberError::TooLarge => "number too large to fit in target type"@,
    }
}

/// Reading the digits `s` in base `radix` from the left, stopping at the first
/// character that is no digit or at the first prefix whose value exceeds `max`.
pub open spec fn digits_fold(s: Seq<char>, radix: nat, max: nat) -> Result<nat, NumberError>
    decreases s.len(),
{
    if s.len() == 0 {
        Ok(0)
    } else {
        match digits_fold(s.drop_last(), radix, max) {
            Err(e) => Err(e),
            Ok(v) => match digit_value(s.last(), radix) {
                None => Err(NumberError::InvalidDigit),
                Some(d) => if v * radix + d > max {
                    Err(NumberError::TooLarge)
                } else {
                    Ok(v * radix + d)
                },
            },
        }
    }
}

/// What the unsigned `from_str_radix` of a type whose largest value is `max`
/// gives for `s`: an optional `'+'`, then at least one digit.
pub open spec fn parse_number(s: Seq<char>, radix: nat, max: nat) -> Result<nat, NumberError> {
    if s.len() == 0 {
        Err(NumberError::Empty)
    } else {
        let body = if s[0] == '+' {
            s.drop_first()
        } else {
            s
        };
        if body.len() == 0 {
            Err(NumberError::InvalidDigit)
        } else {
            digits_fold(body, radix, max)
        }
    }
}

fn to_digit(c: char, radix: u32) -> (r: Option<u32>)
    requires
        2 <= radix <= 36,
    ensures
        match digit_value(c, radix as nat) {
            Some(d) => r == Some(d as u32),
            None => r is None,
        },
{
    let v: u32 = if '0' <= c && c <= '9' {
        (c as u32) - ('0' as u32)
    } else if 'a' <= c && c <= 'z' {
        (c as u32) - ('a' as u32) + 10
    } else if 'A' <= c && c <= 'Z' {
        (c as u32) - ('A' as u32) + 10
    } else {
        36
    };
    if v < radix {
        Some(v)
    } else {
        None
    }
}

/// Reads `cs[from..to]` as an unsigned number in base `radix` no larger than `max`
/// (see [`parse_number`]).
pub fn parse_number_in(cs: &[char], from: usize, to: usize, radix: u32, max: u64) -> (r: Result<
    u64,
    NumberError,
>)
    requires
        from <= to <= cs@.len(),
        2 <= radix <= 36,
    ensures
        match parse_number(cs@.subrange(from as int, to as int), radix as nat, max as nat) {
            Ok(v) => r == Ok::<u64, NumberError>(v as u64),
            Err(e) => r == Err::<u64, NumberError>(e),
        },
{
    let ghost s = cs@.subrange(from as int, to as int);
    if from == to {
        return Err(NumberError::Empty);
    }
    let mut start = from;
    if cs[start] == '+' {
        start += 1;
    }
    let ghost body = cs@.subrange(start as int, to as int);
    assert(body =~= (if s[0] == '+' { s.drop_first() } else { s }));
    if start == to {
        return Err(NumberError::InvalidDigit);
    }
    let mut acc: u64 = 0;
    let mut err: Option<NumberError> = None;
    let mut i = start;
    assert(cs@.subrange(start as int, start as int) =~= Seq::<char>::empty());
    while i < to
        invariant
            start <= i <= to <= cs@.len(),
            2 <= radix <= 36,
            body == cs@.subrange(start as int, to as int),
            digits_fold(cs@.subrange(start as int, i as int), radix as nat, max as nat) == match err {
                None => Ok::<nat, NumberError>(acc as nat),
                Some(e) => Err::<nat, NumberError>(e),
            },
            acc <= max,
        decreases to - i,
    {
        let ghost prefix = cs@.subrange(start as int, i as int);
        let ghost next = cs@.subrange(start as int, i + 1);
        assert(next.drop_last() =~= prefix);
        assert(next.last() == cs@[i as int]);
        if err.is_none() {
            match to_digit(cs[i], radix) {
                Some(d) => {
                    assert((acc as u128) * (radix as u128) <= 36 * 0xffff_ffff_ffff_ffffu128) by (nonlinear_arith)
                        requires
                            acc <= 0xffff_ffff_ffff_ffffu64,
                            radix <= 36,
                    ;
                    let wide: u128 = (acc as u128) * (radix as u128) + (d as u128);
                    assert(wide == acc * radix + d) by (nonlinear_arith)
                        requires
                            wide == (acc as u128) * (radix as u128) + (d as u128),
                            acc <= u64::MAX,
                            radix <= 36,
                            d <= 36,
                    ;
                    if wide > max as u128 {
                        err = Some(NumberError::TooLarge);
                    } else {
                        acc = wide as u64;
                    }
                },
                None => {
                    err = Some(NumberError::InvalidDigit);
                },
            }
        }
        i += 1;
    }
    match err {
        None => Ok(acc),
        Some(e) => Err(e),
    }
}

} // verus!

verus! {

/// The decimal digits of `n`, as `Display` writes an unsigned integer.
pub open spec fn decimal(n: nat) -> Seq<char>
    decreases n,
{
    if n < 10 {
        seq![((48 + n) as u8) as char]
    } else {
        decimal(n / 10).push(((48 + n % 10) as u8) as char)
    }
}

/// `n` written in decimal.
pub fn decimal_string(n: usize) -> (s: String)
    ensures
        s@ == decimal(n as nat),
    decreases n,
{
    if n < 10 {
        let mut s = String::new();
        push_char(&mut s, ((48 + n) as u8) as char);
        assert(s@ =~= decimal(n as nat));
        s
    } else {
        let mut s = decimal_string(n / 10);
        push_char(&mut s, ((48 + n % 10) as u8) as char);
        s
    }
}

} // verus!
