use vstd::prelude::*;
use crate::document::chars_of;
use crate::lexer::is_digit;
use crate::text::{decimal, digit_char, digits_of, string_push};
use crate::value::{ScalarValue, ScalarView};

verus! {

/// The text of a scalar literal of a document, as the lexer hands it over: the
/// characters between the quotes of a string, or the characters of an integer.
#[derive(Clone, Debug, PartialEq, Eq)]
pub enum ScalarToken {
    String(String),
    Int(String),
}

pub enum ScalarTokenView {
    String(Seq<char>),
    Int(Seq<char>),
}

impl View for ScalarToken {
    type V = ScalarTokenView;

    open spec fn view(&self) -> ScalarTokenView {
        match self {
            ScalarToken::String(s) => ScalarTokenView::String(s@),
            ScalarToken::Int(s) => ScalarTokenView::Int(s@),
        }
    }
}

/// Why a scalar literal could not be read.
#[derive(Clone, Debug, PartialEq, Eq)]
pub enum ParseError {
    /// The literal is not of a kind the scalar reads, or does not fit it.
    UnexpectedToken(ScalarToken),
    /// A backslash in a string is followed by what no escape allows (the text
    /// of the escape as far as it was read).
    UnknownEscapeSequence(String),
    /// A string ends with a lone backslash.
    UnterminatedString,
}

pub enum ParseErrorView {
    UnexpectedToken(ScalarTokenView),
    UnknownEscapeSequence(Seq<char>),
    UnterminatedString,
}

impl View for ParseError {
    type V = ParseErrorView;

    open spec fn view(&self) -> ParseErrorView {
        match self {
            ParseError::UnexpectedToken(t) => ParseErrorView::UnexpectedToken(t@),
            ParseError::UnknownEscapeSequence(s) => ParseErrorView::UnknownEscapeSequence(s@),
            ParseError::UnterminatedString => ParseErrorView::UnterminatedString,
        }
    }
}

/// The value of a sequence of decimal digits.
pub open spec fn digits_value(t: Seq<char>) -> int
    decreases t.len(),
{
    if t.len() == 0 {
        0
    } else {
        digits_value(t.drop_last()) * 10 + (t.last() as int - '0' as int)
    }
}

pub open spec fn all_digits(t: Seq<char>) -> bool {
    forall|i: int| 0 <= i < t.len() ==> is_digit(#[trigger] t[i])
}

/// What `str::parse::<i32>` gives for a text: an optional `+` or `-`, then at
/// least one decimal digit, and a value within the range of `i32`.
pub open spec fn parse_i32(t: Seq<char>) -> Option<i32> {
    let negative = t.len() > 0 && t[0] == '-';
    let body = if t.len() > 0 && (t[0] == '-' || t[0] == '+') {
        t.drop_first()
    } else {
        t
    };
    let v = if negative {
        -digits_value(body)
    } else {
        digits_value(body)
    };
    if body.len() == 0 || !all_digits(body) || v < i32::MIN || v > i32::MAX {
        None
    } else {
        Some(v as i32)
    }
}

proof fn lemma_capped_step(v: int, d: int, cap: int)
    requires
        0 <= v,
        0 <= d <= 9,
        cap > 0,
    ensures
        (if (if v < cap { v } else { cap }) * 10 + d < cap {
            (if v < cap { v } else { cap }) * 10 + d
        } else {
            cap
        }) == (if v * 10 + d < cap {
            v * 10 + d
        } else {
            cap
        }),
{
    if v >= cap {
        assert(v * 10 + d >= cap) by (nonlinear_arith)
            requires
                v >= cap,
                cap > 0,
                d >= 0,
        ;
        assert(cap * 10 + d >= cap) by (nonlinear_arith)
            requires
                cap > 0,
                d >= 0,
        ;
    }
}

proof fn lemma_digits_value_nonneg(t: Seq<char>)
    requires
        all_digits(t),
    ensures
        digits_value(t) >= 0,
    decreases t.len(),
{
    if t.len() > 0 {
        assert(is_digit(t[t.len() - 1]));
        assert(all_digits(t.drop_last())) by {
            assert forall|i: int| 0 <= i < t.drop_last().len() implies is_digit(#[trigger] t.drop_last()[i]) by {
                assert(t.drop_last()[i] == t[i]);
            }
        }
        lemma_digits_value_nonneg(t.drop_last());
    }
}

/// Reads an integer literal as an `i32`, as `str::parse::<i32>` does.
pub fn parse_i32_text(text: &str) -> (r: Option<i32>)
    ensures
        r == parse_i32(text@),
{
    let t = chars_of(text);
    let n = t.len();
    let negative = n > 0 && t[0] == '-';
    let start: usize = if n > 0 && (t[0] == '-' || t[0] == '+') {
        1
    } else {
        0
    };
    let ghost body = t@.subrange(start as int, n as int);
    assert(body =~= (if n > 0 && (t@[0] == '-' || t@[0] == '+') {
        t@.drop_first()
    } else {
        t@
    }));
    if start == n {
        assert(body.len() == 0);
        assert(parse_i32(t@) is None);
        return None;
    }
    // The value of the digits read so far, capped at one past the largest magnitude.
    let cap: i64 = 2147483649;
    let mut acc: i64 = 0;
    let mut i = start;
    while i < n
        invariant
            start <= i <= n == t@.len(),
            t@ == text@,
            body == t@.subrange(start as int, n as int),
            body == (if n > 0 && (t@[0] == '-' || t@[0] == '+') {
                t@.drop_first()
            } else {
                t@
            }),
            negative == (n > 0 && t@[0] == '-'),
            cap == 2147483649,
            all_digits(t@.subrange(start as int, i as int)),
            0 <= digits_value(t@.subrange(start as int, i as int)),
            acc == (if digits_value(t@.subrange(start as int, i as int)) < cap {
                digits_value(t@.subrange(start as int, i as int))
            } else {
                cap as int
            }),
        decreases n - i,
    {
        let c = t[i];
        if !('0' <= c && c <= '9') {
            assert(body[i - start] == c);
            assert(!is_digit(body[i - start]));
            assert(!all_digits(body));
            return None;
        }
        let d: i64 = (c as u32 - '0' as u32) as i64;
        let ghost prefix = t@.subrange(start as int, i as int);
        let ghost next = t@.subrange(start as int, i + 1);
        assert(next.drop_last() =~= prefix);
        assert(all_digits(next)) by {
            assert forall|j: int| 0 <= j < next.len() implies is_digit(#[trigger] next[j]) by {
                if j < prefix.len() {
                    assert(next[j] == prefix[j]);
                }
            }
        }
        proof {
            lemma_capped_step(digits_value(prefix), d as int, cap as int);
        }
        let step = acc * 10 + d;
        acc = if step < cap {
            step
        } else {
            cap
        };
        i += 1;
    }
    assert(t@.subrange(start as int, n as int) =~= body);
    proof {
        lemma_digits_value_nonneg(body);
    }
    if negative {
        if acc > 2147483648 {
            None
        } else {
            Some((-acc) as i32)
        }
    } else {
        if acc > 2147483647 {
            None
        } else {
            Some(acc as i32)
        }
    }
}

/// `char::from_u32` of std: the character of a code point, if it is a Unicode
/// scalar value (below 0xD800, or above 0xDFFF up to 0x10FFFF).
#[verifier::external_body]
fn char_from_u32(v: u32) -> (c: Option<char>)
    ensures
        c is Some <==> is_scalar_value(v as int),
        c matches Some(x) ==> x == v as char,
{
    char::from_u32(v)
}

pub open spec fn is_scalar_value(v: int) -> bool {
    (0 <= v < 0xD800) || (0xDFFF < v <= 0x10FFFF)
}

/// The value of a hexadecimal digit, or -1 for another character.
pub open spec fn hex_digit_value(c: char) -> int {
    if '0' <= c && c <= '9' {
        c as int - '0' as int
    } else if 'a' <= c && c <= 'f' {
        c as int - 'a' as int + 10
    } else if 'A' <= c && c <= 'F' {
        c as int - 'A' as int + 10
    } else {
        -1
    }
}

pub open spec fn hex_digits_value(t: Seq<char>) -> int
    decreases t.len(),
{
    if t.len() == 0 {
        0
    } else {
        hex_digits_value(t.drop_last()) * 16 + hex_digit_value(t.last())
    }
}

/// The digits of a hexadecimal text, without the `+` it may start with.
pub open spec fn hex_body(t: Seq<char>) -> Seq<char> {
    if t.len() > 0 && t[0] == '+' {
        t.drop_first()
    } else {
        t
    }
}

pub open spec fn all_hex(t: Seq<char>) -> bool {
    forall|i: int| 0 <= i < t.len() ==> hex_digit_value(#[trigger] t[i]) >= 0
}

/// What `u32::from_str_radix(t, 16)` gives for a text of at most four
/// characters: an optional `+`, then at least one hexadecimal digit.
pub open spec fn hex_value(t: Seq<char>) -> Option<int> {
    if hex_body(t).len() == 0 || !all_hex(hex_body(t)) {
        None
    } else {
        Some(hex_digits_value(hex_body(t)))
    }
}

/// The character an escape `\c` stands for, for the escapes other than `\u`.
pub open spec fn escaped_char(c: char) -> Option<char> {
    if c == '"' {
        Some('"')
    } else if c == '/' {
        Some('/')
    } else if c == 'n' {
        Some('\n')
    } else if c == 'r' {
        Some('\r')
    } else if c == 't' {
        Some('\t')
    } else if c == '\\' {
        Some('\\')
    } else if c == 'f' {
        Some('\u{000c}')
    } else if c == 'b' {
        Some('\u{0008}')
    } else {
        None
    }
}

pub open spec fn prepend(p: Seq<char>, r: Result<Seq<char>, ParseErrorView>) -> Result<
    Seq<char>,
    ParseErrorView,
> {
    match r {
        Ok(s) => Ok(p + s),
        Err(e) => Err(e),
    }
}

/// The text a string literal's contents stand for, with its escapes replaced;
/// or the error at its first bad escape.
pub open spec fn unescape(t: Seq<char>) -> Result<Seq<char>, ParseErrorView>
    decreases t.len(),
{
    if t.len() == 0 {
        Ok(Seq::empty())
    } else if t[0] != '\\' {
        prepend(seq![t[0]], unescape(t.drop_first()))
    } else if t.len() == 1 {
        Err(ParseErrorView::UnterminatedString)
    } else if t[1] == 'u' {
        if t.len() < 6 {
            Err(ParseErrorView::UnknownEscapeSequence(seq!['\\', 'u'] + t.skip(2)))
        } else {
            let digits = t.subrange(2, 6);
            match hex_value(digits) {
                Some(v) => if is_scalar_value(v) {
                    prepend(seq![v as char], unescape(t.skip(6)))
                } else {
                    Err(ParseErrorView::UnknownEscapeSequence(seq!['\\', 'u'] + digits))
                },
                None => Err(ParseErrorView::UnknownEscapeSequence(seq!['\\', 'u'] + digits)),
            }
        }
    } else {
        match escaped_char(t[1]) {
            Some(e) => prepend(seq![e], unescape(t.skip(2))),
            None => Err(ParseErrorView::UnknownEscapeSequence(seq!['\\', t[1]])),
        }
    }
}

fn hex_digit(c: char) -> (v: i64)
    ensures
        v == hex_digit_value(c),
{
    if '0' <= c && c <= '9' {
        (c as u32 - '0' as u32) as i64
    } else if 'a' <= c && c <= 'f' {
        (c as u32 - 'a' as u32 + 10) as i64
    } else if 'A' <= c && c <= 'F' {
        (c as u32 - 'A' as u32 + 10) as i64
    } else {
        -1
    }
}

/// Reads four characters as `u32::from_str_radix(.., 16)` does.
fn hex4(t: &Vec<char>, at: usize) -> (r: Option<u32>)
    requires
        at + 4 <= t@.len(),
    ensures
        r matches Some(v) ==> hex_value(t@.subrange(at as int, at + 4)) == Some(v as int),
        r is None ==> hex_value(t@.subrange(at as int, at + 4)) is None,
{
    proof {
        vstd::std_specs::vec::axiom_spec_len(t);
    }
    let ghost digits = t@.subrange(at as int, at + 4);
    let start: usize = if t[at] == '+' {
        at + 1
    } else {
        at
    };
    let ghost body = t@.subrange(start as int, at + 4);
    assert(body =~= hex_body(digits));
    let mut acc: i64 = 0;
    let mut i = start;
    let end = at + 4;
    while i < end
        invariant
            end == at + 4,
            at <= start <= i <= at + 4 <= t@.len(),
            start <= at + 1,
            body == t@.subrange(start as int, at + 4),
            digits == t@.subrange(at as int, at + 4),
            body == hex_body(digits),
            forall|j: int| start <= j < i ==> hex_digit_value(#[trigger] t@[j]) >= 0,
            acc == hex_digits_value(t@.subrange(start as int, i as int)),
            0 <= acc < pow16(i - start),
            i - start <= 4,
        decreases at + 4 - i,
    {
        let d = hex_digit(t[i]);
        if d < 0 {
            assert(body[i - start] == t@[i as int]);
            assert(hex_digit_value(body[i - start]) < 0);
            assert(hex_value(digits) is None);
            return None;
        }
        assert(t@.subrange(start as int, i + 1).drop_last() =~= t@.subrange(start as int, i as int));
        proof {
            lemma_pow16_step((i - start) as nat, acc as int, d as int);
            reveal_with_fuel(pow16, 5);
            assert(pow16((i - start + 1) as int) <= 65536);
        }
        acc = acc * 16 + d;
        i += 1;
    }
    if start == at + 4 {
        assert(body.len() == 0);
        return None;
    }
    proof {
        reveal_with_fuel(pow16, 5);
    }
    assert(t@.subrange(start as int, i as int) =~= body);
    assert(all_hex(body)) by {
        assert forall|j: int| 0 <= j < body.len() implies hex_digit_value(#[trigger] body[j]) >= 0 by {
            assert(body[j] == t@[start + j]);
        }
    }
    Some(acc as u32)
}

pub open spec fn pow16(n: int) -> int
    decreases n,
{
    if n <= 0 {
        1
    } else {
        16 * pow16(n - 1)
    }
}

proof fn lemma_pow16_step(n: nat, acc: int, d: int)
    requires
        0 <= acc < pow16(n as int),
        0 <= d < 16,
    ensures
        0 <= acc * 16 + d < pow16((n + 1) as int),
{
    assert(pow16((n + 1) as int) == 16 * pow16(n as int));
    assert(acc * 16 + d < 16 * pow16(n as int)) by (nonlinear_arith)
        requires
            acc < pow16(n as int),
            0 <= d < 16,
    ;
}

fn escape_text(prefix: &str, t: &Vec<char>, from: usize, to: usize) -> (s: String)
    requires
        from <= to <= t@.len(),
    ensures
        s@ == prefix@ + t@.subrange(from as int, to as int),
{
    let mut s = String::from_str(prefix);
    let mut i = from;
    while i < to
        invariant
            from <= i <= to <= t@.len(),
            s@ == prefix@ + t@.subrange(from as int, i as int),
        decreases to - i,
    {
        string_push(&mut s, t[i]);
        assert(s@ =~= prefix@ + t@.subrange(from as int, i + 1));
        i += 1;
    }
    s
}

/// Replaces the escapes of a string literal's contents, as
/// `<String as ParseScalarValue>::from_str` does.
pub fn unescape_string(text: &str) -> (r: Result<String, ParseError>)
    ensures
        match r {
            Ok(s) => unescape(text@) == Ok::<Seq<char>, ParseErrorView>(s@),
            Err(e) => unescape(text@) == Err::<Seq<char>, ParseErrorView>(e@),
        },
{
    let t = chars_of(text);
    let n = t.len();
    let mut out = String::new();
    let mut i: usize = 0;
    proof {
        reveal_strlit("\\");
        reveal_strlit("\\u");
    }
    assert(t@.skip(0) =~= t@);
    assert(prepend(Seq::empty(), unescape(t@)) =~= unescape(t@)) by {
        assert(Seq::<char>::empty() + Seq::<char>::empty() =~= Seq::<char>::empty());
        match unescape(t@) {
            Ok(x) => {
                assert(Seq::<char>::empty() + x =~= x);
            },
            Err(_) => {},
        }
    }
    while i < n
        invariant
            i <= n == t@.len(),
            t@ == text@,
            prepend(out@, unescape(t@.skip(i as int))) == unescape(t@),
        decreases n - i,
    {
        let ghost rest = t@.skip(i as int);
        let ghost before = out@;
        let c = t[i];
        if c != '\\' {
            string_push(&mut out, c);
            assert(rest.drop_first() =~= t@.skip(i + 1));
            assert(prepend(out@, unescape(t@.skip(i + 1))) =~= prepend(before, unescape(rest))) by {
                match unescape(t@.skip(i + 1)) {
                    Ok(x) => {
                        assert(out@ + x =~= before + (seq![c] + x));
                    },
                    Err(_) => {},
                }
            }
            i += 1;
        } else if i + 1 == n {
            return Err(ParseError::UnterminatedString);
        } else {
            let e = t[i + 1];
            if e == 'u' {
                if n - i < 6 {
                    proof {
                        reveal_strlit("\\u");
                    }
                    let s = escape_text("\\u", &t, i + 2, n);
                    assert(rest.skip(2) =~= t@.subrange(i + 2, n as int));
                    assert("\\u"@ =~= seq!['\\', 'u']);
                    assert(rest.len() < 6 && rest[0] == '\\' && rest[1] == 'u');
                    assert(unescape(rest) == Err::<Seq<char>, ParseErrorView>(ParseErrorView::UnknownEscapeSequence(s@)));
                    return Err(ParseError::UnknownEscapeSequence(s));
                }
                assert(rest.subrange(2, 6) =~= t@.subrange(i + 2, i + 6));
                match hex4(&t, i + 2) {
                    Some(v) => match char_from_u32(v) {
                        Some(ch) => {
                            string_push(&mut out, ch);
                            assert(rest.skip(6) =~= t@.skip(i + 6));
                            assert(prepend(out@, unescape(t@.skip(i + 6))) =~= prepend(before, unescape(rest))) by {
                                match unescape(t@.skip(i + 6)) {
                                    Ok(x) => {
                                        assert(out@ + x =~= before + (seq![ch] + x));
                                    },
                                    Err(_) => {},
                                }
                            }
                            i += 6;
                        },
                        None => {
                            proof {
                                reveal_strlit("\\u");
                            }
                            let s = escape_text("\\u", &t, i + 2, i + 6);
                            assert("\\u"@ =~= seq!['\\', 'u']);
                            assert(!is_scalar_value(v as int));
                            assert(unescape(rest) == Err::<Seq<char>, ParseErrorView>(ParseErrorView::UnknownEscapeSequence(s@)));
                            return Err(ParseError::UnknownEscapeSequence(s));
                        },
                    },
                    None => {
                        proof {
                            reveal_strlit("\\u");
                        }
                        let s = escape_text("\\u", &t, i + 2, i + 6);
                        assert("\\u"@ =~= seq!['\\', 'u']);
                        assert(unescape(rest) == Err::<Seq<char>, ParseErrorView>(ParseErrorView::UnknownEscapeSequence(s@)));
                        return Err(ParseError::UnknownEscapeSequence(s));
                    },
                }
            } else {
                let esc = if e == '"' {
                    Some('"')
                } else if e == '/' {
                    Some('/')
                } else if e == 'n' {
                    Some('\n')
                } else if e == 'r' {
                    Some('\r')
                } else if e == 't' {
                    Some('\t')
                } else if e == '\\' {
                    Some('\\')
                } else if e == 'f' {
                    Some('\u{000c}')
                } else if e == 'b' {
                    Some('\u{0008}')
                } else {
                    None
                };
                assert(esc == escaped_char(e));
                match esc {
                    Some(ch) => {
                        string_push(&mut out, ch);
                        assert(rest.skip(2) =~= t@.skip(i + 2));
                        assert(prepend(out@, unescape(t@.skip(i + 2))) =~= prepend(before, unescape(rest))) by {
                            match unescape(t@.skip(i + 2)) {
                                Ok(x) => {
                                    assert(out@ + x =~= before + (seq![ch] + x));
                                },
                                Err(_) => {},
                            }
                        }
                        i += 2;
                    },
                    None => {
                        proof {
                            reveal_strlit("\\");
                        }
                        let s = escape_text("\\", &t, i + 1, i + 2);
                        assert("\\"@ =~= seq!['\\']);
                        assert(s@ =~= seq!['\\', e]);
                        assert(unescape(rest) == Err::<Seq<char>, ParseErrorView>(ParseErrorView::UnknownEscapeSequence(s@)));
                        return Err(ParseError::UnknownEscapeSequence(s));
                    },
                }
            }
        }
    }
    assert(t@.skip(i as int) =~= Seq::<char>::empty());
    assert(out@ + Seq::<char>::empty() =~= out@);
    Ok(out)
}

proof fn lemma_digit_char(d: int)
    requires
        0 <= d < 10,
    ensures
        is_digit(digit_char(d)),
        digit_char(d) as int - '0' as int == d,
{
    let digits = seq!['0', '1', '2', '3', '4', '5', '6', '7', '8', '9'];
    assert(digit_char(d) == digits[d]);
    if d == 0 {
        assert(digits[0] == '0');
    } else if d == 1 {
        assert(digits[1] == '1');
    } else if d == 2 {
        assert(digits[2] == '2');
    } else if d == 3 {
        assert(digits[3] == '3');
    } else if d == 4 {
        assert(digits[4] == '4');
    } else if d == 5 {
        assert(digits[5] == '5');
    } else if d == 6 {
        assert(digits[6] == '6');
    } else if d == 7 {
        assert(digits[7] == '7');
    } else if d == 8 {
        assert(digits[8] == '8');
    } else {
        assert(digits[9] == '9');
    }
}

proof fn lemma_digits_read_back(m: nat)
    ensures
        digits_of(m).len() > 0,
        all_digits(digits_of(m)),
        digits_value(digits_of(m)) == m,
    decreases m,
{
    if m < 10 {
        lemma_digit_char(m as int);
        let t = digits_of(m);
        assert(t.drop_last() =~= Seq::<char>::empty());
        assert(t.last() == digit_char(m as int));
        assert(digits_value(t) == digits_value(t.drop_last()) * 10 + (t.last() as int - '0' as int));
    } else {
        lemma_digits_read_back(m / 10);
        lemma_digit_char((m % 10) as int);
        let t = digits_of(m);
        assert(t.drop_last() =~= digits_of(m / 10));
        assert(t.last() == digit_char((m % 10) as int));
        assert(digits_value(t) == digits_value(t.drop_last()) * 10 + (t.last() as int - '0' as int));
        assert((m / 10) * 10 + m % 10 == m);
        assert forall|i: int| 0 <= i < t.len() implies is_digit(#[trigger] t[i]) by {
            if i < t.len() - 1 {
                assert(t[i] == digits_of(m / 10)[i]);
            }
        }
    }
}

/// An integer written in decimal, as an input is shown in an error, reads
/// back as the same integer when it comes as a literal.
pub proof fn lemma_decimal_reads_back(n: i32)
    ensures
        parse_i32(decimal(n as int)) == Some(n),
{
    if n < 0 {
        let m = (-(n as int)) as nat;
        lemma_digits_read_back(m);
        let t = decimal(n as int);
        assert(t.drop_first() =~= digits_of(m));
    } else {
        lemma_digits_read_back(n as nat);
        let t = digits_of(n as nat);
        assert(is_digit(t[0]));
    }
}

/// A string literal without a backslash stands for its own text.
pub proof fn lemma_plain_text_unescapes_to_itself(t: Seq<char>)
    requires
        forall|i: int| 0 <= i < t.len() ==> t[i] != '\\',
    ensures
        unescape(t) == Ok::<Seq<char>, ParseErrorView>(t),
    decreases t.len(),
{
    if t.len() > 0 {
        let rest = t.drop_first();
        assert forall|i: int| 0 <= i < rest.len() implies rest[i] != '\\' by {
            assert(rest[i] == t[i + 1]);
        }
        lemma_plain_text_unescapes_to_itself(rest);
        assert(t[0] != '\\');
        assert(seq![t[0]] + rest =~= t);
    } else {
        assert(t =~= Seq::<char>::empty());
    }
}

/// The hexadecimal digit for `d` (below 16), in upper or lower case.
pub open spec fn hex_char(d: int, upper: bool) -> char {
    if upper {
        seq!['0', '1', '2', '3', '4', '5', '6', '7', '8', '9', 'A', 'B', 'C', 'D', 'E', 'F'][d]
    } else {
        seq!['0', '1', '2', '3', '4', '5', '6', '7', '8', '9', 'a', 'b', 'c', 'd', 'e', 'f'][d]
    }
}

/// The four hexadecimal digits `d`, each in upper or lower case as `upper`
/// says for it.
pub open spec fn hex_text(d: Seq<int>, upper: Seq<bool>) -> Seq<char> {
    Seq::new(4, |i: int| hex_char(d[i], upper[i]))
}

proof fn lemma_hex_char_value(d: int, upper: bool)
    requires
        0 <= d < 16,
    ensures
        hex_digit_value(hex_char(d, upper)) == d,
        hex_char(d, upper) != '+',
{
}

/// A `\u` escape stands for the character whose code its four hexadecimal
/// digits give, read in either case (`\u00E9` and `\u00e9` are both `é`),
/// and reading goes on after it; a code that is no Unicode scalar value
/// (a surrogate) is an unknown escape.
pub proof fn lemma_unicode_escapes(d: Seq<int>, upper: Seq<bool>, rest: Seq<char>)
    requires
        d.len() == 4,
        upper.len() == 4,
        forall|i: int| 0 <= i < 4 ==> 0 <= #[trigger] d[i] < 16,
    ensures
        ({
            let v = ((d[0] * 16 + d[1]) * 16 + d[2]) * 16 + d[3];
            let e = seq!['\\', 'u'] + hex_text(d, upper);
            unescape(e + rest) == if is_scalar_value(v) {
                prepend(seq![v as char], unescape(rest))
            } else {
                Err::<Seq<char>, ParseErrorView>(ParseErrorView::UnknownEscapeSequence(e))
            }
        }),
{
    let h = hex_text(d, upper);
    let t = seq!['\\', 'u'] + h + rest;
    lemma_hex_char_value(d[0], upper[0]);
    lemma_hex_char_value(d[1], upper[1]);
    lemma_hex_char_value(d[2], upper[2]);
    lemma_hex_char_value(d[3], upper[3]);
    assert(t.subrange(2, 6) =~= h);
    assert(t.skip(6) =~= rest);
    assert(t[0] == '\\' && t[1] == 'u');
    assert(hex_body(h) == h);
    assert(all_hex(h));
    assert(h.drop_last().drop_last().drop_last().drop_last() =~= Seq::<char>::empty());
    assert(hex_digits_value(h) == ((d[0] * 16 + d[1]) * 16 + d[2]) * 16 + d[3]) by {
        reveal_with_fuel(hex_digits_value, 5);
    }
    assert(seq!['\\', 'u'] + h =~= t.subrange(0, 6));
    assert(seq!['\\', 'u'] + t.subrange(2, 6) =~= seq!['\\', 'u'] + h);
}

/// The escapes other than `\u` stand for one character each (`\"` a quote,
/// `\/` a slash, `\n`, `\r`, `\t` a line feed, carriage return and tab,
/// `\\` a backslash, `\f` a form feed, `\b` a backspace), and reading goes
/// on after them; a backslash before any other character but `u` is an
/// unknown escape, and a backslash at the end leaves the string unterminated.
pub proof fn lemma_simple_escapes(c: char, rest: Seq<char>)
    ensures
        unescape(seq!['\\', '"'] + rest) == prepend(seq!['"'], unescape(rest)),
        unescape(seq!['\\', '/'] + rest) == prepend(seq!['/'], unescape(rest)),
        unescape(seq!['\\', 'n'] + rest) == prepend(seq!['\n'], unescape(rest)),
        unescape(seq!['\\', 'r'] + rest) == prepend(seq!['\r'], unescape(rest)),
        unescape(seq!['\\', 't'] + rest) == prepend(seq!['\t'], unescape(rest)),
        unescape(seq!['\\', '\\'] + rest) == prepend(seq!['\\'], unescape(rest)),
        unescape(seq!['\\', 'f'] + rest) == prepend(seq!['\u{000c}'], unescape(rest)),
        unescape(seq!['\\', 'b'] + rest) == prepend(seq!['\u{0008}'], unescape(rest)),
        c != '"' && c != '/' && c != 'n' && c != 'r' && c != 't' && c != '\\' && c != 'f' && c
            != 'b' && c != 'u' ==> unescape(seq!['\\', c] + rest) == Err::<Seq<char>, ParseErrorView>(
            ParseErrorView::UnknownEscapeSequence(seq!['\\', c]),
        ),
        unescape(seq!['\\']) == Err::<Seq<char>, ParseErrorView>(ParseErrorView::UnterminatedString),
{
    assert((seq!['\\', '"'] + rest).skip(2) =~= rest);
    assert((seq!['\\', '/'] + rest).skip(2) =~= rest);
    assert((seq!['\\', 'n'] + rest).skip(2) =~= rest);
    assert((seq!['\\', 'r'] + rest).skip(2) =~= rest);
    assert((seq!['\\', 't'] + rest).skip(2) =~= rest);
    assert((seq!['\\', '\\'] + rest).skip(2) =~= rest);
    assert((seq!['\\', 'f'] + rest).skip(2) =~= rest);
    assert((seq!['\\', 'b'] + rest).skip(2) =~= rest);
    assert((seq!['\\', c] + rest).skip(2) =~= rest);
}

} // verus!
