use vstd::prelude::*;
use crate::position::{advance_position_to, col_at, lemma_line_col_bounded, line_at};

verus! {

/// What kind of text a token holds.
#[derive(Clone, Copy, Debug, PartialEq, Eq, Structural)]
pub enum TokenKind {
    /// A name: a letter or `_`, then letters, digits and `_`.
    Name,
    /// The spread `...`.
    Spread,
    /// A string, `"..."` or `"""..."""`.
    StringValue,
    /// A number, starting with a digit or `-`.
    Number,
    /// One of `! $ & ( ) : = @ [ ] { } |`.
    Punctuator(char),
    /// Any other single character.
    Other,
}

/// A token of a document: its kind, the characters it spans, and where it starts.
#[derive(Clone, Copy, Debug, PartialEq, Eq, Structural)]
pub struct Token {
    pub kind: TokenKind,
    pub start: usize,
    pub end: usize,
    pub line: usize,
    pub col: usize,
}

pub open spec fn is_ignored_char(c: char) -> bool {
    c == ' ' || c == '\t' || c == '\n' || c == '\r' || c == ',' || c == '\u{feff}'
}

pub open spec fn is_line_terminator(c: char) -> bool {
    c == '\n' || c == '\r'
}

pub open spec fn is_name_start(c: char) -> bool {
    c == '_' || ('A' <= c && c <= 'Z') || ('a' <= c && c <= 'z')
}

pub open spec fn is_digit(c: char) -> bool {
    '0' <= c && c <= '9'
}

pub open spec fn is_name_continue(c: char) -> bool {
    is_name_start(c) || is_digit(c)
}

pub open spec fn is_punctuator(c: char) -> bool {
    c == '!' || c == '$' || c == '&' || c == '(' || c == ')' || c == ':' || c == '=' || c == '@'
        || c == '[' || c == ']' || c == '{' || c == '}' || c == '|'
}

/// The first place at or after `i` that is neither white space, a comma, a
/// byte order mark, nor inside a comment (`in_comment` says whether `i` is).
pub open spec fn skip_ignored(src: Seq<char>, i: nat, in_comment: bool) -> nat
    decreases src.len() - i,
{
    if i >= src.len() {
        i
    } else if in_comment {
        skip_ignored(src, i + 1, !is_line_terminator(src[i as int]))
    } else if is_ignored_char(src[i as int]) {
        skip_ignored(src, i + 1, false)
    } else if src[i as int] == '#' {
        skip_ignored(src, i + 1, true)
    } else {
        i
    }
}

/// The end of the name whose remaining characters start at `j`.
pub open spec fn name_end(src: Seq<char>, j: nat) -> nat
    decreases src.len() - j,
{
    if j >= src.len() {
        j
    } else if is_name_continue(src[j as int]) {
        name_end(src, j + 1)
    } else {
        j
    }
}

/// The end of the string whose remaining characters start at `j`: just after
/// the closing quote; an escape takes the character after the backslash along;
/// a string that meets a line break or the end of the text ends there.
pub open spec fn string_end(src: Seq<char>, j: nat) -> nat
    decreases src.len() - j,
{
    if j >= src.len() {
        j
    } else if src[j as int] == '"' {
        j + 1
    } else if is_line_terminator(src[j as int]) {
        j
    } else if src[j as int] == '\\' {
        if j + 1 < src.len() {
            string_end(src, j + 2)
        } else {
            src.len()
        }
    } else {
        string_end(src, j + 1)
    }
}

pub open spec fn triple_quote_at(src: Seq<char>, j: int) -> bool {
    &&& 0 <= j
    &&& j + 2 < src.len()
    &&& src[j] == '"'
    &&& src[j + 1] == '"'
    &&& src[j + 2] == '"'
}

/// The end of the block string whose remaining characters start at `j`: just
/// after the closing `"""`; `\"""` does not close it.
pub open spec fn block_string_end(src: Seq<char>, j: nat) -> nat
    decreases src.len() - j,
{
    if j >= src.len() {
        j
    } else if triple_quote_at(src, j as int) {
        j + 3
    } else if src[j as int] == '\\' && triple_quote_at(src, (j + 1) as int) {
        block_string_end(src, j + 4)
    } else {
        block_string_end(src, j + 1)
    }
}

/// The end of the number whose remaining characters start at `j` (`j > 0`):
/// letters, digits, `_` and `.` go on, and so do `+` and `-` right after `e` or `E`.
pub open spec fn number_end(src: Seq<char>, j: nat) -> nat
    decreases src.len() - j,
{
    if j >= src.len() || j == 0 {
        j
    } else if is_name_continue(src[j as int]) || src[j as int] == '.' {
        number_end(src, j + 1)
    } else if (src[j as int] == '+' || src[j as int] == '-') && (src[j - 1] == 'e' || src[j - 1]
        == 'E') {
        number_end(src, j + 1)
    } else {
        j
    }
}

pub open spec fn spread_at(src: Seq<char>, s: int) -> bool {
    &&& 0 <= s
    &&& s + 2 < src.len()
    &&& src[s] == '.'
    &&& src[s + 1] == '.'
    &&& src[s + 2] == '.'
}

/// The kind of the token that starts at `s`.
pub open spec fn token_kind(src: Seq<char>, s: int) -> TokenKind {
    let c = src[s];
    if is_name_start(c) {
        TokenKind::Name
    } else if spread_at(src, s) {
        TokenKind::Spread
    } else if c == '"' {
        TokenKind::StringValue
    } else if c == '-' || is_digit(c) {
        TokenKind::Number
    } else if is_punctuator(c) {
        TokenKind::Punctuator(c)
    } else {
        TokenKind::Other
    }
}

/// The end of the token that starts at `s`.
pub open spec fn token_end(src: Seq<char>, s: nat) -> nat {
    let c = src[s as int];
    if is_name_start(c) {
        name_end(src, s + 1)
    } else if spread_at(src, s as int) {
        s + 3
    } else if c == '"' {
        if triple_quote_at(src, s as int) {
            block_string_end(src, s + 3)
        } else {
            string_end(src, s + 1)
        }
    } else if c == '-' || is_digit(c) {
        number_end(src, s + 1)
    } else {
        s + 1
    }
}

pub open spec fn token_at(src: Seq<char>, s: nat) -> Token {
    Token {
        kind: token_kind(src, s as int),
        start: s as usize,
        end: token_end(src, s) as usize,
        line: line_at(src, s as int) as usize,
        col: col_at(src, s as int) as usize,
    }
}

pub proof fn lemma_skip_ignored_bounds(src: Seq<char>, i: nat, in_comment: bool)
    requires
        i <= src.len(),
    ensures
        i <= skip_ignored(src, i, in_comment) <= src.len(),
        skip_ignored(src, i, in_comment) < src.len() ==> !is_ignored_char(
            src[skip_ignored(src, i, in_comment) as int],
        ) && src[skip_ignored(src, i, in_comment) as int] != '#',
    decreases src.len() - i,
{
    if i < src.len() {
        if in_comment {
            lemma_skip_ignored_bounds(src, i + 1, !is_line_terminator(src[i as int]));
        } else if is_ignored_char(src[i as int]) || src[i as int] == '#' {
            lemma_skip_ignored_bounds(src, i + 1, src[i as int] == '#');
        }
    }
}

pub proof fn lemma_name_end_bounds(src: Seq<char>, j: nat)
    requires
        j <= src.len(),
    ensures
        j <= name_end(src, j) <= src.len(),
    decreases src.len() - j,
{
    if j < src.len() && is_name_continue(src[j as int]) {
        lemma_name_end_bounds(src, j + 1);
    }
}

pub proof fn lemma_string_end_bounds(src: Seq<char>, j: nat)
    requires
        j <= src.len(),
    ensures
        j <= string_end(src, j) <= src.len(),
    decreases src.len() - j,
{
    if j < src.len() && src[j as int] != '"' && !is_line_terminator(src[j as int]) {
        if src[j as int] == '\\' {
            if j + 1 < src.len() {
                lemma_string_end_bounds(src, j + 2);
            }
        } else {
            lemma_string_end_bounds(src, j + 1);
        }
    }
}

pub proof fn lemma_block_string_end_bounds(src: Seq<char>, j: nat)
    requires
        j <= src.len(),
    ensures
        j <= block_string_end(src, j) <= src.len(),
    decreases src.len() - j,
{
    if j < src.len() && !triple_quote_at(src, j as int) {
        if src[j as int] == '\\' && triple_quote_at(src, (j + 1) as int) {
            lemma_block_string_end_bounds(src, j + 4);
        } else {
            lemma_block_string_end_bounds(src, j + 1);
        }
    }
}

pub proof fn lemma_number_end_bounds(src: Seq<char>, j: nat)
    requires
        j <= src.len(),
    ensures
        j <= number_end(src, j) <= src.len(),
    decreases src.len() - j,
{
    if j < src.len() && j > 0 {
        lemma_number_end_bounds(src, j + 1);
    }
}

pub proof fn lemma_token_end_bounds(src: Seq<char>, s: nat)
    requires
        s < src.len(),
    ensures
        s < token_end(src, s) <= src.len(),
{
    lemma_name_end_bounds(src, s + 1);
    lemma_string_end_bounds(src, s + 1);
    if triple_quote_at(src, s as int) {
        lemma_block_string_end_bounds(src, s + 3);
    }
    lemma_number_end_bounds(src, s + 1);
}

proof fn lemma_name_end_run(src: Seq<char>, j: nat)
    requires
        j <= src.len(),
    ensures
        forall|i: int| j <= i < name_end(src, j) ==> is_name_continue(#[trigger] src[i]),
        name_end(src, j) < src.len() ==> !is_name_continue(src[name_end(src, j) as int]),
    decreases src.len() - j,
{
    if j < src.len() && is_name_continue(src[j as int]) {
        lemma_name_end_run(src, j + 1);
    }
}

/// A name is read whole, as GraphQL writes names (`[_A-Za-z][_0-9A-Za-z]*`):
/// lexing at a `_` or an ASCII letter gives a name token that starts there and
/// runs over every following `_`, ASCII letter and ASCII digit, up to the
/// first other character or the end of the text.
pub proof fn lemma_names_are_read_whole(src: Seq<char>, s: nat)
    requires
        src.len() <= usize::MAX,
        s < src.len(),
        src[s as int] == '_' || ('A' <= src[s as int] && src[s as int] <= 'Z') || ('a' <= src[s as int]
            && src[s as int] <= 'z'),
    ensures
        lex_from(src, s).len() > 0,
        lex_from(src, s)[0].kind == TokenKind::Name,
        lex_from(src, s)[0].start == s,
        s < lex_from(src, s)[0].end <= src.len(),
        forall|j: int|
            s <= j < lex_from(src, s)[0].end ==> {
                let c = #[trigger] src[j];
                c == '_' || ('0' <= c && c <= '9') || ('A' <= c && c <= 'Z') || ('a' <= c && c <= 'z')
            },
        lex_from(src, s)[0].end < src.len() ==> {
            let c = src[lex_from(src, s)[0].end as int];
            !(c == '_' || ('0' <= c && c <= '9') || ('A' <= c && c <= 'Z') || ('a' <= c && c <= 'z'))
        },
{
    assert(skip_ignored(src, s, false) == s);
    lemma_token_end_bounds(src, s);
    lemma_name_end_run(src, s + 1);
    assert(lex_from(src, s)[0] == token_at(src, s));
}

/// White space, line breaks, commas and byte order marks between tokens are
/// skipped: lexing at one of them gives what lexing just after it gives.
pub proof fn lemma_ignored_characters_are_skipped(src: Seq<char>, i: nat)
    requires
        i < src.len(),
        src[i as int] == ' ' || src[i as int] == '\t' || src[i as int] == '\n' || src[i as int]
            == '\r' || src[i as int] == ',' || src[i as int] == '\u{feff}',
    ensures
        lex_from(src, i) == lex_from(src, i + 1),
{
    assert(skip_ignored(src, i, false) == skip_ignored(src, i + 1, false));
    lemma_skip_ignored_bounds(src, i + 1, false);
}

proof fn lemma_comment_run(src: Seq<char>, m: nat, j: nat)
    requires
        m <= j < src.len(),
        src[j as int] == '\n' || src[j as int] == '\r',
        forall|q: int| m <= q < j ==> src[q] != '\n' && src[q] != '\r',
    ensures
        skip_ignored(src, m, true) == skip_ignored(src, j + 1, false),
    decreases j - m,
{
    if m < j {
        lemma_comment_run(src, m + 1, j);
    }
}

/// A comment runs from `#` to the end of its line: lexing at a `#` gives what
/// lexing just after the next line break (`\n` or `\r`) gives, and nothing
/// when no line break follows.
pub proof fn lemma_comments_are_skipped(src: Seq<char>, i: nat, j: nat)
    requires
        i < j <= src.len(),
        src[i as int] == '#',
        forall|q: int| i < q < j ==> src[q] != '\n' && src[q] != '\r',
        j < src.len() ==> src[j as int] == '\n' || src[j as int] == '\r',
    ensures
        j < src.len() ==> lex_from(src, i) == lex_from(src, j + 1),
        j == src.len() ==> lex_from(src, i) == Seq::<Token>::empty(),
{
    if j < src.len() {
        lemma_comment_run(src, i + 1, j);
        lemma_skip_ignored_bounds(src, j + 1, false);
    } else {
        lemma_comment_run_to_end(src, i + 1);
    }
}

proof fn lemma_comment_run_to_end(src: Seq<char>, m: nat)
    requires
        m <= src.len(),
        forall|q: int| m <= q < src.len() ==> src[q] != '\n' && src[q] != '\r',
    ensures
        skip_ignored(src, m, true) == src.len(),
    decreases src.len() - m,
{
    if m < src.len() {
        lemma_comment_run_to_end(src, m + 1);
    }
}

/// Each of `! $ & ( ) : = @ [ ] { } |` is a token of its own, and `...` is
/// the spread.
pub proof fn lemma_punctuators_are_tokens(src: Seq<char>, s: nat)
    requires
        src.len() <= usize::MAX,
        s < src.len(),
    ensures
        ({
            let c = src[s as int];
            c == '!' || c == '$' || c == '&' || c == '(' || c == ')' || c == ':' || c == '=' || c
                == '@' || c == '[' || c == ']' || c == '{' || c == '}' || c == '|'
        }) ==> lex_from(src, s).len() > 0 && lex_from(src, s)[0].kind == TokenKind::Punctuator(
            src[s as int],
        ) && lex_from(src, s)[0].start == s && lex_from(src, s)[0].end == s + 1,
        s + 2 < src.len() && src[s as int] == '.' && src[s + 1int] == '.' && src[s + 2int] == '.'
            ==> lex_from(src, s).len() > 0 && lex_from(src, s)[0].kind == TokenKind::Spread
            && lex_from(src, s)[0].start == s && lex_from(src, s)[0].end == s + 3,
{
    lemma_token_end_bounds(src, s);
    let c = src[s as int];
    if !is_ignored_char(c) && c != '#' {
        assert(skip_ignored(src, s, false) == s);
        assert(lex_from(src, s)[0] == token_at(src, s));
    }
}

proof fn lemma_plain_string_run(src: Seq<char>, j: nat, e: nat)
    requires
        j <= e < src.len(),
        src[e as int] == '"',
        forall|q: int|
            j <= q < e ==> src[q] != '"' && src[q] != '\\' && src[q] != '\n' && src[q] != '\r',
    ensures
        string_end(src, j) == e + 1,
    decreases e - j,
{
    if j < e {
        lemma_plain_string_run(src, j + 1, e);
    }
}

/// A string without escapes is one token, from its opening quote to its
/// closing one, whatever it holds (a name or a `#` inside it is no token and
/// no comment).
pub proof fn lemma_strings_are_tokens(src: Seq<char>, s: nat, e: nat)
    requires
        src.len() <= usize::MAX,
        s + 1 < e < src.len(),
        src[s as int] == '"',
        src[e as int] == '"',
        forall|q: int|
            s < q < e ==> src[q] != '"' && src[q] != '\\' && src[q] != '\n' && src[q] != '\r',
    ensures
        lex_from(src, s).len() > 0,
        lex_from(src, s)[0].kind == TokenKind::StringValue,
        lex_from(src, s)[0].start == s,
        lex_from(src, s)[0].end == e + 1,
{
    lemma_plain_string_run(src, s + 1, e);
    assert(src[s + 1int] != '"');
    assert(skip_ignored(src, s, false) == s);
    lemma_token_end_bounds(src, s);
    assert(lex_from(src, s)[0] == token_at(src, s));
}

/// The tokens of `src` from place `i` on.
pub open spec fn lex_from(src: Seq<char>, i: nat) -> Seq<Token>
    decreases src.len() - i,
{
    if i >= src.len() {
        Seq::empty()
    } else {
        let s = skip_ignored(src, i, false);
        if s >= src.len() {
            Seq::empty()
        } else {
            proof {
                lemma_skip_ignored_bounds(src, i, false);
                lemma_token_end_bounds(src, s);
            }
            seq![token_at(src, s)] + lex_from(src, token_end(src, s))
        }
    }
}

/// The tokens of a whole text.
pub open spec fn tokens_of(src: Seq<char>) -> Seq<Token> {
    lex_from(src, 0)
}

fn is_ignored(c: char) -> (b: bool)
    ensures
        b == is_ignored_char(c),
{
    c == ' ' || c == '\t' || c == '\n' || c == '\r' || c == ',' || c == '\u{feff}'
}

fn is_line_break(c: char) -> (b: bool)
    ensures
        b == is_line_terminator(c),
{
    c == '\n' || c == '\r'
}

fn is_name_start_char(c: char) -> (b: bool)
    ensures
        b == is_name_start(c),
{
    c == '_' || ('A' <= c && c <= 'Z') || ('a' <= c && c <= 'z')
}

fn is_digit_char(c: char) -> (b: bool)
    ensures
        b == is_digit(c),
{
    '0' <= c && c <= '9'
}

fn is_name_char(c: char) -> (b: bool)
    ensures
        b == is_name_continue(c),
{
    is_name_start_char(c) || is_digit_char(c)
}

fn is_punctuator_char(c: char) -> (b: bool)
    ensures
        b == is_punctuator(c),
{
    c == '!' || c == '$' || c == '&' || c == '(' || c == ')' || c == ':' || c == '=' || c == '@'
        || c == '[' || c == ']' || c == '{' || c == '}' || c == '|'
}

/// Skips white space, commas, byte order marks and comments from `i` on.
pub fn skip_ignored_from(src: &Vec<char>, i: usize) -> (r: usize)
    requires
        i <= src@.len(),
    ensures
        r == skip_ignored(src@, i as nat, false),
{
    let mut j = i;
    let mut in_comment = false;
    while j < src.len()
        invariant
            j <= src@.len(),
            skip_ignored(src@, j as nat, in_comment) == skip_ignored(src@, i as nat, false),
        decreases src@.len() - j,
    {
        let c = src[j];
        if in_comment {
            in_comment = !is_line_break(c);
        } else if is_ignored(c) {
        } else if c == '#' {
            in_comment = true;
        } else {
            return j;
        }
        j += 1;
    }
    j
}

fn name_end_from(src: &Vec<char>, j: usize) -> (r: usize)
    requires
        j <= src@.len(),
    ensures
        r == name_end(src@, j as nat),
{
    let mut k = j;
    while k < src.len() && is_name_char(src[k])
        invariant
            k <= src@.len(),
            name_end(src@, k as nat) == name_end(src@, j as nat),
        decreases src@.len() - k,
    {
        k += 1;
    }
    k
}

fn string_end_from(src: &Vec<char>, j: usize) -> (r: usize)
    requires
        j <= src@.len(),
    ensures
        r == string_end(src@, j as nat),
{
    let n = src.len();
    let mut k = j;
    while k < n
        invariant
            n == src@.len(),
            k <= n,
            string_end(src@, k as nat) == string_end(src@, j as nat),
        decreases n - k,
    {
        let c = src[k];
        if c == '"' {
            return k + 1;
        } else if is_line_break(c) {
            return k;
        } else if c == '\\' {
            if k + 1 < n {
                k += 2;
            } else {
                return n;
            }
        } else {
            k += 1;
        }
    }
    k
}

fn triple_quote(src: &Vec<char>, j: usize) -> (b: bool)
    ensures
        b == triple_quote_at(src@, j as int),
{
    j < src.len() && src.len() - j > 2 && src[j] == '"' && src[j + 1] == '"' && src[j + 2] == '"'
}

fn block_string_end_from(src: &Vec<char>, j: usize) -> (r: usize)
    requires
        j <= src@.len(),
    ensures
        r == block_string_end(src@, j as nat),
{
    let n = src.len();
    let mut k = j;
    while k < n
        invariant
            n == src@.len(),
            k <= n,
            block_string_end(src@, k as nat) == block_string_end(src@, j as nat),
        decreases n - k,
    {
        if triple_quote(src, k) {
            return k + 3;
        } else if src[k] == '\\' && triple_quote(src, k + 1) {
            k += 4;
        } else {
            k += 1;
        }
    }
    k
}

fn number_end_from(src: &Vec<char>, j: usize) -> (r: usize)
    requires
        0 < j <= src@.len(),
    ensures
        r == number_end(src@, j as nat),
{
    let n = src.len();
    let mut k = j;
    while k < n
        invariant
            n == src@.len(),
            0 < k <= n,
            number_end(src@, k as nat) == number_end(src@, j as nat),
        decreases n - k,
    {
        let c = src[k];
        if is_name_char(c) || c == '.' {
            k += 1;
        } else if (c == '+' || c == '-') && (src[k - 1] == 'e' || src[k - 1] == 'E') {
            k += 1;
        } else {
            return k;
        }
    }
    k
}

fn spread(src: &Vec<char>, s: usize) -> (b: bool)
    ensures
        b == spread_at(src@, s as int),
{
    s < src.len() && src.len() - s > 2 && src[s] == '.' && src[s + 1] == '.' && src[s + 2] == '.'
}

/// The kind and the end of the token that starts at `s`.
fn read_token(src: &Vec<char>, s: usize) -> (r: (TokenKind, usize))
    requires
        s < src@.len(),
    ensures
        r.0 == token_kind(src@, s as int),
        r.1 == token_end(src@, s as nat),
{
    proof {
        vstd::std_specs::vec::axiom_spec_len(src);
    }
    let c = src[s];
    if is_name_start_char(c) {
        (TokenKind::Name, name_end_from(src, s + 1))
    } else if spread(src, s) {
        (TokenKind::Spread, s + 3)
    } else if c == '"' {
        if triple_quote(src, s) {
            (TokenKind::StringValue, block_string_end_from(src, s + 3))
        } else {
            (TokenKind::StringValue, string_end_from(src, s + 1))
        }
    } else if c == '-' || is_digit_char(c) {
        (TokenKind::Number, number_end_from(src, s + 1))
    } else if is_punctuator_char(c) {
        (TokenKind::Punctuator(c), s + 1)
    } else {
        (TokenKind::Other, s + 1)
    }
}

/// Splits a text into its tokens.
pub fn lex(src: &Vec<char>) -> (tokens: Vec<Token>)
    ensures
        tokens@ == tokens_of(src@),
{
    let n = src.len();
    let mut tokens: Vec<Token> = Vec::new();
    let mut i: usize = 0;
    let mut line: usize = 0;
    let mut col: usize = 0;
    while i < n
        invariant
            n == src@.len(),
            i <= n,
            line == line_at(src@, i as int),
            col == col_at(src@, i as int),
            tokens@ + lex_from(src@, i as nat) == tokens_of(src@),
        decreases n - i,
    {
        let s = skip_ignored_from(src, i);
        proof {
            lemma_skip_ignored_bounds(src@, i as nat, false);
        }
        if s >= n {
            assert(lex_from(src@, i as nat) == Seq::<Token>::empty());
            assert(tokens@ + Seq::<Token>::empty() =~= tokens@);
            return tokens;
        }
        let (l, c) = advance_position_to(src, i, s, line, col);
        let (kind, e) = read_token(src, s);
        proof {
            lemma_token_end_bounds(src@, s as nat);
            lemma_line_col_bounded(src@, s as int);
        }
        let tok = Token { kind, start: s, end: e, line: l, col: c };
        assert(tok == token_at(src@, s as nat));
        assert(lex_from(src@, i as nat) == seq![tok] + lex_from(src@, e as nat));
        tokens.push(tok);
        let (l2, c2) = advance_position_to(src, s, e, l, c);
        line = l2;
        col = c2;
        i = e;
    }
    assert(lex_from(src@, i as nat) == Seq::<Token>::empty());
    assert(tokens@ + Seq::<Token>::empty() =~= tokens@);
    tokens
}

} // verus!
