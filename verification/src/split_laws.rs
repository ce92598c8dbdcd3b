use vstd::prelude::*;
use crate::lexer::{
    block_string_end, is_ignored_char, lemma_skip_ignored_bounds, lemma_token_end_bounds, lex_from,
    name_end, number_end, skip_ignored, spread_at, string_end, token_at, token_end, tokens_of,
    triple_quote_at, Token,
};
use crate::document::{
    document_events, events_from, lemma_tokens_fit, scan_step, spanned_token, start_state,
    token_fits, token_text, Expect, ScanState,
};
use crate::visitor::EventView;
use crate::alias_laws::lemma_operations_are_independent;
use crate::limit_number_of_aliases::alias_errors;
use crate::position::{col_at, line_at};

verus! {

/// `x` with every character but line breaks turned into a space: the same
/// places, with nothing on them.
pub open spec fn blanked(x: Seq<char>) -> Seq<char> {
    Seq::new(x.len(), |i: int| if x[i] == '\n' { '\n' } else { ' ' })
}

/// `x` and `y` hold the same characters from place `p` on.
pub open spec fn agree_from(x: Seq<char>, y: Seq<char>, p: int) -> bool {
    &&& x.len() == y.len()
    &&& forall|j: int| p <= j < x.len() ==> x[j] == y[j]
}

/// `x` and `y` have their line breaks at the same places.
pub open spec fn same_breaks(x: Seq<char>, y: Seq<char>) -> bool {
    &&& x.len() == y.len()
    &&& forall|j: int| 0 <= j < x.len() ==> (x[j] == '\n') == (y[j] == '\n')
}

proof fn lemma_same_breaks_positions(x: Seq<char>, y: Seq<char>, i: int)
    requires
        same_breaks(x, y),
        0 <= i <= x.len(),
    ensures
        line_at(x, i) == line_at(y, i),
        col_at(x, i) == col_at(y, i),
    decreases i,
{
    if i > 0 {
        lemma_same_breaks_positions(x, y, i - 1);
        assert((x[i - 1] == '\n') == (y[i - 1] == '\n'));
    }
}

proof fn lemma_agree_skip(x: Seq<char>, y: Seq<char>, p: int, j: nat, c: bool)
    requires
        agree_from(x, y, p),
        p <= j <= x.len(),
    ensures
        skip_ignored(x, j, c) == skip_ignored(y, j, c),
    decreases x.len() - j,
{
    if j < x.len() {
        assert(x[j as int] == y[j as int]);
        lemma_agree_skip(x, y, p, j + 1, false);
        lemma_agree_skip(x, y, p, j + 1, true);
    }
}

proof fn lemma_agree_name_end(x: Seq<char>, y: Seq<char>, p: int, j: nat)
    requires
        agree_from(x, y, p),
        p <= j <= x.len(),
    ensures
        name_end(x, j) == name_end(y, j),
    decreases x.len() - j,
{
    if j < x.len() {
        assert(x[j as int] == y[j as int]);
        lemma_agree_name_end(x, y, p, j + 1);
    }
}

proof fn lemma_agree_string_end(x: Seq<char>, y: Seq<char>, p: int, j: nat)
    requires
        agree_from(x, y, p),
        p <= j <= x.len(),
    ensures
        string_end(x, j) == string_end(y, j),
    decreases x.len() - j,
{
    if j < x.len() {
        assert(x[j as int] == y[j as int]);
        lemma_agree_string_end(x, y, p, j + 1);
        if j + 1 < x.len() {
            lemma_agree_string_end(x, y, p, j + 2);
        }
    }
}

proof fn lemma_agree_triple(x: Seq<char>, y: Seq<char>, p: int, j: int)
    requires
        agree_from(x, y, p),
        p <= j,
    ensures
        triple_quote_at(x, j) == triple_quote_at(y, j),
        spread_at(x, j) == spread_at(y, j),
{
    if j + 2 < x.len() {
        assert(x[j] == y[j] && x[j + 1] == y[j + 1] && x[j + 2] == y[j + 2]);
    }
}

proof fn lemma_agree_block_string_end(x: Seq<char>, y: Seq<char>, p: int, j: nat)
    requires
        agree_from(x, y, p),
        p <= j <= x.len(),
    ensures
        block_string_end(x, j) == block_string_end(y, j),
    decreases x.len() - j,
{
    if j < x.len() {
        assert(x[j as int] == y[j as int]);
        lemma_agree_triple(x, y, p, j as int);
        lemma_agree_triple(x, y, p, j + 1int);
        lemma_agree_block_string_end(x, y, p, j + 1);
        if j + 4 <= x.len() {
            lemma_agree_block_string_end(x, y, p, j + 4);
        }
    }
}

proof fn lemma_agree_number_end(x: Seq<char>, y: Seq<char>, p: int, j: nat)
    requires
        agree_from(x, y, p),
        p < j <= x.len(),
    ensures
        number_end(x, j) == number_end(y, j),
    decreases x.len() - j,
{
    if j < x.len() {
        assert(x[j as int] == y[j as int]);
        assert(x[j - 1] == y[j - 1]);
        lemma_agree_number_end(x, y, p, j + 1);
    }
}

proof fn lemma_agree_token(x: Seq<char>, y: Seq<char>, p: int, s: nat)
    requires
        agree_from(x, y, p),
        same_breaks(x, y),
        p <= s < x.len(),
    ensures
        token_at(x, s) == token_at(y, s),
        token_end(x, s) == token_end(y, s),
{
    assert(x[s as int] == y[s as int]);
    lemma_agree_triple(x, y, p, s as int);
    lemma_agree_name_end(x, y, p, s + 1);
    lemma_agree_string_end(x, y, p, s + 1);
    if triple_quote_at(x, s as int) {
        lemma_agree_block_string_end(x, y, p, s + 3);
    }
    lemma_agree_number_end(x, y, p, s + 1);
    lemma_same_breaks_positions(x, y, s as int);
}

/// Two texts with the same characters from `p` on, and line breaks at the same
/// places, have the same tokens from `p` on.
pub proof fn lemma_agree_lex(x: Seq<char>, y: Seq<char>, p: int, i: nat)
    requires
        agree_from(x, y, p),
        same_breaks(x, y),
        p <= i <= x.len(),
    ensures
        lex_from(x, i) == lex_from(y, i),
    decreases x.len() - i,
{
    if i < x.len() {
        lemma_agree_skip(x, y, p, i, false);
        let s = skip_ignored(x, i, false);
        lemma_skip_ignored_bounds(x, i, false);
        if s < x.len() {
            lemma_agree_token(x, y, p, s);
            lemma_token_end_bounds(x, s);
            lemma_agree_lex(x, y, p, token_end(x, s));
        }
    }
}

/// Where the last line of `a` starts: just after its last line break, or at
/// its start when it has none.
pub open spec fn last_line_start(a: Seq<char>) -> int {
    a.len() - col_at(a, a.len() as int)
}

/// `a` is not empty, ends with an ignored character (white space, a line
/// break or a comma), and has no `#` on its last line: no token and no
/// comment of `a` runs past its end.
pub open spec fn ends_cleanly(a: Seq<char>) -> bool {
    &&& a.len() > 0
    &&& is_ignored_char(a[a.len() - 1])
    &&& forall|j: int| last_line_start(a) <= j < a.len() ==> a[j] != '#'
}

/// The characters from where a line starts up to `i` hold no line break, and
/// the one just before it is a line break.
proof fn lemma_line_start(a: Seq<char>, i: int)
    requires
        0 <= i,
    ensures
        col_at(a, i) <= i,
        col_at(a, i) < i ==> a[i - col_at(a, i) - 1] == '\n',
    decreases i,
{
    if i > 0 {
        lemma_line_start(a, i - 1);
    }
}

proof fn lemma_prefix_positions(a: Seq<char>, z: Seq<char>, i: int)
    requires
        0 <= i <= a.len(),
    ensures
        line_at(a + z, i) == line_at(a, i),
        col_at(a + z, i) == col_at(a, i),
    decreases i,
{
    if i > 0 {
        lemma_prefix_positions(a, z, i - 1);
        assert((a + z)[i - 1] == a[i - 1]);
    }
}

proof fn lemma_prefix_skip(a: Seq<char>, z: Seq<char>, i: nat, c: bool)
    requires
        ends_cleanly(a),
        i <= a.len(),
        c ==> i < last_line_start(a),
    ensures
        skip_ignored(a, i, c) < a.len() ==> skip_ignored(a + z, i, c) == skip_ignored(a, i, c),
        skip_ignored(a, i, c) >= a.len() ==> skip_ignored(a + z, i, c) == skip_ignored(
            a + z,
            a.len() as nat,
            false,
        ),
    decreases a.len() - i,
{
    if i < a.len() {
        assert((a + z)[i as int] == a[i as int]);
        let ch = a[i as int];
        let ls = last_line_start(a);
        lemma_line_start(a, a.len() as int);
        if ls > 0 {
            assert(a[ls - 1] == '\n');
        }
        if ch == '#' {
            assert(i < ls);
        }
        if c {
            lemma_prefix_skip(a, z, i + 1, !crate::lexer::is_line_terminator(ch));
        } else if is_ignored_char(ch) {
            lemma_prefix_skip(a, z, i + 1, false);
        } else if ch == '#' {
            lemma_prefix_skip(a, z, i + 1, true);
        }
    }
}

proof fn lemma_prefix_name_end(a: Seq<char>, z: Seq<char>, j: nat)
    requires
        j <= a.len(),
        name_end(a, j) < a.len(),
    ensures
        name_end(a + z, j) == name_end(a, j),
    decreases a.len() - j,
{
    if j < a.len() {
        assert((a + z)[j as int] == a[j as int]);
        if crate::lexer::is_name_continue(a[j as int]) {
            lemma_prefix_name_end(a, z, j + 1);
        }
    }
}

proof fn lemma_prefix_string_end(a: Seq<char>, z: Seq<char>, j: nat)
    requires
        j <= a.len(),
        string_end(a, j) < a.len(),
    ensures
        string_end(a + z, j) == string_end(a, j),
    decreases a.len() - j,
{
    if j < a.len() {
        assert((a + z)[j as int] == a[j as int]);
        let ch = a[j as int];
        if ch != '"' && !crate::lexer::is_line_terminator(ch) {
            if ch == '\\' {
                if j + 1 < a.len() {
                    lemma_prefix_string_end(a, z, j + 2);
                }
            } else {
                lemma_prefix_string_end(a, z, j + 1);
            }
        }
    }
}

proof fn lemma_prefix_triple(a: Seq<char>, z: Seq<char>, j: int)
    requires
        ends_cleanly(a),
        0 <= j < a.len(),
    ensures
        triple_quote_at(a + z, j) == triple_quote_at(a, j),
        spread_at(a + z, j) == spread_at(a, j),
{
    let x = a + z;
    if j + 2 < a.len() {
        assert(x[j] == a[j] && x[j + 1] == a[j + 1] && x[j + 2] == a[j + 2]);
    } else {
        let k = a.len() - 1;
        assert(x[k] == a[k] && is_ignored_char(a[k]));
        assert(j <= k <= j + 2);
    }
}

proof fn lemma_prefix_block_string_end(a: Seq<char>, z: Seq<char>, j: nat)
    requires
        ends_cleanly(a),
        j <= a.len(),
        block_string_end(a, j) < a.len(),
    ensures
        block_string_end(a + z, j) == block_string_end(a, j),
    decreases a.len() - j,
{
    if j < a.len() {
        assert((a + z)[j as int] == a[j as int]);
        lemma_prefix_triple(a, z, j as int);
        if !triple_quote_at(a, j as int) {
            if j + 1 < a.len() {
                lemma_prefix_triple(a, z, j + 1int);
            } else {
                assert(is_ignored_char(a[j as int]));
            }
            if a[j as int] == '\\' && triple_quote_at(a, j + 1int) {
                lemma_prefix_block_string_end(a, z, j + 4);
            } else {
                lemma_prefix_block_string_end(a, z, j + 1);
            }
        }
    }
}

proof fn lemma_prefix_number_end(a: Seq<char>, z: Seq<char>, j: nat)
    requires
        0 < j <= a.len(),
        number_end(a, j) < a.len(),
    ensures
        number_end(a + z, j) == number_end(a, j),
    decreases a.len() - j,
{
    if j < a.len() {
        assert((a + z)[j as int] == a[j as int]);
        assert((a + z)[j - 1] == a[j - 1]);
        let ch = a[j as int];
        if crate::lexer::is_name_continue(ch) || ch == '.' || ((ch == '+' || ch == '-') && (a[j
            - 1] == 'e' || a[j - 1] == 'E')) {
            lemma_prefix_number_end(a, z, j + 1);
        }
    }
}

proof fn lemma_prefix_token(a: Seq<char>, z: Seq<char>, s: nat)
    requires
        ends_cleanly(a),
        s < a.len(),
        token_end(a, s) < a.len(),
    ensures
        token_at(a + z, s) == token_at(a, s),
        token_end(a + z, s) == token_end(a, s),
{
    assert((a + z)[s as int] == a[s as int]);
    lemma_prefix_triple(a, z, s as int);
    lemma_prefix_positions(a, z, s as int);
    let ch = a[s as int];
    if crate::lexer::is_name_start(ch) {
        lemma_prefix_name_end(a, z, s + 1);
    } else if spread_at(a, s as int) {
    } else if ch == '"' {
        if triple_quote_at(a, s as int) {
            lemma_prefix_block_string_end(a, z, s + 3);
        } else {
            lemma_prefix_string_end(a, z, s + 1);
        }
    } else if ch == '-' || crate::lexer::is_digit(ch) {
        lemma_prefix_number_end(a, z, s + 1);
    }
}

/// The tokens of `a` end before its last character.
pub open spec fn tokens_end_within(a: Seq<char>, toks: Seq<Token>) -> bool {
    forall|k: int| 0 <= k < toks.len() ==> (#[trigger] toks[k]).end < a.len()
}

/// Lexing a text that starts with `a` gives the tokens of `a` and then the
/// tokens from the end of `a` on, when `a` ends cleanly and no token of `a`
/// runs to its end.
proof fn lemma_prefix_lex(a: Seq<char>, z: Seq<char>, i: nat)
    requires
        ends_cleanly(a),
        (a + z).len() <= usize::MAX,
        i <= a.len(),
        tokens_end_within(a, lex_from(a, i)),
    ensures
        lex_from(a + z, i) == lex_from(a, i) + lex_from(a + z, a.len() as nat),
    decreases a.len() - i,
{
    let x = a + z;
    if i == a.len() {
        assert(lex_from(a, i) =~= Seq::<Token>::empty());
        assert(lex_from(a, i) + lex_from(x, i) =~= lex_from(x, i));
    } else {
        lemma_prefix_skip(a, z, i, false);
        lemma_skip_ignored_bounds(a, i, false);
        let s = skip_ignored(a, i, false);
        if s >= a.len() {
            assert(lex_from(a, i) =~= Seq::<Token>::empty());
            assert(lex_from(a, i) + lex_from(x, a.len() as nat) =~= lex_from(x, a.len() as nat));
            if a.len() >= x.len() {
                lemma_skip_ignored_bounds(x, a.len() as nat, false);
            }
        } else {
            lemma_token_end_bounds(a, s);
            let e = token_end(a, s);
            assert(lex_from(a, i)[0] == token_at(a, s));
            assert(e < a.len());
            lemma_prefix_token(a, z, s);
            assert(lex_from(a, e) =~= lex_from(a, i).drop_first());
            assert(tokens_end_within(a, lex_from(a, e))) by {
                assert forall|k: int| 0 <= k < lex_from(a, e).len() implies (#[trigger] lex_from(
                    a,
                    e,
                )[k]).end < a.len() by {
                    assert(lex_from(a, e)[k] == lex_from(a, i)[k + 1]);
                }
            }
            lemma_prefix_lex(a, z, e);
            assert(lex_from(x, i) == seq![token_at(a, s)] + lex_from(x, e));
            assert(seq![token_at(a, s)] + (lex_from(a, e) + lex_from(x, a.len() as nat)) =~= (seq![
                token_at(a, s),
            ] + lex_from(a, e)) + lex_from(x, a.len() as nat));
        }
    }
}

proof fn lemma_skip_ignored_run(x: Seq<char>, i: nat, q: nat)
    requires
        i <= q <= x.len(),
        forall|j: int| i <= j < q ==> is_ignored_char(#[trigger] x[j]),
    ensures
        skip_ignored(x, i, false) == skip_ignored(x, q, false),
    decreases q - i,
{
    if i < q {
        assert(is_ignored_char(x[i as int]));
        lemma_skip_ignored_run(x, i + 1, q);
    }
}

proof fn lemma_blanked_ignored(x: Seq<char>)
    ensures
        forall|j: int| 0 <= j < x.len() ==> is_ignored_char(#[trigger] blanked(x)[j]),
        blanked(x).len() == x.len(),
{
}

/// Splitting a text where `a` ends cleanly: the tokens of `a + b` are those of
/// `a` with `b` blanked out, then those of `b` with `a` blanked out, when no
/// token of `a` runs to its end.
pub proof fn lemma_split_tokens(a: Seq<char>, b: Seq<char>)
    requires
        ends_cleanly(a),
        (a + b).len() <= usize::MAX,
        tokens_end_within(a, lex_from(a, 0)),
    ensures
        lex_from(a + blanked(b), 0) == lex_from(a, 0),
        lex_from(a + b, 0) == lex_from(a, 0) + lex_from(blanked(a) + b, 0),
        lex_from(blanked(a) + b, 0) == lex_from(a + b, a.len() as nat),
{
    let x = a + b;
    let xa = a + blanked(b);
    let xb = blanked(a) + b;
    lemma_blanked_ignored(a);
    lemma_blanked_ignored(b);
    // The blanked tail holds no token.
    lemma_prefix_lex(a, blanked(b), 0);
    assert forall|j: int| a.len() <= j < xa.len() implies is_ignored_char(#[trigger] xa[j]) by {
        assert(xa[j] == blanked(b)[j - a.len()]);
    }
    lemma_skip_ignored_run(xa, a.len() as nat, xa.len() as nat);
    assert(lex_from(xa, a.len() as nat) =~= Seq::<Token>::empty());
    assert(lex_from(a, 0) + Seq::<Token>::empty() =~= lex_from(a, 0));
    // The blanked head holds no token, and the rest is lexed as in `a + b`.
    lemma_prefix_lex(a, b, 0);
    assert forall|j: int| 0 <= j < a.len() implies is_ignored_char(#[trigger] xb[j]) by {
        assert(xb[j] == blanked(a)[j]);
    }
    lemma_skip_ignored_run(xb, 0, a.len() as nat);
    assert(lex_from(xb, 0) == lex_from(xb, a.len() as nat)) by {
        lemma_skip_ignored_bounds(xb, a.len() as nat, false);
    }
    assert(agree_from(xb, x, a.len() as int)) by {
        assert forall|j: int| a.len() <= j < x.len() implies xb[j] == x[j] by {
            assert(xb[j] == b[j - a.len()]);
            assert(x[j] == b[j - a.len()]);
        }
    }
    assert(same_breaks(xb, x)) by {
        assert forall|j: int| 0 <= j < x.len() implies (xb[j] == '\n') == (x[j] == '\n') by {
            if j < a.len() {
                assert(xb[j] == blanked(a)[j]);
                assert(x[j] == a[j]);
            } else {
                assert(xb[j] == b[j - a.len()]);
                assert(x[j] == b[j - a.len()]);
            }
        }
    }
    lemma_agree_lex(xb, x, a.len() as int, a.len() as nat);
}

/// Where the walk stands after the tokens from `k` on, from state `st`.
pub open spec fn state_from(src: Seq<char>, toks: Seq<Token>, k: nat, st: ScanState) -> ScanState
    decreases toks.len() - k,
{
    if k >= toks.len() {
        st
    } else {
        state_from(src, toks, k + 1, scan_step(src, toks, k as int, st).0)
    }
}

proof fn lemma_walk_shift(src: Seq<char>, p: Seq<Token>, q: Seq<Token>, k: nat, st: ScanState)
    requires
        k <= q.len(),
    ensures
        events_from(src, p + q, p.len() + k, st) == events_from(src, q, k, st),
    decreases q.len() - k,
{
    let t = p + q;
    if k < q.len() {
        let j = p.len() + k;
        assert(t[j as int] == q[k as int]);
        if k + 1 < q.len() {
            assert(t[j + 1int] == q[k + 1int]);
        }
        assert(scan_step(src, t, j as int, st) == scan_step(src, q, k as int, st));
        let next = scan_step(src, q, k as int, st).0;
        lemma_walk_shift(src, p, q, k + 1, next);
        assert(events_from(src, t, j + 1, next) == events_from(src, t, (j + 1) as nat, next));
    }
}

proof fn lemma_walk_split(src: Seq<char>, p: Seq<Token>, q: Seq<Token>, k: nat, st: ScanState)
    requires
        k <= p.len(),
        state_from(src, p, k, st).depth == 0,
    ensures
        events_from(src, p + q, k, st) == events_from(src, p, k, st) + events_from(
            src,
            p + q,
            p.len() as nat,
            state_from(src, p, k, st),
        ),
    decreases p.len() - k,
{
    let t = p + q;
    if k == p.len() {
        assert(events_from(src, p, k, st) =~= Seq::<EventView>::empty());
        assert(Seq::<EventView>::empty() + events_from(src, t, k, st) =~= events_from(src, t, k, st));
    } else {
        assert(t[k as int] == p[k as int]);
        if k + 1 < p.len() {
            assert(t[k + 1int] == p[k + 1int]);
        }
        let (next, ev) = scan_step(src, p, k as int, st);
        if k + 1 == p.len() {
            assert(state_from(src, p, k + 1, next) == next);
        }
        assert(scan_step(src, t, k as int, st) == scan_step(src, p, k as int, st));
        lemma_walk_split(src, p, q, k + 1, next);
        let here = match ev {
            Some(e) => seq![e],
            None => Seq::<EventView>::empty(),
        };
        let rest = events_from(src, t, p.len() as nat, state_from(src, p, k, st));
        assert(here + (events_from(src, p, k + 1, next) + rest) =~= (here + events_from(
            src,
            p,
            k + 1,
            next,
        )) + rest);
    }
}

/// Two texts give a token the same text and the same places.
pub open spec fn spans_agree(x: Seq<char>, y: Seq<char>, t: Token) -> bool {
    spanned_token(x, t) == spanned_token(y, t)
}

pub open spec fn held_spans_agree(x: Seq<char>, y: Seq<char>, st: ScanState) -> bool {
    match st.expect {
        Expect::AliasColon(a) => spans_agree(x, y, a),
        Expect::AliasedName(a) => spans_agree(x, y, a),
        _ => true,
    }
}

proof fn lemma_walk_texts(x: Seq<char>, y: Seq<char>, toks: Seq<Token>, k: nat, st: ScanState)
    requires
        forall|j: int| 0 <= j < toks.len() ==> spans_agree(x, y, #[trigger] toks[j]),
        held_spans_agree(x, y, st),
    ensures
        events_from(x, toks, k, st) == events_from(y, toks, k, st),
        state_from(x, toks, k, st) == state_from(y, toks, k, st),
    decreases toks.len() - k,
{
    if k < toks.len() {
        let t = toks[k as int];
        assert(spans_agree(x, y, t));
        assert(token_text(x, t) == spanned_token(x, t).text);
        assert(token_text(y, t) == spanned_token(y, t).text);
        assert(scan_step(x, toks, k as int, st) == scan_step(y, toks, k as int, st));
        lemma_walk_texts(x, y, toks, k + 1, scan_step(x, toks, k as int, st).0);
    }
}

proof fn lemma_lex_starts(src: Seq<char>, i: nat)
    requires
        src.len() <= usize::MAX,
    ensures
        forall|k: int| 0 <= k < lex_from(src, i).len() ==> (#[trigger] lex_from(src, i)[k]).start >= i,
    decreases src.len() - i,
{
    if i < src.len() {
        let s = skip_ignored(src, i, false);
        lemma_skip_ignored_bounds(src, i, false);
        if s < src.len() {
            lemma_token_end_bounds(src, s);
            lemma_lex_starts(src, token_end(src, s));
            let toks = lex_from(src, i);
            assert forall|k: int| 0 <= k < toks.len() implies (#[trigger] toks[k]).start >= i by {
                if k > 0 {
                    assert(toks[k] == lex_from(src, token_end(src, s))[k - 1]);
                } else {
                    assert(toks[0] == token_at(src, s));
                }
            }
        }
    }
}

proof fn lemma_spans_agree_within(x: Seq<char>, y: Seq<char>, t: Token, lo: int, hi: int)
    requires
        lo <= t.start <= t.end <= hi <= x.len(),
        hi <= y.len(),
        forall|j: int| lo <= j < hi ==> x[j] == y[j],
    ensures
        spans_agree(x, y, t),
{
    assert(token_text(x, t) =~= token_text(y, t));
}

/// Cutting a document where the first part ends cleanly (on white space, a
/// line break or a comma, with no comment open) and its walk stands as at the
/// start (outside every definition): the walk over the whole is the walk over
/// the first part with the second blanked out, then the walk over the second
/// part with the first blanked out — the same events at the same places.
pub proof fn lemma_split_document_events(a: Seq<char>, b: Seq<char>)
    requires
        ends_cleanly(a),
        (a + b).len() <= usize::MAX,
        tokens_end_within(a, lex_from(a, 0)),
        state_from(a, lex_from(a, 0), 0, start_state()) == start_state(),
    ensures
        document_events(a + b) == document_events(a + blanked(b)) + document_events(
            blanked(a) + b,
        ),
{
    let x = a + b;
    let xa = a + blanked(b);
    let xb = blanked(a) + b;
    let ta = lex_from(a, 0);
    let tb = lex_from(xb, 0);
    let s0 = start_state();
    lemma_split_tokens(a, b);
    lemma_tokens_fit(a, 0);
    lemma_tokens_fit(x, a.len() as nat);
    lemma_lex_starts(x, a.len() as nat);
    assert(tokens_of(x) == ta + tb);
    assert(tokens_of(xa) == ta);
    assert(tokens_of(xb) == tb);
    // The tokens of the first part read alike in `a`, `a + b` and `a + blanked(b)`.
    assert forall|j: int| 0 <= j < ta.len() implies spans_agree(x, a, #[trigger] ta[j]) by {
        assert(token_fits(a, ta[j]));
        lemma_spans_agree_within(x, a, ta[j], 0, a.len() as int);
    }
    assert forall|j: int| 0 <= j < ta.len() implies spans_agree(xa, a, #[trigger] ta[j]) by {
        assert(token_fits(a, ta[j]));
        lemma_spans_agree_within(xa, a, ta[j], 0, a.len() as int);
    }
    lemma_walk_texts(x, a, ta, 0, s0);
    lemma_walk_texts(xa, a, ta, 0, s0);
    lemma_walk_split(x, ta, tb, 0, s0);
    lemma_walk_shift(x, ta, tb, 0, s0);
    assert(ta.len() + 0 == ta.len());
    // The tokens of the second part read alike in `a + b` and `blanked(a) + b`.
    assert forall|j: int| 0 <= j < tb.len() implies spans_agree(x, xb, #[trigger] tb[j]) by {
        assert(token_fits(x, tb[j]));
        assert forall|i: int| a.len() <= i < x.len() implies x[i] == xb[i] by {
            assert(x[i] == b[i - a.len()]);
            assert(xb[i] == b[i - a.len()]);
        }
        lemma_spans_agree_within(x, xb, tb[j], a.len() as int, x.len() as int);
    }
    lemma_walk_texts(x, xb, tb, 0, s0);
}

/// Operations are judged apart in a document too: cut a document after white
/// space, a line break or a comma (with no comment open), where every
/// definition before the cut is closed, so that the part
/// after the cut starts with an operation. Then what the rule reports for the
/// whole is what it reports for the first part (the second blanked out), then
/// what a fresh rule reports for the second part (the first blanked out), at
/// the same places. Repeating the cut splits a document into its operations.
pub proof fn lemma_validation_splits(a: Seq<char>, b: Seq<char>, count: nat, max: nat)
    requires
        ends_cleanly(a),
        (a + b).len() <= usize::MAX,
        tokens_end_within(a, lex_from(a, 0)),
        state_from(a, lex_from(a, 0), 0, start_state()) == start_state(),
        document_events(blanked(a) + b).len() > 0,
        document_events(blanked(a) + b)[0] is Operation,
    ensures
        alias_errors(document_events(a + b), count, max) == alias_errors(
            document_events(a + blanked(b)),
            count,
            max,
        ) + alias_errors(document_events(blanked(a) + b), 0, max),
{
    lemma_split_document_events(a, b);
    lemma_operations_are_independent(
        document_events(a + blanked(b)),
        document_events(blanked(a) + b),
        count,
        0,
        max,
    );
}

} // verus!
