use vstd::prelude::*;
use crate::lexer::{lex, lex_from, token_at, token_end, tokens_of, Token, TokenKind};
use crate::position::{col_at, lemma_line_col_bounded, line_at, SourcePosition};
use crate::text::string_push;
use crate::visitor::{EventView, Field, Spanning, SpannedText, VisitEvent};

verus! {

/// What the next name of a selection set is taken for.
#[derive(Clone, Copy, Debug, PartialEq, Eq, Structural)]
pub enum Expect {
    /// A field, or the alias of one.
    Selection,
    /// The name of a directive, after `@`.
    DirectiveName,
    /// A fragment's name, or `on`, after `...`.
    SpreadTarget,
    /// The type of an inline fragment, after `... on`.
    TypeCondition,
    /// The colon after the alias held by this token.
    AliasColon(Token),
    /// The field name after the alias held by this token.
    AliasedName(Token),
}

/// Where a walk over the tokens of a document stands.
#[derive(Clone, Copy, Debug, PartialEq, Eq, Structural)]
pub struct ScanState {
    /// How many selection sets are open.
    pub depth: usize,
    /// How many parentheses are open (arguments, variable definitions).
    pub parens: usize,
    /// Whether the head of a definition has been read at the top level and its
    /// selection set has not opened yet.
    pub in_header: bool,
    pub expect: Expect,
}

pub open spec fn start_state() -> ScanState {
    ScanState { depth: 0, parens: 0, in_header: false, expect: Expect::Selection }
}

pub open spec fn token_text(src: Seq<char>, t: Token) -> Seq<char> {
    src.subrange(t.start as int, t.end as int)
}

/// The text of a token with the places where it starts and ends (a name holds
/// no line break, so it ends on the line where it starts).
pub open spec fn spanned_token(src: Seq<char>, t: Token) -> SpannedText {
    SpannedText {
        text: token_text(src, t),
        start: SourcePosition { index: t.start, line: t.line, col: t.col },
        end: SourcePosition {
            index: t.end,
            line: t.line,
            col: (t.col + (t.end - t.start)) as usize,
        },
    }
}

pub open spec fn is_operation_keyword(text: Seq<char>) -> bool {
    ||| text == seq!['q', 'u', 'e', 'r', 'y']
    ||| text == seq!['m', 'u', 't', 'a', 't', 'i', 'o', 'n']
    ||| text == seq!['s', 'u', 'b', 's', 'c', 'r', 'i', 'p', 't', 'i', 'o', 'n']
}

pub open spec fn is_fragment_keyword(text: Seq<char>) -> bool {
    text == seq!['f', 'r', 'a', 'g', 'm', 'e', 'n', 't']
}

pub open spec fn is_on_keyword(text: Seq<char>) -> bool {
    text == seq!['o', 'n']
}

pub open spec fn with_expect(st: ScanState, e: Expect) -> ScanState {
    ScanState { expect: e, ..st }
}

/// One step of the walk: what token `k` does to the state, and the event it
/// gives, if any.
pub open spec fn scan_step(src: Seq<char>, toks: Seq<Token>, k: int, st: ScanState) -> (
    ScanState,
    Option<EventView>,
) {
    let t = toks[k];
    if st.parens > 0 {
        if t.kind == TokenKind::Punctuator('(') {
            (ScanState { parens: (st.parens + 1) as usize, ..st }, None)
        } else if t.kind == TokenKind::Punctuator(')') {
            (ScanState { parens: (st.parens - 1) as usize, ..st }, None)
        } else {
            (st, None)
        }
    } else if t.kind == TokenKind::Punctuator('(') {
        (ScanState { parens: 1, expect: Expect::Selection, ..st }, None)
    } else if st.depth == 0 {
        if t.kind == TokenKind::Name {
            if st.in_header {
                (st, None)
            } else if is_operation_keyword(token_text(src, t)) {
                (ScanState { in_header: true, ..st }, Some(EventView::Operation))
            } else if is_fragment_keyword(token_text(src, t)) {
                (ScanState { in_header: true, ..st }, Some(EventView::Fragment))
            } else {
                (st, None)
            }
        } else if t.kind == TokenKind::Punctuator('{') {
            (
                ScanState { depth: 1, parens: 0, in_header: false, expect: Expect::Selection },
                if st.in_header {
                    None
                } else {
                    Some(EventView::Operation)
                },
            )
        } else {
            (st, None)
        }
    } else if t.kind == TokenKind::Punctuator('{') {
        (ScanState { depth: (st.depth + 1) as usize, expect: Expect::Selection, ..st }, None)
    } else if t.kind == TokenKind::Punctuator('}') {
        (ScanState { depth: (st.depth - 1) as usize, expect: Expect::Selection, ..st }, None)
    } else if t.kind == TokenKind::Punctuator('@') {
        (with_expect(st, Expect::DirectiveName), None)
    } else if t.kind == TokenKind::Spread {
        (with_expect(st, Expect::SpreadTarget), None)
    } else if t.kind == TokenKind::Punctuator(':') {
        match st.expect {
            Expect::AliasColon(a) => (with_expect(st, Expect::AliasedName(a)), None),
            _ => (with_expect(st, Expect::Selection), None),
        }
    } else if t.kind == TokenKind::Name {
        match st.expect {
            Expect::DirectiveName => (with_expect(st, Expect::Selection), None),
            Expect::SpreadTarget => if is_on_keyword(token_text(src, t)) {
                (with_expect(st, Expect::TypeCondition), None)
            } else {
                (with_expect(st, Expect::Selection), None)
            },
            Expect::TypeCondition => (with_expect(st, Expect::Selection), None),
            Expect::AliasedName(a) => (
                with_expect(st, Expect::Selection),
                Some(
                    EventView::Field {
                        alias: Some(spanned_token(src, a)),
                        name: spanned_token(src, t),
                    },
                ),
            ),
            _ => if k + 1 < toks.len() && toks[k + 1].kind == TokenKind::Punctuator(':') {
                (with_expect(st, Expect::AliasColon(t)), None)
            } else {
                (
                    with_expect(st, Expect::Selection),
                    Some(EventView::Field { alias: None, name: spanned_token(src, t) }),
                )
            },
        }
    } else {
        (with_expect(st, Expect::Selection), None)
    }
}

/// The events of a walk over the tokens from index `k` on, in state `st`.
pub open spec fn events_from(src: Seq<char>, toks: Seq<Token>, k: nat, st: ScanState) -> Seq<
    EventView,
>
    decreases toks.len() - k,
{
    if k >= toks.len() {
        Seq::empty()
    } else {
        let (next, ev) = scan_step(src, toks, k as int, st);
        let here = match ev {
            Some(e) => seq![e],
            None => Seq::empty(),
        };
        here + events_from(src, toks, k + 1, next)
    }
}

/// The events of a walk over a whole document.
pub open spec fn document_events(src: Seq<char>) -> Seq<EventView> {
    events_from(src, tokens_of(src), 0, start_state())
}

/// What the lexer guarantees of each token it gives.
pub open spec fn token_fits(src: Seq<char>, t: Token) -> bool {
    &&& t.start < t.end <= src.len()
    &&& t.line == line_at(src, t.start as int)
    &&& t.col == col_at(src, t.start as int)
    &&& t.col <= t.start
    &&& t.kind == crate::lexer::token_kind(src, t.start as int)
}

pub proof fn lemma_tokens_fit(src: Seq<char>, i: nat)
    requires
        src.len() <= usize::MAX,
    ensures
        forall|k: int|
            0 <= k < lex_from(src, i).len() ==> token_fits(src, #[trigger] lex_from(src, i)[k]),
    decreases src.len() - i,
{
    if i < src.len() {
        let s = crate::lexer::skip_ignored(src, i, false);
        if s < src.len() {
            crate::lexer::lemma_skip_ignored_bounds(src, i, false);
            crate::lexer::lemma_token_end_bounds(src, s);
            lemma_line_col_bounded(src, s as int);
            lemma_tokens_fit(src, token_end(src, s));
            let toks = lex_from(src, i);
            assert forall|k: int| 0 <= k < toks.len() implies token_fits(src, #[trigger] toks[k]) by {
                if k == 0 {
                    assert(toks[0] == token_at(src, s));
                } else {
                    assert(toks[k] == lex_from(src, token_end(src, s))[k - 1]);
                }
            }
        }
    }
}

pub proof fn lemma_token_count(src: Seq<char>, i: nat)
    requires
        i <= src.len(),
    ensures
        lex_from(src, i).len() <= src.len() - i,
    decreases src.len() - i,
{
    if i < src.len() {
        let s = crate::lexer::skip_ignored(src, i, false);
        if s < src.len() {
            crate::lexer::lemma_skip_ignored_bounds(src, i, false);
            crate::lexer::lemma_token_end_bounds(src, s);
            lemma_token_count(src, token_end(src, s));
        }
    }
}

/// The characters of `src` from `start` up to `end`, as a string.
pub fn text_between(src: &Vec<char>, start: usize, end: usize) -> (text: String)
    requires
        start <= end <= src@.len(),
    ensures
        text@ == src@.subrange(start as int, end as int),
{
    let mut text = String::new();
    let mut i = start;
    while i < end
        invariant
            start <= i <= end <= src@.len(),
            text@ == src@.subrange(start as int, i as int),
        decreases end - i,
    {
        string_push(&mut text, src[i]);
        assert(text@ =~= src@.subrange(start as int, i + 1));
        i += 1;
    }
    text
}

fn spanned(src: &Vec<char>, t: &Token) -> (sp: Spanning<String>)
    requires
        token_fits(src@, *t),
    ensures
        sp@ == spanned_token(src@, *t),
{
    Spanning {
        item: text_between(src, t.start, t.end),
        start: SourcePosition { index: t.start, line: t.line, col: t.col },
        end: SourcePosition { index: t.end, line: t.line, col: t.col + (t.end - t.start) },
    }
}

fn text_is(src: &Vec<char>, t: &Token, word: &Vec<char>) -> (b: bool)
    requires
        token_fits(src@, *t),
    ensures
        b == (token_text(src@, *t) == word@),
{
    if t.end - t.start != word.len() {
        assert(token_text(src@, *t).len() != word@.len());
        return false;
    }
    let mut i: usize = 0;
    while i < word.len()
        invariant
            t.start < t.end <= src@.len(),
            t.end - t.start == word@.len(),
            i <= word@.len(),
            forall|j: int| 0 <= j < i ==> src@[t.start + j] == word@[j],
        decreases word@.len() - i,
    {
        if src[t.start + i] != word[i] {
            assert(token_text(src@, *t)[i as int] != word@[i as int]);
            return false;
        }
        i += 1;
    }
    assert(token_text(src@, *t) =~= word@);
    true
}

fn is_operation_word(src: &Vec<char>, t: &Token) -> (b: bool)
    requires
        token_fits(src@, *t),
    ensures
        b == is_operation_keyword(token_text(src@, *t)),
{
    let query = vec!['q', 'u', 'e', 'r', 'y'];
    let mutation = vec!['m', 'u', 't', 'a', 't', 'i', 'o', 'n'];
    let subscription = vec!['s', 'u', 'b', 's', 'c', 'r', 'i', 'p', 't', 'i', 'o', 'n'];
    text_is(src, t, &query) || text_is(src, t, &mutation) || text_is(src, t, &subscription)
}

fn is_fragment_word(src: &Vec<char>, t: &Token) -> (b: bool)
    requires
        token_fits(src@, *t),
    ensures
        b == is_fragment_keyword(token_text(src@, *t)),
{
    let fragment = vec!['f', 'r', 'a', 'g', 'm', 'e', 'n', 't'];
    text_is(src, t, &fragment)
}

fn is_on_word(src: &Vec<char>, t: &Token) -> (b: bool)
    requires
        token_fits(src@, *t),
    ensures
        b == is_on_keyword(token_text(src@, *t)),
{
    let on = vec!['o', 'n'];
    text_is(src, t, &on)
}

/// What a walk state promises about the tokens already passed.
pub open spec fn state_fits(toks: Seq<Token>, k: int, st: ScanState) -> bool {
    &&& st.depth <= k
    &&& st.parens <= k
}

pub open spec fn event_view_of(ev: Option<VisitEvent>) -> Option<EventView> {
    match ev {
        Some(e) => Some(e@),
        None => None,
    }
}

fn scan_token(src: &Vec<char>, toks: &Vec<Token>, k: usize, st: ScanState) -> (r: (
    ScanState,
    Option<VisitEvent>,
))
    requires
        k < toks@.len(),
        forall|j: int| 0 <= j < toks@.len() ==> token_fits(src@, #[trigger] toks@[j]),
        state_fits(toks@, k as int, st),
        alias_tokens_named(src@, st),
    ensures
        (r.0, event_view_of(r.1)) == scan_step(src@, toks@, k as int, st),
        state_fits(toks@, k + 1, r.0),
        alias_tokens_named(src@, r.0),
{
    proof {
        vstd::std_specs::vec::axiom_spec_len(toks);
    }
    let t = &toks[k];
    if st.parens > 0 {
        if t.kind == TokenKind::Punctuator('(') {
            (ScanState { parens: st.parens + 1, ..st }, None)
        } else if t.kind == TokenKind::Punctuator(')') {
            (ScanState { parens: st.parens - 1, ..st }, None)
        } else {
            (st, None)
        }
    } else if t.kind == TokenKind::Punctuator('(') {
        (ScanState { parens: 1, expect: Expect::Selection, ..st }, None)
    } else if st.depth == 0 {
        if t.kind == TokenKind::Name {
            if st.in_header {
                (st, None)
            } else if is_operation_word(src, t) {
                (ScanState { in_header: true, ..st }, Some(VisitEvent::EnterOperation))
            } else if is_fragment_word(src, t) {
                (ScanState { in_header: true, ..st }, Some(VisitEvent::EnterFragment))
            } else {
                (st, None)
            }
        } else if t.kind == TokenKind::Punctuator('{') {
            let ev = if st.in_header {
                None
            } else {
                Some(VisitEvent::EnterOperation)
            };
            (ScanState { depth: 1, parens: 0, in_header: false, expect: Expect::Selection }, ev)
        } else {
            (st, None)
        }
    } else if t.kind == TokenKind::Punctuator('{') {
        (ScanState { depth: st.depth + 1, expect: Expect::Selection, ..st }, None)
    } else if t.kind == TokenKind::Punctuator('}') {
        (ScanState { depth: st.depth - 1, expect: Expect::Selection, ..st }, None)
    } else if t.kind == TokenKind::Punctuator('@') {
        (ScanState { expect: Expect::DirectiveName, ..st }, None)
    } else if t.kind == TokenKind::Spread {
        (ScanState { expect: Expect::SpreadTarget, ..st }, None)
    } else if t.kind == TokenKind::Punctuator(':') {
        match st.expect {
            Expect::AliasColon(a) => (ScanState { expect: Expect::AliasedName(a), ..st }, None),
            _ => (ScanState { expect: Expect::Selection, ..st }, None),
        }
    } else if t.kind == TokenKind::Name {
        match st.expect {
            Expect::DirectiveName => (ScanState { expect: Expect::Selection, ..st }, None),
            Expect::SpreadTarget => if is_on_word(src, t) {
                (ScanState { expect: Expect::TypeCondition, ..st }, None)
            } else {
                (ScanState { expect: Expect::Selection, ..st }, None)
            },
            Expect::TypeCondition => (ScanState { expect: Expect::Selection, ..st }, None),
            Expect::AliasedName(a) => {
                let alias = spanned(src, &a);
                let name = spanned(src, t);
                (
                    ScanState { expect: Expect::Selection, ..st },
                    Some(VisitEvent::EnterField(Field { alias: Some(alias), name })),
                )
            },
            _ => if k + 1 < toks.len() && toks[k + 1].kind == TokenKind::Punctuator(':') {
                (ScanState { expect: Expect::AliasColon(*t), ..st }, None)
            } else {
                let name = spanned(src, t);
                (
                    ScanState { expect: Expect::Selection, ..st },
                    Some(VisitEvent::EnterField(Field { alias: None, name })),
                )
            },
        }
    } else {
        (ScanState { expect: Expect::Selection, ..st }, None)
    }
}

/// The events of a walk over a document, from its tokens.
pub fn visit_tokens(src: &Vec<char>, toks: &Vec<Token>) -> (events: Vec<VisitEvent>)
    requires
        toks@ == tokens_of(src@),
    ensures
        crate::visitor::event_views(events@) == events_from(src@, toks@, 0, start_state()),
{
    proof {
        vstd::std_specs::vec::axiom_spec_len(src);
    }
    proof {
        lemma_tokens_fit(src@, 0);
    }
    let mut events: Vec<VisitEvent> = Vec::new();
    let mut st = ScanState { depth: 0, parens: 0, in_header: false, expect: Expect::Selection };
    let mut k: usize = 0;
    while k < toks.len()
        invariant
            k <= toks@.len(),
            forall|j: int| 0 <= j < toks@.len() ==> token_fits(src@, #[trigger] toks@[j]),
            state_fits(toks@, k as int, st),
            alias_tokens_named(src@, st),
            crate::visitor::event_views(events@) + events_from(src@, toks@, k as nat, st)
                == events_from(src@, toks@, 0, start_state()),
        decreases toks@.len() - k,
    {
        let ghost before = crate::visitor::event_views(events@);
        let (next, ev) = scan_token(src, toks, k, st);
        match ev {
            Some(e) => {
                events.push(e);
                assert(crate::visitor::event_views(events@) =~= before.push(e@));
            },
            None => {},
        }
        assert(crate::visitor::event_views(events@) + events_from(src@, toks@, (k + 1) as nat, next)
            =~= before + events_from(src@, toks@, k as nat, st));
        st = next;
        k += 1;
    }
    assert(crate::visitor::event_views(events@) + Seq::<EventView>::empty() =~= crate::visitor::event_views(events@));
    events
}

/// The characters of a text, one by one.
pub fn chars_of(source: &str) -> (chars: Vec<char>)
    ensures
        chars@ == source@,
{
    let mut chars: Vec<char> = Vec::new();
    for c in it: source.chars()
        invariant
            chars@.len() == it.index(),
            forall|i: int| 0 <= i < chars@.len() ==> chars@[i] == it.seq()[i],
    {
        chars.push(c);
    }
    assert(chars@ =~= source@);
    chars
}

/// The events of a walk over a whole document, in document order.
pub fn visit_document(source: &str) -> (events: Vec<VisitEvent>)
    ensures
        crate::visitor::event_views(events@) == document_events(source@),
{
    let chars = chars_of(source);
    let tokens = lex(&chars);
    visit_tokens(&chars, &tokens)
}

/// `a` is written in `src`: its text stands there, it starts at the place
/// its position gives, and it is a name.
pub open spec fn written_at(src: Seq<char>, a: SpannedText) -> bool {
    let i = a.start.index as int;
    &&& i + a.text.len() <= src.len()
    &&& a.text.len() > 0
    &&& src.subrange(i, i + a.text.len()) == a.text
    &&& a.start == crate::position::position_at(src, i)
    &&& crate::lexer::is_name_start(a.text[0])
}

proof fn lemma_step_keeps_state_fit(src: Seq<char>, toks: Seq<Token>, k: int, st: ScanState)
    requires
        0 <= k < toks.len(),
        state_fits(toks, k, st),
    ensures
        state_fits(toks, k + 1, scan_step(src, toks, k, st).0),
{
}

/// The alias a walk state holds is a name token that the lexer could give.
pub open spec fn alias_tokens_named(src: Seq<char>, st: ScanState) -> bool {
    match st.expect {
        Expect::AliasColon(a) => a.kind == TokenKind::Name && token_fits(src, a),
        Expect::AliasedName(a) => a.kind == TokenKind::Name && token_fits(src, a),
        _ => true,
    }
}

proof fn lemma_step_keeps_alias_tokens_named(src: Seq<char>, toks: Seq<Token>, k: int, st: ScanState)
    requires
        0 <= k < toks.len(),
        forall|j: int| 0 <= j < toks.len() ==> token_fits(src, #[trigger] toks[j]),
        alias_tokens_named(src, st),
    ensures
        alias_tokens_named(src, scan_step(src, toks, k, st).0),
{
}

proof fn lemma_name_token_written(src: Seq<char>, t: Token)
    requires
        src.len() <= usize::MAX,
        token_fits(src, t),
        t.kind == TokenKind::Name,
    ensures
        written_at(src, spanned_token(src, t)),
{
    let a = spanned_token(src, t);
    assert(src.subrange(t.start as int, t.start + a.text.len()) =~= a.text);
    assert(a.text[0] == src[t.start as int]);
}

proof fn lemma_events_written(src: Seq<char>, toks: Seq<Token>, k: nat, st: ScanState)
    requires
        src.len() <= usize::MAX,
        toks.len() <= usize::MAX,
        forall|j: int| 0 <= j < toks.len() ==> token_fits(src, #[trigger] toks[j]),
        state_fits(toks, k as int, st),
        alias_tokens_named(src, st),
    ensures
        forall|i: int|
            0 <= i < events_from(src, toks, k, st).len() && (#[trigger] events_from(
                src,
                toks,
                k,
                st,
            )[i]).is_aliased_field() ==> written_at(src, events_from(src, toks, k, st)[i].alias()),
    decreases toks.len() - k,
{
    if k < toks.len() {
        let (next, ev) = scan_step(src, toks, k as int, st);
        lemma_step_keeps_state_fit(src, toks, k as int, st);
        lemma_step_keeps_alias_tokens_named(src, toks, k as int, st);
        lemma_events_written(src, toks, k + 1, next);
        let here = match ev {
            Some(e) => seq![e],
            None => Seq::<EventView>::empty(),
        };
        let all = events_from(src, toks, k, st);
        let rest = events_from(src, toks, k + 1, next);
        assert(all == here + rest);
        if let Expect::AliasedName(a) = st.expect {
            lemma_name_token_written(src, a);
        }
        assert forall|i: int| 0 <= i < all.len() && (#[trigger] all[i]).is_aliased_field() implies written_at(
            src,
            all[i].alias(),
        ) by {
            if i >= here.len() {
                assert(all[i] == rest[i - here.len()]);
            }
        }
    }
}

/// Every aliased field of a document's walk is written in the document: its
/// alias stands at the place its start gives, and is a name.
pub proof fn lemma_document_aliases_are_written(src: Seq<char>)
    requires
        src.len() <= usize::MAX,
    ensures
        forall|i: int|
            0 <= i < document_events(src).len() && (#[trigger] document_events(src)[i]).is_aliased_field()
                ==> written_at(src, document_events(src)[i].alias()),
{
    lemma_tokens_fit(src, 0);
    lemma_token_count(src, 0);
    lemma_events_written(src, tokens_of(src), 0, start_state());
}

/// A walk gives at most one event per token.
pub proof fn lemma_event_count(src: Seq<char>, toks: Seq<Token>, k: nat, st: ScanState)
    requires
        k <= toks.len(),
    ensures
        events_from(src, toks, k, st).len() <= toks.len() - k,
    decreases toks.len() - k,
{
    if k < toks.len() {
        let (next, ev) = scan_step(src, toks, k as int, st);
        lemma_event_count(src, toks, k + 1, next);
    }
}

/// Where the walk stands just before token `k`.
pub open spec fn state_before(src: Seq<char>, toks: Seq<Token>, k: nat) -> ScanState
    decreases k,
{
    if k == 0 {
        start_state()
    } else {
        scan_step(src, toks, k - 1, state_before(src, toks, (k - 1) as nat)).0
    }
}

/// The events the walk gives for the tokens before `k`.
pub open spec fn events_before(src: Seq<char>, toks: Seq<Token>, k: nat) -> Seq<EventView>
    decreases k,
{
    if k == 0 {
        Seq::empty()
    } else {
        let here = match scan_step(src, toks, k - 1, state_before(src, toks, (k - 1) as nat)).1 {
            Some(e) => seq![e],
            None => Seq::empty(),
        };
        events_before(src, toks, (k - 1) as nat) + here
    }
}

/// A field may start at token `k`: the walk is inside a selection set, outside
/// any parentheses, and not in the middle of a directive, a spread or an alias.
pub open spec fn field_expected(src: Seq<char>, toks: Seq<Token>, k: nat) -> bool {
    let st = state_before(src, toks, k);
    &&& st.depth >= 1
    &&& st.parens == 0
    &&& st.expect == Expect::Selection
}

proof fn lemma_events_split(src: Seq<char>, toks: Seq<Token>, k: nat)
    requires
        k <= toks.len(),
    ensures
        events_from(src, toks, 0, start_state()) == events_before(src, toks, k) + events_from(
            src,
            toks,
            k,
            state_before(src, toks, k),
        ),
    decreases k,
{
    if k == 0 {
        assert(Seq::<EventView>::empty() + events_from(src, toks, 0, start_state()) =~= events_from(
            src,
            toks,
            0,
            start_state(),
        ));
    } else {
        let j = (k - 1) as nat;
        lemma_events_split(src, toks, j);
        let st = state_before(src, toks, j);
        let here = match scan_step(src, toks, j as int, st).1 {
            Some(e) => seq![e],
            None => Seq::<EventView>::empty(),
        };
        assert(events_from(src, toks, j, st) == here + events_from(src, toks, k, state_before(src, toks, k)));
        assert(events_before(src, toks, j) + (here + events_from(src, toks, k, state_before(src, toks, k)))
            =~= events_before(src, toks, k) + events_from(src, toks, k, state_before(src, toks, k)));
    }
}

/// Every aliased field written where a field may start is met by the walk:
/// `alias: name` there gives the field event with that alias and that name,
/// each with the place where it is written.
pub proof fn lemma_aliased_fields_are_met(src: Seq<char>, toks: Seq<Token>, k: nat)
    requires
        toks.len() <= usize::MAX,
        k + 2 < toks.len(),
        toks[k as int].kind == TokenKind::Name,
        toks[k + 1int].kind == TokenKind::Punctuator(':'),
        toks[k + 2int].kind == TokenKind::Name,
        field_expected(src, toks, k),
    ensures
        events_from(src, toks, 0, start_state()).contains(
            EventView::Field {
                alias: Some(spanned_token(src, toks[k as int])),
                name: spanned_token(src, toks[k + 2int]),
            },
        ),
{
    lemma_events_split(src, toks, k);
    let st = state_before(src, toks, k);
    let (s1, e1) = scan_step(src, toks, k as int, st);
    assert(s1 == with_expect(st, Expect::AliasColon(toks[k as int])) && e1 is None);
    let (s2, e2) = scan_step(src, toks, k + 1int, s1);
    assert(s2 == with_expect(st, Expect::AliasedName(toks[k as int])) && e2 is None);
    let (s3, e3) = scan_step(src, toks, k + 2int, s2);
    let ev = EventView::Field {
        alias: Some(spanned_token(src, toks[k as int])),
        name: spanned_token(src, toks[k + 2int]),
    };
    assert(e3 == Some(ev));
    let tail = events_from(src, toks, k + 3, s3);
    assert(events_from(src, toks, k + 2, s2) == seq![ev] + tail);
    assert(events_from(src, toks, k + 1, s1) == events_from(src, toks, k + 2, s2));
    assert(events_from(src, toks, k, st) == events_from(src, toks, k + 1, s1));
    let all = events_from(src, toks, 0, start_state());
    let pre = events_before(src, toks, k);
    assert(all == pre + (seq![ev] + tail));
    assert(all[pre.len() as int] == ev);
}

proof fn lemma_state_before_fits(src: Seq<char>, toks: Seq<Token>, k: nat)
    requires
        k <= toks.len(),
    ensures
        state_fits(toks, k as int, state_before(src, toks, k)),
    decreases k,
{
    if k > 0 {
        lemma_state_before_fits(src, toks, (k - 1) as nat);
        lemma_step_keeps_state_fit(src, toks, k - 1, state_before(src, toks, (k - 1) as nat));
    }
}

/// A field may start right after a `{` outside parentheses, and right after a
/// field written as a name alone or as `alias: name` (when no argument list,
/// directive or selection set follows it). So every field of a selection set
/// written that way is met, one after another (`lemma_aliased_fields_are_met`).
pub proof fn lemma_where_fields_may_start(src: Seq<char>, toks: Seq<Token>, k: nat)
    requires
        toks.len() <= usize::MAX,
        k < toks.len(),
    ensures
        toks[k as int].kind == TokenKind::Punctuator('{') && state_before(src, toks, k).parens == 0
            ==> field_expected(src, toks, k + 1),
        field_expected(src, toks, k) && toks[k as int].kind == TokenKind::Name && !(k + 1
            < toks.len() && toks[k + 1int].kind == TokenKind::Punctuator(':')) ==> field_expected(
            src,
            toks,
            k + 1,
        ),
        field_expected(src, toks, k) && k + 2 < toks.len() && toks[k as int].kind == TokenKind::Name
            && toks[k + 1int].kind == TokenKind::Punctuator(':') && toks[k + 2int].kind
            == TokenKind::Name ==> field_expected(src, toks, k + 3),
{
    lemma_state_before_fits(src, toks, k);
    let st = state_before(src, toks, k);
    assert(state_before(src, toks, k + 1) == scan_step(src, toks, k as int, st).0);
    if field_expected(src, toks, k) && k + 2 < toks.len() && toks[k as int].kind == TokenKind::Name
        && toks[k + 1int].kind == TokenKind::Punctuator(':') && toks[k + 2int].kind
        == TokenKind::Name {
        let s1 = scan_step(src, toks, k as int, st).0;
        let s2 = scan_step(src, toks, k + 1int, s1).0;
        assert(state_before(src, toks, k + 2) == s2);
        assert(state_before(src, toks, k + 3) == scan_step(src, toks, k + 2int, s2).0);
    }
}

/// A directive written after a field leaves the walk where a field may start
/// again: after `@name` the next field is met as usual (so an alias written
/// right after the directive is counted), and after `@name(` the walk reads
/// the directive's arguments, to come back to the selection set once they close.
pub proof fn lemma_fields_may_follow_directives(src: Seq<char>, toks: Seq<Token>, k: nat)
    requires
        toks.len() <= usize::MAX,
        k + 1 < toks.len(),
        field_expected(src, toks, k),
        toks[k as int].kind == TokenKind::Punctuator('@'),
        toks[k + 1int].kind == TokenKind::Name,
    ensures
        field_expected(src, toks, k + 2),
        state_before(src, toks, k + 2).depth == state_before(src, toks, k).depth,
        k + 2 < toks.len() && toks[k + 2int].kind == TokenKind::Punctuator('(') ==> {
            let st = state_before(src, toks, k + 3);
            &&& st.parens == 1
            &&& st.depth == state_before(src, toks, k).depth
            &&& st.expect == Expect::Selection
        },
{
    lemma_state_before_fits(src, toks, k);
    let st = state_before(src, toks, k);
    let s1 = scan_step(src, toks, k as int, st).0;
    assert(state_before(src, toks, k + 1) == s1);
    assert(s1 == with_expect(st, Expect::DirectiveName));
    let s2 = scan_step(src, toks, k + 1int, s1).0;
    assert(state_before(src, toks, k + 2) == s2);
    assert(s2 == with_expect(st, Expect::Selection));
    if k + 2 < toks.len() {
        assert(state_before(src, toks, k + 3) == scan_step(src, toks, k + 2int, s2).0);
    }
}

/// A field may start again after each other piece of a selection set: after a
/// fragment spread `...Name`, after the head `... on Type {` of an inline
/// fragment (one level deeper), after a `}` that closes a nested selection set
/// (one level up), and after an argument list once its last `)` closes, when
/// the list was opened right after a field's name.
pub proof fn lemma_fields_may_follow_selections(src: Seq<char>, toks: Seq<Token>, k: nat)
    requires
        toks.len() <= usize::MAX,
        k < toks.len(),
    ensures
        field_expected(src, toks, k) && k + 1 < toks.len() && toks[k as int].kind == TokenKind::Spread
            && toks[k + 1int].kind == TokenKind::Name && !is_on_keyword(
            token_text(src, toks[k + 1int]),
        ) ==> field_expected(src, toks, k + 2),
        field_expected(src, toks, k) && k + 3 < toks.len() && toks[k as int].kind == TokenKind::Spread
            && toks[k + 1int].kind == TokenKind::Name && is_on_keyword(
            token_text(src, toks[k + 1int]),
        ) && toks[k + 2int].kind == TokenKind::Name && toks[k + 3int].kind
            == TokenKind::Punctuator('{') ==> field_expected(src, toks, k + 4) && state_before(
            src,
            toks,
            k + 4,
        ).depth == state_before(src, toks, k).depth + 1,
        state_before(src, toks, k).depth >= 2 && state_before(src, toks, k).parens == 0
            && toks[k as int].kind == TokenKind::Punctuator('}') ==> field_expected(src, toks, k + 1)
            && state_before(src, toks, k + 1).depth == state_before(src, toks, k).depth - 1,
        field_expected(src, toks, k) && k + 1 < toks.len() && toks[k as int].kind == TokenKind::Name
            && toks[k + 1int].kind == TokenKind::Punctuator('(') ==> ({
            let st = state_before(src, toks, k + 2);
            &&& st.parens == 1
            &&& st.depth == state_before(src, toks, k).depth
            &&& st.expect == Expect::Selection
        }),
        state_before(src, toks, k).depth >= 1 && state_before(src, toks, k).parens == 1
            && state_before(src, toks, k).expect == Expect::Selection && toks[k as int].kind
            == TokenKind::Punctuator(')') ==> field_expected(src, toks, k + 1),
{
    lemma_state_before_fits(src, toks, k);
    let st = state_before(src, toks, k);
    let s1 = scan_step(src, toks, k as int, st).0;
    assert(state_before(src, toks, k + 1) == s1);
    if k + 1 < toks.len() {
        let s2 = scan_step(src, toks, k + 1int, s1).0;
        assert(state_before(src, toks, k + 2) == s2);
        if k + 3 < toks.len() {
            let s3 = scan_step(src, toks, k + 2int, s2).0;
            assert(state_before(src, toks, k + 3) == s3);
            assert(state_before(src, toks, k + 4) == scan_step(src, toks, k + 3int, s3).0);
        }
    }
}

/// Outside every definition, a definition is met where it starts: the word
/// `query`, `mutation` or `subscription` starts an operation, `fragment`
/// starts a fragment, and a bare `{` starts an operation; the `{` that opens
/// the selection set of a definition (after its head) starts nothing more,
/// and in both cases a field may start right after it.
pub proof fn lemma_definitions_are_met(src: Seq<char>, toks: Seq<Token>, k: nat)
    requires
        toks.len() <= usize::MAX,
        k < toks.len(),
        state_before(src, toks, k).depth == 0,
        state_before(src, toks, k).parens == 0,
    ensures
        !state_before(src, toks, k).in_header && toks[k as int].kind == TokenKind::Name
            && is_operation_keyword(token_text(src, toks[k as int])) ==> scan_step(
            src,
            toks,
            k as int,
            state_before(src, toks, k),
        ).1 == Some(EventView::Operation) && state_before(src, toks, k + 1).in_header,
        !state_before(src, toks, k).in_header && toks[k as int].kind == TokenKind::Name
            && is_fragment_keyword(token_text(src, toks[k as int])) ==> scan_step(
            src,
            toks,
            k as int,
            state_before(src, toks, k),
        ).1 == Some(EventView::Fragment) && state_before(src, toks, k + 1).in_header,
        toks[k as int].kind == TokenKind::Punctuator('{') ==> scan_step(
            src,
            toks,
            k as int,
            state_before(src, toks, k),
        ).1 == (if state_before(src, toks, k).in_header {
            None
        } else {
            Some(EventView::Operation)
        }) && field_expected(src, toks, k + 1) && state_before(src, toks, k + 1).depth == 1,
{
    assert(state_before(src, toks, k + 1) == scan_step(src, toks, k as int, state_before(src, toks, k)).0);
}

} // verus!
