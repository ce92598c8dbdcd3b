use vstd::prelude::*;
use crate::lexer::tokens_of;
use crate::validation::ErrorView;
use crate::limit_number_of_aliases::{counts_fit, alias_error, alias_errors, count_after};
use crate::document::{document_events, lemma_event_count, lemma_token_count, start_state, lemma_document_aliases_are_written, written_at};
use crate::visitor::{EventView, SpannedText};
use crate::position::{lemma_line_col_bounded, lemma_places_are_distinct, position_at};

verus! {

/// The number of aliased fields among `events`.
pub open spec fn aliased_count(events: Seq<EventView>) -> nat
    decreases events.len(),
{
    if events.len() == 0 {
        0
    } else if events[0].is_aliased_field() {
        1 + aliased_count(events.drop_first())
    } else {
        aliased_count(events.drop_first())
    }
}

/// Whether `events` starts no new operation.
pub open spec fn within_one_operation(events: Seq<EventView>) -> bool {
    forall|k: int| 0 <= k < events.len() ==> !(#[trigger] events[k] is Operation)
}

/// Operations are judged apart: what the rule reports for a walk that goes on
/// into a new operation is what it reports up to that operation, followed by
/// what it reports for the new operation from a fresh count, whatever the count
/// was before.
pub proof fn lemma_operations_are_independent(
    first: Seq<EventView>,
    next: Seq<EventView>,
    count: nat,
    other_count: nat,
    max: nat,
)
    requires
        next.len() > 0,
        next[0] is Operation,
    ensures
        alias_errors(first + next, count, max) == alias_errors(first, count, max) + alias_errors(
            next,
            0,
            max,
        ),
        alias_errors(next, other_count, max) == alias_errors(next, 0, max),
    decreases first.len(),
{
    if first.len() == 0 {
        assert(first + next =~= next);
    } else {
        assert((first + next).drop_first() =~= first.drop_first() + next);
        if first[0] is Operation {
            lemma_operations_are_independent(first.drop_first(), next, 0, other_count, max);
        } else if first[0].is_aliased_field() {
            lemma_operations_are_independent(first.drop_first(), next, count + 1, other_count, max);
            let a = first[0].alias();
            let reported = if count + 1 > max {
                seq![alias_error(a.text, a.start)]
            } else {
                Seq::empty()
            };
            assert(reported + (alias_errors(first.drop_first(), count + 1, max) + alias_errors(
                next,
                0,
                max,
            )) =~= (reported + alias_errors(first.drop_first(), count + 1, max)) + alias_errors(
                next,
                0,
                max,
            ));
        } else {
            lemma_operations_are_independent(first.drop_first(), next, count, other_count, max);
        }
    }
}

/// A field written without an alias, or the start of a fragment, changes
/// nothing: taking it out of a walk leaves the reports as they were.
pub proof fn lemma_unaliased_events_change_nothing(
    before: Seq<EventView>,
    event: EventView,
    after: Seq<EventView>,
    count: nat,
    max: nat,
)
    requires
        !event.is_aliased_field(),
        !(event is Operation),
    ensures
        alias_errors(before + seq![event] + after, count, max) == alias_errors(
            before + after,
            count,
            max,
        ),
    decreases before.len(),
{
    if before.len() == 0 {
        assert(before + seq![event] + after =~= seq![event] + after);
        assert((seq![event] + after).drop_first() =~= after);
        assert(before + after =~= after);
    } else {
        assert((before + seq![event] + after).drop_first() =~= before.drop_first() + seq![event]
            + after);
        assert((before + after).drop_first() =~= before.drop_first() + after);
        if before[0] is Operation {
            lemma_unaliased_events_change_nothing(before.drop_first(), event, after, 0, max);
        } else if before[0].is_aliased_field() {
            lemma_unaliased_events_change_nothing(before.drop_first(), event, after, count + 1, max);
        } else {
            lemma_unaliased_events_change_nothing(before.drop_first(), event, after, count, max);
        }
    }
}

/// Within one operation, with `count` aliases already counted, `n` more
/// aliased fields and a limit of `max`: the aliases numbered up to the limit
/// pass, and each one past it is reported once, so the number of reports is
/// `count + n - max(count, max)` when `count + n` passes the limit, else none.
/// The count then stands at `count + n`.
pub proof fn lemma_reports_in_one_operation(events: Seq<EventView>, count: nat, max: nat)
    requires
        within_one_operation(events),
    ensures
        alias_errors(events, count, max).len() == if count + aliased_count(events) > max {
            (count + aliased_count(events) - if count > max {
                count
            } else {
                max
            }) as nat
        } else {
            0
        },
        count_after(events, count) == count + aliased_count(events),
    decreases events.len(),
{
    if events.len() > 0 {
        let rest = events.drop_first();
        assert(within_one_operation(rest)) by {
            assert forall|k: int| 0 <= k < rest.len() implies !(#[trigger] rest[k] is Operation) by {
                assert(rest[k] == events[k + 1]);
            }
        }
        assert(!(events[0] is Operation));
        if events[0].is_aliased_field() {
            lemma_reports_in_one_operation(rest, count + 1, max);
        } else {
            lemma_reports_in_one_operation(rest, count, max);
        }
    }
}

/// `e` is the report for one of the aliased fields among `events`.
pub open spec fn names_aliased_field(events: Seq<EventView>, e: ErrorView) -> bool {
    exists|k: int|
        0 <= k < events.len() && events[k].is_aliased_field() && e == alias_error(
            events[k].alias().text,
            events[k].alias().start,
        )
}

/// Every report names an aliased field of the walk: its message is the one for
/// that field's alias, and its one place is where that alias starts.
pub proof fn lemma_reports_name_aliased_fields(events: Seq<EventView>, count: nat, max: nat)
    ensures
        forall|i: int|
            0 <= i < alias_errors(events, count, max).len() ==> names_aliased_field(
                events,
                #[trigger] alias_errors(events, count, max)[i],
            ),
    decreases events.len(),
{
    if events.len() > 0 {
        let rest = events.drop_first();
        let next_count = if events[0] is Operation {
            0
        } else if events[0].is_aliased_field() {
            count + 1
        } else {
            count
        };
        lemma_reports_name_aliased_fields(rest, next_count, max);
        let errs = alias_errors(events, count, max);
        let tail = alias_errors(rest, next_count, max);
        let head: Seq<ErrorView> = if events[0].is_aliased_field() && count + 1 > max {
            seq![alias_error(events[0].alias().text, events[0].alias().start)]
        } else {
            Seq::empty()
        };
        assert(errs =~= head + tail);
        let head_len = head.len() as int;
        assert forall|i: int| 0 <= i < errs.len() implies names_aliased_field(events, #[trigger] errs[i]) by {
            if i < head_len {
                assert(errs[i] == alias_error(events[0].alias().text, events[0].alias().start));
            } else {
                assert(errs[i] == tail[i - head_len]);
                assert(names_aliased_field(rest, tail[i - head_len]));
                let k = choose|k: int|
                    0 <= k < rest.len() && rest[k].is_aliased_field() && tail[i - head_len]
                        == alias_error(rest[k].alias().text, rest[k].alias().start);
                assert(events[k + 1] == rest[k]);
            }
        }
    }
}

/// `e` is the report for an alias written in `src`.
pub open spec fn points_at_alias(src: Seq<char>, e: ErrorView) -> bool {
    exists|a: SpannedText| written_at(src, a) && e == alias_error(a.text, a.start)
}

/// Over a whole document, every report points at an alias written in the
/// document: the message names that alias, and the one place given is where
/// the alias starts (its character index, line and column).
pub proof fn lemma_document_reports_point_at_aliases(src: Seq<char>, count: nat, max: nat)
    requires
        src.len() <= usize::MAX,
    ensures
        forall|i: int|
            0 <= i < alias_errors(document_events(src), count, max).len() ==> points_at_alias(
                src,
                #[trigger] alias_errors(document_events(src), count, max)[i],
            ),
{
    let events = document_events(src);
    lemma_reports_name_aliased_fields(events, count, max);
    lemma_document_aliases_are_written(src);
    let errs = alias_errors(events, count, max);
    assert forall|i: int| 0 <= i < errs.len() implies points_at_alias(src, #[trigger] errs[i]) by {
        assert(names_aliased_field(events, errs[i]));
        let k = choose|k: int|
            0 <= k < events.len() && events[k].is_aliased_field() && errs[i] == alias_error(
                events[k].alias().text,
                events[k].alias().start,
            );
        let a = events[k].alias();
        assert(written_at(src, a));
        assert(written_at(src, a) && errs[i] == alias_error(a.text, a.start));
    }
}

/// Over a whole document, each report gives the place of an index of the
/// document (its line and column are those of that index), so two reports that
/// give the same line and the same column give the same index.
pub proof fn lemma_report_places_are_positions(src: Seq<char>, count: nat, max: nat)
    requires
        src.len() <= usize::MAX,
    ensures
        forall|i: int|
            0 <= i < alias_errors(document_events(src), count, max).len() ==> {
                let p = (#[trigger] alias_errors(document_events(src), count, max)[i]).locations[0];
                &&& p.index <= src.len()
                &&& p == position_at(src, p.index as int)
            },
        forall|i: int, j: int|
            0 <= i < alias_errors(document_events(src), count, max).len() && 0 <= j
                < alias_errors(document_events(src), count, max).len() && (#[trigger] alias_errors(
                document_events(src),
                count,
                max,
            )[i]).locations[0].line == (#[trigger] alias_errors(document_events(src), count, max)[j]).locations[0].line
                && alias_errors(document_events(src), count, max)[i].locations[0].col
                == alias_errors(document_events(src), count, max)[j].locations[0].col
                ==> alias_errors(document_events(src), count, max)[i].locations[0].index
                == alias_errors(document_events(src), count, max)[j].locations[0].index,
{
    let errs = alias_errors(document_events(src), count, max);
    lemma_document_reports_point_at_aliases(src, count, max);
    assert forall|i: int| 0 <= i < errs.len() implies {
        let p = (#[trigger] errs[i]).locations[0];
        &&& p.index <= src.len()
        &&& p == position_at(src, p.index as int)
    } by {
        assert(points_at_alias(src, errs[i]));
        let a = choose|a: SpannedText| written_at(src, a) && errs[i] == alias_error(a.text, a.start);
        assert(errs[i].locations[0] == a.start);
    }
    assert forall|i: int, j: int|
        0 <= i < errs.len() && 0 <= j < errs.len() && (#[trigger] errs[i]).locations[0].line
            == (#[trigger] errs[j]).locations[0].line && errs[i].locations[0].col
            == errs[j].locations[0].col implies errs[i].locations[0].index
        == errs[j].locations[0].index by {
        let p = errs[i].locations[0];
        let q = errs[j].locations[0];
        let pi = p.index as int;
        let qi = q.index as int;
        lemma_line_col_bounded(src, pi);
        lemma_line_col_bounded(src, qi);
        if pi != qi {
            lemma_places_are_distinct(src, pi, qi);
        }
    }
}

/// The count cannot overflow over a walk of fewer events than the room left
/// in a `u32`.
pub proof fn lemma_short_walks_fit(events: Seq<EventView>, count: nat)
    requires
        count + events.len() <= u32::MAX,
    ensures
        counts_fit(events, count),
    decreases events.len(),
{
    if events.len() > 0 {
        let rest = events.drop_first();
        if events[0] is Operation {
            lemma_short_walks_fit(rest, 0);
        } else if events[0].is_aliased_field() {
            lemma_short_walks_fit(rest, count + 1);
        } else {
            lemma_short_walks_fit(rest, count);
        }
    }
}

/// A document of at most `u32::MAX` characters meets the demand of
/// `validate_document` for a fresh rule: no operation of it can hold 2^32
/// aliases.
pub proof fn lemma_short_documents_fit(src: Seq<char>)
    requires
        src.len() <= u32::MAX,
    ensures
        counts_fit(document_events(src), 0),
{
    lemma_token_count(src, 0);
    lemma_event_count(src, tokens_of(src), 0, start_state());
    lemma_short_walks_fit(document_events(src), 0);
}

/// The number of aliased fields met since the last start of an operation in
/// `events`; when `events` starts no operation, `count` plus all its aliased
/// fields.
pub open spec fn aliases_since_operation(events: Seq<EventView>, count: nat) -> nat
    decreases events.len(),
{
    if events.len() == 0 {
        count
    } else if events.last() is Operation {
        0
    } else if events.last().is_aliased_field() {
        aliases_since_operation(events.drop_last(), count) + 1
    } else {
        aliases_since_operation(events.drop_last(), count)
    }
}

/// The count after one more event, from the count before it.
proof fn lemma_count_after_push(events: Seq<EventView>, e: EventView, count: nat)
    ensures
        count_after(events.push(e), count) == if e is Operation {
            0
        } else if e.is_aliased_field() {
            count_after(events, count) + 1
        } else {
            count_after(events, count)
        },
    decreases events.len(),
{
    reveal_with_fuel(count_after, 2);
    assert(events.push(e)[0] == if events.len() == 0 { e } else { events[0] });
    if events.len() == 0 {
        assert(events.push(e).drop_first() =~= Seq::<EventView>::empty());
    } else {
        assert(events.push(e).drop_first() =~= events.drop_first().push(e));
        let next = if events[0] is Operation {
            0
        } else if events[0].is_aliased_field() {
            count + 1
        } else {
            count
        };
        lemma_count_after_push(events.drop_first(), e, next);
    }
}

/// After any sequence of calls, the rule's count is the number of aliased
/// fields met since the last operation started, or since the rule was made
/// (with the count it was made with) when no operation has started.
pub proof fn lemma_count_is_aliases_since_operation(events: Seq<EventView>, count: nat)
    ensures
        count_after(events, count) == aliases_since_operation(events, count),
    decreases events.len(),
{
    if events.len() > 0 {
        let init = events.drop_last();
        lemma_count_is_aliases_since_operation(init, count);
        lemma_count_after_push(init, events.last(), count);
        assert(init.push(events.last()) =~= events);
    }
}

/// What the rule reports at the `k`-th event of a walk: the report for the
/// alias, when the event is an aliased field whose number among the aliased
/// fields of its operation (counting itself) passes `max`; else nothing.
pub open spec fn report_at(events: Seq<EventView>, count: nat, max: nat, k: int) -> Seq<ErrorView> {
    if events[k].is_aliased_field() && aliases_since_operation(events.take(k + 1), count) > max {
        seq![alias_error(events[k].alias().text, events[k].alias().start)]
    } else {
        Seq::empty()
    }
}

/// The reports of a walk are, in the order of the walk, one for each aliased
/// field whose number among the aliased fields of its operation passes the
/// limit, and nothing else.
pub proof fn lemma_reports_are_fields_past_the_limit(events: Seq<EventView>, count: nat, max: nat)
    ensures
        alias_errors(events, count, max) == Seq::new(
            events.len(),
            |k: int| report_at(events, count, max, k),
        ).flatten(),
    decreases events.len(),
{
    if events.len() > 0 {
        let rest = events.drop_first();
        let next = if events[0] is Operation {
            0
        } else if events[0].is_aliased_field() {
            count + 1
        } else {
            count
        };
        lemma_reports_are_fields_past_the_limit(rest, next, max);
        let whole = Seq::new(events.len(), |k: int| report_at(events, count, max, k));
        let tail = Seq::new(rest.len(), |k: int| report_at(rest, next, max, k));
        assert forall|k: int| 0 <= k < rest.len() implies #[trigger] whole.drop_first()[k]
            == tail[k] by {
            lemma_count_is_aliases_since_operation(events.take(k + 2), count);
            lemma_count_is_aliases_since_operation(rest.take(k + 1), next);
            assert(events.take(k + 2).drop_first() =~= rest.take(k + 1));
            assert(events.take(k + 2)[0] == events[0]);
            assert(events[k + 1] == rest[k]);
        }
        assert(whole.drop_first() =~= tail);
        lemma_count_is_aliases_since_operation(events.take(1), count);
        assert(events.take(1).drop_first() =~= Seq::<EventView>::empty());
        assert(count_after(events.take(1), count) == next) by {
            reveal_with_fuel(count_after, 2);
        }
        assert(events.take(1)[0] == events[0]);
        assert(whole.first() == report_at(events, count, max, 0));
        let head: Seq<ErrorView> = if events[0].is_aliased_field() && count + 1 > max {
            seq![alias_error(events[0].alias().text, events[0].alias().start)]
        } else {
            Seq::empty()
        };
        assert(whole.first() == head);
        assert(alias_errors(events, count, max) == head + alias_errors(rest, next, max));
    }
}

/// A walk that starts one operation and no other (fragments may follow):
/// with `n` aliased fields in it, the rule reports nothing when `n` is at most
/// the limit, and else one error for each aliased field after the limit,
/// `n - max` in all, whatever the count was before.
pub proof fn lemma_one_operation_reports(events: Seq<EventView>, count: nat, max: nat)
    requires
        events.len() > 0,
        events[0] is Operation,
        within_one_operation(events.drop_first()),
    ensures
        alias_errors(events, count, max).len() == if aliased_count(events) > max {
            (aliased_count(events) - max) as nat
        } else {
            0
        },
        alias_errors(events, count, max).len() == 0 <==> aliased_count(events) <= max,
{
    lemma_reports_in_one_operation(events.drop_first(), 0, max);
}

/// A document whose walk starts one operation and no other: with `n` aliased
/// fields in it, validating it reports nothing when `n` is at most the limit,
/// and else `n - max` errors, one for each aliased field after the limit.
pub proof fn lemma_one_operation_document(src: Seq<char>, count: nat, max: nat)
    requires
        document_events(src).len() > 0,
        document_events(src)[0] is Operation,
        within_one_operation(document_events(src).drop_first()),
    ensures
        alias_errors(document_events(src), count, max).len() == if aliased_count(
            document_events(src),
        ) > max {
            (aliased_count(document_events(src)) - max) as nat
        } else {
            0
        },
{
    lemma_one_operation_reports(document_events(src), count, max);
}

} // verus!
