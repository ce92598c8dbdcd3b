use vstd::prelude::*;
use crate::position::SourcePosition;
use crate::document::{document_events, visit_document};
use crate::validation::{ErrorView, RuleError, ValidatorContext};
use crate::visitor::{event_views, EventView, Field, VisitEvent};
use crate::alias_laws::{aliases_since_operation, lemma_count_is_aliases_since_operation};

verus! {

/// The rule's state: how many aliased fields the current operation has shown
/// so far, and how many it may hold.
pub struct Aliases {
    alias_count: u32,
    max_allowed: u32,
}

impl Aliases {
    /// How many aliased fields the current operation has shown so far.
    pub closed spec fn count(&self) -> nat {
        self.alias_count as nat
    }

    /// How many aliased fields an operation may hold.
    pub closed spec fn max_allowed(&self) -> nat {
        self.max_allowed as nat
    }
}

/// A fresh rule: no alias counted yet, three allowed per operation.
pub fn factory() -> (rule: Aliases)
    ensures
        rule.count() == 0,
        rule.max_allowed() == 3,
{
    Aliases { alias_count: 0, max_allowed: 3 }
}

/// The text of the error reported for an alias beyond the limit.
pub open spec fn error_text(alias_name: Seq<char>) -> Seq<char> {
    "Illegal number of aliases, "@ + alias_name + " is not allowed"@
}

/// The error reported for an alias beyond the limit.
pub open spec fn alias_error(alias_name: Seq<char>, start: SourcePosition) -> ErrorView {
    ErrorView { message: error_text(alias_name), locations: seq![start] }
}

/// The message for an alias beyond the limit:
/// `Illegal number of aliases, <alias> is not allowed`.
pub fn error_message(alias_name: &str) -> (msg: String)
    ensures
        msg@ == error_text(alias_name@),
{
    let msg = String::from_str("Illegal number of aliases, ");
    let msg = msg.concat(alias_name);
    msg.concat(" is not allowed")
}

impl Aliases {
    /// A new operation starts: its aliases are counted from zero.
    pub fn enter_operation_definition(&mut self)
        ensures
            final(self).count() == 0,
            final(self).max_allowed() == old(self).max_allowed(),
    {
        self.alias_count = 0;
    }

    /// A field is met. An aliased field is counted; once the count passes the
    /// limit, each further aliased field is reported at the start of its alias.
    pub fn enter_field(&mut self, ctx: &mut ValidatorContext, field: &Field)
        requires
            field.alias is Some ==> old(self).count() < u32::MAX,
        ensures
            final(self).max_allowed() == old(self).max_allowed(),
            field.alias is None ==> {
                &&& final(self).count() == old(self).count()
                &&& final(ctx).reported() == old(ctx).reported()
            },
            field.alias matches Some(alias) ==> {
                &&& final(self).count() == old(self).count() + 1
                &&& final(ctx).reported() == if final(self).count() > old(self).max_allowed() {
                    old(ctx).reported().push(alias_error(alias.item@, alias.start))
                } else {
                    old(ctx).reported()
                }
            },
    {
        if let Some(alias) = &field.alias {
            self.alias_count += 1;
            if self.alias_count > self.max_allowed {
                let msg = error_message(alias.item.as_str());
                let locations = vec![alias.start];
                assert(locations@ == seq![alias.start]);
                ctx.report_error(msg.as_str(), locations.as_slice());
            }
        }
    }
}

/// The errors the rule reports over a walk that meets `events`, when `count`
/// aliases of the current operation are already counted and `max` are allowed.
pub open spec fn alias_errors(events: Seq<EventView>, count: nat, max: nat) -> Seq<ErrorView>
    decreases events.len(),
{
    if events.len() == 0 {
        Seq::empty()
    } else {
        let rest = events.drop_first();
        match events[0] {
            EventView::Operation => alias_errors(rest, 0, max),
            EventView::Fragment => alias_errors(rest, count, max),
            EventView::Field { alias, .. } => match alias {
                None => alias_errors(rest, count, max),
                Some(a) => {
                    let reported = if count + 1 > max {
                        seq![alias_error(a.text, a.start)]
                    } else {
                        Seq::empty()
                    };
                    reported + alias_errors(rest, count + 1, max)
                },
            },
        }
    }
}

/// The rule's count after a walk that meets `events`, starting from `count`.
pub open spec fn count_after(events: Seq<EventView>, count: nat) -> nat
    decreases events.len(),
{
    if events.len() == 0 {
        count
    } else {
        let rest = events.drop_first();
        if events[0] is Operation {
            count_after(rest, 0)
        } else if events[0].is_aliased_field() {
            count_after(rest, count + 1)
        } else {
            count_after(rest, count)
        }
    }
}

/// Whether the count stays within `u32` over a walk that meets `events`,
/// starting from `count`: no operation holds 2^32 or more aliases.
pub open spec fn counts_fit(events: Seq<EventView>, count: nat) -> bool
    decreases events.len(),
{
    if events.len() == 0 {
        true
    } else {
        let rest = events.drop_first();
        if events[0] is Operation {
            counts_fit(rest, 0)
        } else if events[0].is_aliased_field() {
            count + 1 <= u32::MAX && counts_fit(rest, count + 1)
        } else {
            counts_fit(rest, count)
        }
    }
}

impl Aliases {
    /// Feeds the rule every event of a walk, in order.
    pub fn visit_all(&mut self, ctx: &mut ValidatorContext, events: &Vec<VisitEvent>)
        requires
            counts_fit(event_views(events@), old(self).count()),
        ensures
            final(self).max_allowed() == old(self).max_allowed(),
            final(self).count() == count_after(event_views(events@), old(self).count()),
            final(self).count() == aliases_since_operation(event_views(events@), old(self).count()),
            final(ctx).reported() == old(ctx).reported() + alias_errors(
                event_views(events@),
                old(self).count(),
                old(self).max_allowed(),
            ),
    {
        let ghost max = self.max_allowed();
        let ghost views = event_views(events@);
        let mut i: usize = 0;
        assert(views.skip(0) =~= views);
        while i < events.len()
            invariant
                i <= events@.len(),
                views == event_views(events@),
                self.max_allowed() == max,
                max == old(self).max_allowed(),
                counts_fit(views.skip(i as int), self.count()),
                count_after(views.skip(i as int), self.count()) == count_after(
                    views,
                    old(self).count(),
                ),
                ctx.reported() + alias_errors(views.skip(i as int), self.count(), max)
                    == old(ctx).reported() + alias_errors(views, old(self).count(), max),
            decreases events@.len() - i,
        {
            let ghost rest = views.skip(i as int);
            let ghost before = ctx.reported();
            let ghost c = self.count();
            assert(rest.drop_first() =~= views.skip(i + 1));
            assert(rest[0] == events@[i as int]@);
            match &events[i] {
                VisitEvent::EnterOperation => {
                    self.enter_operation_definition();
                },
                VisitEvent::EnterFragment => {},
                VisitEvent::EnterField(f) => {
                    self.enter_field(ctx, f);
                },
            }
            assert(ctx.reported() + alias_errors(rest.drop_first(), self.count(), max)
                =~= before + alias_errors(rest, c, max));
            i += 1;
        }
        assert(views.skip(i as int) =~= Seq::<EventView>::empty());
        proof {
            lemma_count_is_aliases_since_operation(views, old(self).count());
        }
    }
}

/// Runs the rule over a whole document and gives the errors it reports, in
/// document order.
pub fn validate_document(rule: Aliases, source: &str) -> (errors: Vec<RuleError>)
    requires
        counts_fit(document_events(source@), rule.count()),
    ensures
        errors@.map_values(|e: RuleError| e@) == alias_errors(
            document_events(source@),
            rule.count(),
            rule.max_allowed(),
        ),
{
    let events = visit_document(source);
    let ghost start = rule;
    let mut rule = rule;
    let mut ctx = ValidatorContext::new();
    rule.visit_all(&mut ctx, &events);
    assert(ctx.reported() =~= alias_errors(
        document_events(source@),
        start.count(),
        start.max_allowed(),
    ));
    ctx.into_errors()
}

} // verus!
