use vstd::prelude::*;
use crate::position::SourcePosition;

verus! {

/// A value together with the places where its text starts and ends.
pub struct Spanning<T> {
    pub item: T,
    pub start: SourcePosition,
    pub end: SourcePosition,
}

/// A piece of text with the places where it starts and ends.
pub struct SpannedText {
    pub text: Seq<char>,
    pub start: SourcePosition,
    pub end: SourcePosition,
}

impl View for Spanning<String> {
    type V = SpannedText;

    open spec fn view(&self) -> SpannedText {
        SpannedText { text: self.item@, start: self.start, end: self.end }
    }
}

/// A field of a selection set: its optional alias and its name.
pub struct Field {
    pub alias: Option<Spanning<String>>,
    pub name: Spanning<String>,
}

/// What a walk over a document meets, in document order.
pub enum VisitEvent {
    /// The start of an operation definition (`query`, `mutation`,
    /// `subscription`, or a bare selection set).
    EnterOperation,
    /// The start of a fragment definition.
    EnterFragment,
    /// A field, at any depth of nesting.
    EnterField(Field),
}

/// A `VisitEvent` as mathematical values.
pub enum EventView {
    Operation,
    Fragment,
    Field { alias: Option<SpannedText>, name: SpannedText },
}

pub open spec fn alias_view(alias: Option<Spanning<String>>) -> Option<SpannedText> {
    match alias {
        Some(a) => Some(a@),
        None => None,
    }
}

impl View for VisitEvent {
    type V = EventView;

    open spec fn view(&self) -> EventView {
        match self {
            VisitEvent::EnterOperation => EventView::Operation,
            VisitEvent::EnterFragment => EventView::Fragment,
            VisitEvent::EnterField(f) => EventView::Field { alias: alias_view(f.alias), name: f.name@ },
        }
    }
}

/// The views of a sequence of events.
pub open spec fn event_views(events: Seq<VisitEvent>) -> Seq<EventView> {
    events.map_values(|e: VisitEvent| e@)
}

impl EventView {
    /// Whether this event is a field written with an alias.
    pub open spec fn is_aliased_field(self) -> bool {
        self matches EventView::Field { alias, .. } && alias is Some
    }

    /// The alias of an aliased field.
    pub open spec fn alias(self) -> SpannedText
        recommends
            self.is_aliased_field(),
    {
        self->alias->Some_0
    }
}

} // verus!
