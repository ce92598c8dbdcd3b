use vstd::prelude::*;
use crate::position::SourcePosition;

verus! {

/// An error found by a validation rule: a message and the places it refers to.
#[derive(Clone, Debug, PartialEq, Eq)]
pub struct RuleError {
    pub locations: Vec<SourcePosition>,
    pub message: String,
}

/// What a `RuleError` says, as mathematical values.
pub struct ErrorView {
    pub message: Seq<char>,
    pub locations: Seq<SourcePosition>,
}

impl View for RuleError {
    type V = ErrorView;

    open spec fn view(&self) -> ErrorView {
        ErrorView { message: self.message@, locations: self.locations@ }
    }
}

impl RuleError {
    pub fn new(message: &str, locations: &[SourcePosition]) -> (e: RuleError)
        ensures
            e@.message == message@,
            e@.locations == locations@,
    {
        RuleError { locations: vstd::slice::slice_to_vec(locations), message: message.to_owned() }
    }
}

/// The state a validation pass carries from rule to rule: the errors reported so far.
pub struct ValidatorContext {
    errors: Vec<RuleError>,
}

impl ValidatorContext {
    /// The errors reported so far, in the order they were reported.
    pub closed spec fn reported(&self) -> Seq<ErrorView> {
        self.errors@.map_values(|e: RuleError| e@)
    }

    pub fn new() -> (ctx: ValidatorContext)
        ensures
            ctx.reported() == Seq::<ErrorView>::empty(),
    {
        ValidatorContext { errors: Vec::new() }
    }

    /// Records an error with the given message and places.
    pub fn report_error(&mut self, message: &str, locations: &[SourcePosition])
        ensures
            final(self).reported() == old(self).reported().push(
                ErrorView { message: message@, locations: locations@ },
            ),
    {
        let e = RuleError::new(message, locations);
        self.errors.push(e);
        proof {
            assert(self.errors@.map_values(|e: RuleError| e@) =~= old(self).reported().push(
                ErrorView { message: message@, locations: locations@ },
            ));
        }
    }

    /// Hands out the errors reported so far.
    pub fn into_errors(self) -> (errors: Vec<RuleError>)
        ensures
            errors@.map_values(|e: RuleError| e@) == self.reported(),
    {
        self.errors
    }
}

} // verus!
