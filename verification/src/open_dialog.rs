//! The optional URL fields of the desktop player's "open" dialog.

use vstd::prelude::*;

verus! {

/// A text field for a URL that may be left out: its text, whether the text
/// failed to parse, whether the field is switched on, and the example shown
/// while it is empty.
pub struct OptionalUrlField {
    pub value: String,
    pub error: bool,
    pub enabled: bool,
    pub hint: &'static str,
}

impl OptionalUrlField {
    /// A field holding the text of `default` and switched on, or empty and
    /// switched off when there is no default.
    pub fn new(default: Option<String>, hint: &'static str) -> (r: Self)
        ensures
            !r.error,
            r.enabled == default.is_some(),
            r.hint == hint,
            default matches Some(d) ==> r.value@ == d@,
            default is None ==> r.value@ == Seq::<char>::empty(),
    {
        if let Some(default) = default {
            Self { value: default, error: false, enabled: true, hint }
        } else {
            Self { value: String::new(), error: false, enabled: false, hint }
        }
    }

    /// The text parsed (or the field is empty).
    pub fn is_valid(&self) -> (r: bool)
        ensures
            r == !self.error,
    {
        !self.error
    }
}

} // verus!
