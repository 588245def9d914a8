//! Labels: where a value came from, and who may see it.

use vstd::prelude::*;

verus! {

/// What is known of a value's origin and audience.
#[derive(Debug, Clone, Copy, PartialEq, Eq, Structural)]
pub struct Label {
    /// Whether the value may decide what happens next.
    pub trusted: bool,
    /// Whether the value may be shown to anyone.
    pub public: bool,
}

impl Label {
    /// The label of remote content: it is not ours to trust, and not ours to keep secret.
    pub open spec fn spec_untrusted_public() -> Label {
        Label { trusted: false, public: true }
    }

    /// The label of remote content: it is not ours to trust, and not ours to keep secret.
    pub fn untrusted_public() -> (r: Label)
        ensures
            r == Label::spec_untrusted_public(),
    {
        Label { trusted: false, public: true }
    }
}

/// That a value may be shown to the user, as the policy authorised and recorded it.
pub struct DisplayRelease {
    /// What is shown.
    pub reason: String,
}

/// A value that carries its label with it.
pub struct Labelled<T> {
    value: T,
    label: Label,
}

impl<T> Labelled<T> {
    /// The value behind the label.
    pub closed spec fn spec_value(self) -> T {
        self.value
    }

    /// The label.
    pub closed spec fn spec_label(self) -> Label {
        self.label
    }

    /// Put a value under a label.
    pub fn new(value: T, label: Label) -> (r: Self)
        ensures
            r.spec_value() == value,
            r.spec_label() == label,
    {
        Labelled { value, label }
    }

    /// The label.
    pub fn label(&self) -> (r: Label)
        ensures
            r == self.spec_label(),
    {
        self.label
    }

    /// The value and its label, apart. For decoding a transport envelope, which needs the raw
    /// bytes: what comes out of it goes under the same label again.
    pub fn into_parts_for_decoding(self) -> (r: (T, Label))
        ensures
            r.0 == self.spec_value(),
            r.1 == self.spec_label(),
    {
        (self.value, self.label)
    }

    /// The value behind the label, for a caller that was authorised to release it.
    pub fn declassify(&self, _proof: &DisplayRelease) -> (r: &T)
        ensures
            *r == self.spec_value(),
    {
        &self.value
    }
}

/// Remote content is neither ours to trust nor ours to keep secret.
pub proof fn law_remote_content_is_untrusted_and_public()
    ensures
        !Label::spec_untrusted_public().trusted,
        Label::spec_untrusted_public().public,
{
}

} // verus!
