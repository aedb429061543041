//! The state of a text input: its text, kept in a rope, and whether it is
//! disabled.
use ropey::Rope;
use vstd::prelude::*;

verus! {

/// A text rope of the `ropey` crate.
#[verifier::external_type_specification]
#[verifier::external_body]
pub struct ExRope(Rope);

/// The characters a rope holds, in order.
pub uninterp spec fn rope_chars(r: Rope) -> Seq<char>;

/// Calls `Rope::new`, which makes a rope that holds no text.
#[verifier::external_body]
fn rope_new() -> (r: Rope)
    ensures
        rope_chars(r) == Seq::<char>::empty(),
{
    Rope::new()
}

/// What a text input holds: its text and whether it takes edits.
#[derive(Debug)]
pub struct InputState {
    pub text: Rope,
    pub disabled: bool,
}

impl InputState {
    /// An enabled input with no text.
    pub fn new() -> (s: InputState)
        ensures
            rope_chars(s.text) == Seq::<char>::empty(),
            !s.disabled,
    {
        InputState { text: rope_new(), disabled: false }
    }
}

} // verus!
