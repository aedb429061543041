use vstd::prelude::*;

verus! {

/// A keystroke in its written form, such as `ctrl-q` or `shift-a`.
#[derive(Debug)]
pub struct Keystroke {
    pub text: String,
}

impl View for Keystroke {
    type V = Seq<char>;

    open spec fn view(&self) -> Seq<char> {
        self.text@
    }
}

impl Keystroke {
    pub fn new(text: String) -> (k: Keystroke)
        ensures
            k@ == text@,
    {
        Keystroke { text }
    }
}

impl Clone for Keystroke {
    fn clone(&self) -> (r: Self)
        ensures
            r == *self,
    {
        Keystroke { text: self.text.clone() }
    }
}

impl PartialEq for Keystroke {
    fn eq(&self, other: &Self) -> (r: bool) {
        self.text == other.text
    }
}

impl vstd::std_specs::cmp::PartialEqSpecImpl for Keystroke {
    open spec fn obeys_eq_spec() -> bool {
        true
    }

    open spec fn eq_spec(&self, other: &Keystroke) -> bool {
        self@ == other@
    }
}

/// A key was pressed, or is held and repeats.
#[derive(Debug)]
pub struct KeyDownEvent {
    pub keystroke: Keystroke,
    pub is_held: bool,
}

/// A key was released.
#[derive(Debug)]
pub struct KeyUpEvent {
    pub keystroke: Keystroke,
}

impl Clone for KeyDownEvent {
    fn clone(&self) -> (r: Self)
        ensures
            r == *self,
    {
        KeyDownEvent { keystroke: self.keystroke.clone(), is_held: self.is_held }
    }
}

impl Clone for KeyUpEvent {
    fn clone(&self) -> (r: Self)
        ensures
            r == *self,
    {
        KeyUpEvent { keystroke: self.keystroke.clone() }
    }
}

/// An input event as the platform delivers it.
#[derive(Debug)]
pub enum PlatformInput {
    KeyDown(KeyDownEvent),
    KeyUp(KeyUpEvent),
    MouseButtonDown(()),
    MouseButtonUp(()),
    MouseMove(()),
}

impl Clone for PlatformInput {
    fn clone(&self) -> (r: Self)
        ensures
            r == *self,
    {
        match self {
            PlatformInput::KeyDown(e) => PlatformInput::KeyDown(e.clone()),
            PlatformInput::KeyUp(e) => PlatformInput::KeyUp(e.clone()),
            PlatformInput::MouseButtonDown(()) => PlatformInput::MouseButtonDown(()),
            PlatformInput::MouseButtonUp(()) => PlatformInput::MouseButtonUp(()),
            PlatformInput::MouseMove(()) => PlatformInput::MouseMove(()),
        }
    }
}

/// The keyboard event that an input carries.
#[derive(Debug)]
pub enum KeyboardEvent<'a> {
    Down(&'a KeyDownEvent),
    Up(&'a KeyUpEvent),
}

impl PlatformInput {
    pub open spec fn is_keyboard(&self) -> bool {
        self is KeyDown || self is KeyUp
    }

    /// The keyboard event of a key input; `None` for a mouse input.
    pub fn keyboard_event(&self) -> (r: Option<KeyboardEvent<'_>>)
        ensures
            r is Some <==> self.is_keyboard(),
            self matches PlatformInput::KeyDown(e) ==> r == Some(KeyboardEvent::Down(&e)),
            self matches PlatformInput::KeyUp(e) ==> r == Some(KeyboardEvent::Up(&e)),
    {
        match self {
            PlatformInput::KeyDown(event) => Some(KeyboardEvent::Down(event)),
            PlatformInput::KeyUp(event) => Some(KeyboardEvent::Up(event)),
            PlatformInput::MouseButtonDown(..) | PlatformInput::MouseButtonUp(..)
            | PlatformInput::MouseMove(..) => None,
        }
    }

    /// The payload of a mouse input; `None` for a key input.
    pub fn mouse_event(&self) -> (r: Option<&()>)
        ensures
            r is Some <==> !self.is_keyboard(),
    {
        match self {
            PlatformInput::KeyDown(..) | PlatformInput::KeyUp(..) => None,
            PlatformInput::MouseButtonDown(event) => Some(event),
            PlatformInput::MouseButtonUp(event) => Some(event),
            PlatformInput::MouseMove(event) => Some(event),
        }
    }
}

/// An event that can be delivered as a platform input.
pub trait InputEvent: Sized {
    fn to_platform_event(self) -> PlatformInput;
}

/// An input event that comes from the keyboard.
pub trait KeyEvent: InputEvent {}

impl InputEvent for PlatformInput {
    fn to_platform_event(self) -> (r: PlatformInput)
        ensures
            r == self,
    {
        self
    }
}

impl InputEvent for KeyDownEvent {
    fn to_platform_event(self) -> (r: PlatformInput)
        ensures
            r == PlatformInput::KeyDown(self),
    {
        PlatformInput::KeyDown(self)
    }
}

impl KeyEvent for KeyDownEvent {}

impl InputEvent for KeyUpEvent {
    fn to_platform_event(self) -> (r: PlatformInput)
        ensures
            r == PlatformInput::KeyUp(self),
    {
        PlatformInput::KeyUp(self)
    }
}

impl KeyEvent for KeyUpEvent {}

/// The modifier bits of a terminal key event.
pub const MODIFIER_SHIFT: u8 = 0b0000_0001;

pub const MODIFIER_CONTROL: u8 = 0b0000_0010;

pub const MODIFIER_ALT: u8 = 0b0000_0100;

pub const MODIFIER_SUPER: u8 = 0b0000_1000;

pub const MODIFIER_HYPER: u8 = 0b0001_0000;

pub const MODIFIER_META: u8 = 0b0010_0000;

/// How a terminal reports a key.
#[derive(Debug, Clone, Copy, PartialEq, Eq, Structural)]
pub enum KeyEventKind {
    Press,
    Repeat,
    Release,
}

/// A key event as a terminal reports it: the modifier bits held, the name
/// the terminal gives the key, whether the key is back-tab, and its kind.
#[derive(Debug)]
pub struct KeyInput {
    pub modifiers: u8,
    pub code: String,
    pub is_back_tab: bool,
    pub kind: KeyEventKind,
}

/// The prefix that names the modifiers of a key: one modifier held alone
/// gives its name; any other combination gives none.
pub open spec fn modifier_prefix(modifiers: u8) -> Seq<char> {
    if modifiers == MODIFIER_SHIFT {
        "shift-"@
    } else if modifiers == MODIFIER_CONTROL {
        "ctrl-"@
    } else if modifiers == MODIFIER_ALT {
        "alt-"@
    } else if modifiers == MODIFIER_META || modifiers == MODIFIER_SUPER || modifiers
        == MODIFIER_HYPER {
        "meta-"@
    } else {
        Seq::empty()
    }
}

/// The written form of a key event: the modifier prefix, then `tab` for
/// back-tab and the key's name otherwise.
pub open spec fn spec_keystroke_text(input: KeyInput) -> Seq<char> {
    modifier_prefix(input.modifiers) + if input.is_back_tab {
        "tab"@
    } else {
        input.code@
    }
}

/// A keystroke is named with a modifier only when exactly one modifier is
/// held: shift (bit 1), control (bit 2), alt (bit 4), and super (bit 8),
/// hyper (bit 16) or meta (bit 32), all three written `meta-`. With no
/// modifier, or with two or more held together, it is the key's name alone
/// (`tab` for back-tab).
pub proof fn lemma_keystroke_prefix(input: KeyInput)
    ensures
        ({
            let key = if input.is_back_tab {
                "tab"@
            } else {
                input.code@
            };
            let m = input.modifiers;
            &&& m == 1 ==> spec_keystroke_text(input) == "shift-"@ + key
            &&& m == 2 ==> spec_keystroke_text(input) == "ctrl-"@ + key
            &&& m == 4 ==> spec_keystroke_text(input) == "alt-"@ + key
            &&& (m == 8 || m == 16 || m == 32) ==> spec_keystroke_text(input) == "meta-"@ + key
            &&& (m != 1 && m != 2 && m != 4 && m != 8 && m != 16 && m != 32)
                ==> spec_keystroke_text(input) == key
        }),
{
    let key = if input.is_back_tab {
        "tab"@
    } else {
        input.code@
    };
    assert(Seq::<char>::empty() + key =~= key);
}

impl KeyInput {
    /// The written form of the keystroke.
    pub fn keystroke_text(&self) -> (s: String)
        ensures
            s@ == spec_keystroke_text(*self),
    {
        let mut s = String::new();
        proof {
            reveal_strlit("shift-");
            reveal_strlit("ctrl-");
            reveal_strlit("alt-");
            reveal_strlit("meta-");
            reveal_strlit("tab");
        }
        if self.modifiers == MODIFIER_SHIFT {
            s.append("shift-");
        }
        if self.modifiers == MODIFIER_CONTROL {
            s.append("ctrl-");
        }
        if self.modifiers == MODIFIER_ALT {
            s.append("alt-");
        }
        if self.modifiers == MODIFIER_META || self.modifiers == MODIFIER_SUPER || self.modifiers
            == MODIFIER_HYPER {
            s.append("meta-");
        }
        if self.is_back_tab {
            s.append("tab");
        } else {
            s.append(self.code.as_str());
        }
        proof {
            assert(s@ =~= spec_keystroke_text(*self));
        }
        s
    }

    /// The platform input for this key event: a press is a fresh key-down,
    /// a repeat a held key-down, a release a key-up; each carries the
    /// keystroke in its written form.
    pub fn to_platform_input(&self) -> (p: PlatformInput)
        ensures
            match self.kind {
                KeyEventKind::Press => p matches PlatformInput::KeyDown(e) && e.keystroke@
                    == spec_keystroke_text(*self) && !e.is_held,
                KeyEventKind::Repeat => p matches PlatformInput::KeyDown(e) && e.keystroke@
                    == spec_keystroke_text(*self) && e.is_held,
                KeyEventKind::Release => p matches PlatformInput::KeyUp(e) && e.keystroke@
                    == spec_keystroke_text(*self),
            },
    {
        let keystroke = Keystroke::new(self.keystroke_text());
        match self.kind {
            KeyEventKind::Press => PlatformInput::KeyDown(KeyDownEvent { keystroke, is_held: false }),
            KeyEventKind::Repeat => PlatformInput::KeyDown(KeyDownEvent { keystroke, is_held: true }),
            KeyEventKind::Release => PlatformInput::KeyUp(KeyUpEvent { keystroke }),
        }
    }
}

/// How an element takes part in focus: whether it can be focused, its
/// place in the tab order, and whether tabbing stops at it.
#[derive(Debug, Clone, Copy, PartialEq, Eq, Structural)]
pub struct FocusBehavior {
    pub focusable: bool,
    pub tab_index: Option<u32>,
    pub tab_stop: bool,
}

impl FocusBehavior {
    /// Not focusable, outside the tab order.
    pub fn new() -> (b: FocusBehavior)
        ensures
            b == (FocusBehavior { focusable: false, tab_index: None, tab_stop: false }),
    {
        FocusBehavior { focusable: false, tab_index: None, tab_stop: false }
    }

    /// The element tracks a focus handle, and so can be focused.
    pub fn track_focus(self) -> (b: FocusBehavior)
        ensures
            b == (FocusBehavior { focusable: true, ..self }),
    {
        FocusBehavior { focusable: true, ..self }
    }

    /// The element takes the given place in the tab order: it can be
    /// focused and tabbing stops at it.
    pub fn tab_index(self, tab_index: u32) -> (b: FocusBehavior)
        ensures
            b == (FocusBehavior { focusable: true, tab_index: Some(tab_index), tab_stop: true }),
    {
        FocusBehavior { focusable: true, tab_index: Some(tab_index), tab_stop: true }
    }

    /// Whether tabbing stops at the element.
    pub fn tab_stop(self, tab_stop: bool) -> (b: FocusBehavior)
        ensures
            b == (FocusBehavior { tab_stop, ..self }),
    {
        FocusBehavior { tab_stop, ..self }
    }
}

impl Default for FocusBehavior {
    fn default() -> (b: FocusBehavior)
        ensures
            b == (FocusBehavior { focusable: false, tab_index: None, tab_stop: false }),
    {
        FocusBehavior::new()
    }
}

} // verus!