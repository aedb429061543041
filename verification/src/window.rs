use std::any::TypeId;
use std::marker::PhantomData;

use vstd::prelude::*;

use crate::geometry::Rect;

verus! {

/// The identity of a Rust type, as `std::any::TypeId` gives it.
#[verifier::external_type_specification]
#[verifier::external_body]
pub struct ExTypeId(TypeId);

/// Calls `std::any::TypeId::of::<T>()`. Nothing is claimed of the result
/// beyond its existence: which value a type receives is up to the compiler.
#[verifier::external_body]
pub(crate) fn type_id_of<T: 'static + ?Sized>() -> (r: TypeId) {
    TypeId::of::<T>()
}

/// A colour of a terminal cell. Channels are kept as given; a terminal shows
/// their low eight bits.
#[derive(Debug, Clone, Copy, PartialEq, Eq, Structural)]
pub enum Color {
    Default,
    Rgb { r: u16, g: u16, b: u16 },
    Rgba { r: u16, g: u16, b: u16, a: u16 },
}

/// White, the foreground of a blank cell.
pub open spec fn white() -> Color {
    Color::Rgb { r: 255, g: 255, b: 255 }
}

pub fn color_white() -> (c: Color)
    ensures
        c == white(),
{
    Color::Rgb { r: 255, g: 255, b: 255 }
}

/// A colour as a terminal takes it: the terminal's own default, or eight bits
/// per channel.
#[derive(Debug, Clone, Copy, PartialEq, Eq, Structural)]
pub enum TerminalColor {
    Reset,
    Rgb { r: u8, g: u8, b: u8 },
}

/// The low eight bits of a channel.
pub open spec fn low_byte(v: u16) -> u8 {
    (v % 256) as u8
}

pub open spec fn spec_terminal_color(c: Color) -> TerminalColor {
    match c {
        Color::Default => TerminalColor::Reset,
        Color::Rgb { r, g, b } => TerminalColor::Rgb { r: low_byte(r), g: low_byte(g), b: low_byte(b) },
        Color::Rgba { r, g, b, a } => TerminalColor::Rgb {
            r: low_byte(r),
            g: low_byte(g),
            b: low_byte(b),
        },
    }
}

/// Only the default colour becomes the terminal's reset; every other colour
/// is sent as red, green and blue, each channel taken modulo 256, with the
/// alpha of `Rgba` dropped.
pub proof fn lemma_terminal_color_channels(c: Color)
    ensures
        (spec_terminal_color(c) == TerminalColor::Reset) <==> (c == Color::Default),
        c matches Color::Rgb { r, g, b } ==> spec_terminal_color(c) == (TerminalColor::Rgb {
            r: (r % 256) as u8,
            g: (g % 256) as u8,
            b: (b % 256) as u8,
        }),
        c matches Color::Rgba { r, g, b, a } ==> spec_terminal_color(c) == (TerminalColor::Rgb {
            r: (r % 256) as u8,
            g: (g % 256) as u8,
            b: (b % 256) as u8,
        }),
{
}

fn to_byte(v: u16) -> (b: u8)
    ensures
        b == low_byte(v),
{
    (v % 256) as u8
}

impl Color {
    /// The colour a terminal is told to use: `Default` resets, the alpha of
    /// `Rgba` is dropped, and each channel keeps its low eight bits.
    pub fn to_terminal(self) -> (t: TerminalColor)
        ensures
            t == spec_terminal_color(self),
    {
        match self {
            Color::Default => TerminalColor::Reset,
            Color::Rgb { r, g, b } => TerminalColor::Rgb { r: to_byte(r), g: to_byte(g), b: to_byte(b) },
            Color::Rgba { r, g, b, a: _ } => TerminalColor::Rgb {
                r: to_byte(r),
                g: to_byte(g),
                b: to_byte(b),
            },
        }
    }
}

/// The key of a window, as the application's window table hands it out.
#[derive(Debug, Clone, Copy, PartialEq, Eq, Structural)]
pub struct WindowId(pub u64);

/// A window's key together with the type of its root view.
#[derive(Debug, Clone, Copy)]
pub struct AnyWindowHandle {
    pub window_id: WindowId,
    pub ty: TypeId,
}

impl AnyWindowHandle {
    /// A handle for the window `window_id` whose root view has type `W`.
    pub fn new<W: 'static>(window_id: WindowId) -> (h: AnyWindowHandle)
        ensures
            h.window_id == window_id,
    {
        AnyWindowHandle { window_id, ty: type_id_of::<W>() }
    }
}

/// A window handle that remembers the type `W` of its root view.
#[derive(Debug)]
pub struct WindowHandle<W> {
    pub handle: AnyWindowHandle,
    pub marker: PhantomData<W>,
}

impl<W> WindowHandle<W> {
    pub fn new(window_id: WindowId) -> (h: WindowHandle<W>)
        where
            W: 'static,
        ensures
            h.handle.window_id == window_id,
    {
        WindowHandle { handle: AnyWindowHandle::new::<W>(window_id), marker: PhantomData }
    }

    /// The handle without its view type.
    pub fn any_handle(&self) -> (h: AnyWindowHandle)
        ensures
            h == self.handle,
    {
        self.handle
    }
}

impl<W> Clone for WindowHandle<W> {
    fn clone(&self) -> (h: Self)
        ensures
            h == *self,
    {
        WindowHandle { handle: self.handle, marker: PhantomData }
    }
}

impl<W> Copy for WindowHandle<W> {}

/// What a new window is opened with.
#[derive(Debug, Clone, Copy)]
pub struct WindowConfig {
    pub bounds: Rect,
}

impl WindowConfig {
    /// A window that covers a terminal of the given size, from its corner.
    pub fn for_terminal_size(width: u16, height: u16) -> (c: WindowConfig)
        ensures
            c.bounds == (Rect { x: 0, y: 0, width, height }),
    {
        WindowConfig { bounds: Rect { x: 0, y: 0, width, height } }
    }
}

} // verus!
