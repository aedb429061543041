//! A small terminal user-interface toolkit: rectangles of cells, a
//! double-buffered frame of cells, keyboard input, the dispatch tree that
//! routes key events to listeners, text drawing, and the planning of
//! terminal output.
pub mod frame;
pub mod frame_laws;
pub mod geometry;
pub mod input;
pub mod interactive;
pub mod key_dispatch;
pub mod terminal;
pub mod terminal_laws;
pub mod text;
pub mod update;
pub mod window;

pub use frame::{DrawOp, Frame, FrameCell};
pub use geometry::Rect;
pub use input::InputState;
pub use interactive::{
    FocusBehavior, InputEvent, KeyDownEvent, KeyEvent, KeyEventKind, KeyInput, KeyUpEvent, KeyboardEvent,
    Keystroke, PlatformInput,
};
pub use key_dispatch::{
    DispatchNode, DispatchNodeId, DispatchPath, DispatchPhase, DispatchTree, FocusId, KeyContext,
};
pub use terminal::TerminalCommand;
pub use text::{ElementExt, Empty, Text};
pub use update::UpdateCycle;
pub use window::{AnyWindowHandle, Color, TerminalColor, WindowConfig, WindowHandle, WindowId};
