use dene::terminal::{FrameBuffers, draw_commands, flush_commands};
use dene::{Color, Frame, FrameCell, TerminalColor, TerminalCommand, Text, UpdateCycle, WindowConfig};
use dene::{AnyWindowHandle, ElementExt, Empty, Rect, WindowHandle, WindowId};

fn red(s: &str) -> FrameCell {
    FrameCell { symbol: s.to_string(), fg: Color::Rgb { r: 255, g: 0, b: 0 }, bg: Color::Default }
}

fn describe(cmds: &[TerminalCommand]) -> Vec<String> {
    cmds.iter()
        .map(|c| match c {
            TerminalCommand::MoveTo(x, y) => format!("move {} {}", x, y),
            TerminalCommand::ClearAll => "clear".to_string(),
            TerminalCommand::SetColors { fg, bg } => format!("colors {:?} {:?}", fg, bg),
            TerminalCommand::Print(s) => format!("print {}", s),
            TerminalCommand::Flush => "flush".to_string(),
        })
        .collect()
}

#[test]
fn flush_of_equal_frames_does_nothing() {
    let a = Frame::new(3, 3);
    let b = Frame::new(3, 3);
    assert!(flush_commands(&a, &b).is_empty());
}

#[test]
fn flush_moves_only_when_the_cursor_is_elsewhere() {
    let a = Frame::new(4, 2);
    let mut b = Frame::new(4, 2);
    b.set_cell(1, 0, red("a"));
    b.set_cell(2, 0, red("b"));
    b.set_cell(0, 1, red("c"));
    let got = describe(&flush_commands(&a, &b));
    let colors = "colors Rgb { r: 255, g: 0, b: 0 } Reset";
    assert_eq!(
        got,
        vec![
            "move 1 0".to_string(),
            colors.to_string(),
            "print a".to_string(),
            colors.to_string(),
            "print b".to_string(),
            "move 0 1".to_string(),
            colors.to_string(),
            "print c".to_string(),
            "flush".to_string(),
        ]
    );
}

#[test]
fn draw_commands_redraw_everything() {
    let mut f = Frame::new(2, 1);
    f.set_cell(1, 0, red("z"));
    let got = describe(&draw_commands(&f));
    let white = "colors Rgb { r: 255, g: 255, b: 255 } Reset";
    assert_eq!(
        got,
        vec![
            "move 0 0".to_string(),
            "clear".to_string(),
            "move 0 0".to_string(),
            white.to_string(),
            "print  ".to_string(),
            "colors Rgb { r: 255, g: 0, b: 0 } Reset".to_string(),
            "print z".to_string(),
            "flush".to_string(),
        ]
    );
}

#[test]
fn color_to_terminal_keeps_low_bytes() {
    assert_eq!(Color::Default.to_terminal(), TerminalColor::Reset);
    assert_eq!(Color::Rgb { r: 300, g: 1, b: 256 }.to_terminal(), TerminalColor::Rgb { r: 44, g: 1, b: 0 });
    assert_eq!(Color::Rgba { r: 1, g: 2, b: 3, a: 9 }.to_terminal(), TerminalColor::Rgb { r: 1, g: 2, b: 3 });
}

#[test]
fn text_lines_and_size() {
    assert_eq!(Text::new("ab\r\ncd\n".to_string()).content_size(), (7, 2));
    assert_eq!(Text::new(String::new()).content_size(), (0, 0));
    assert_eq!(Text::new("x\r".to_string()).content_size(), (2, 1));
    assert_eq!(Text::new("\n\n".to_string()).content_size(), (2, 2));
    assert_eq!(Text::new("é".to_string()).content_size(), (2, 1));
}

#[test]
fn text_render_draws_lines_within_the_height() {
    let mut f = Frame::new(4, 4);
    let t = Text::new("ab\r\ncd\nef".to_string());
    t.render(Rect::new(1, 1, 3, 2), &mut f);
    assert_eq!(f.get_cell(1, 1).symbol, "a");
    assert_eq!(f.get_cell(2, 1).symbol, "b");
    assert_eq!(f.get_cell(3, 1).symbol, " ");
    assert_eq!(f.get_cell(1, 2).symbol, "c");
    assert_eq!(f.get_cell(2, 2).symbol, "d");
    assert_eq!(f.get_cell(1, 3).symbol, " ");
    assert_eq!(f.get_cell(1, 1).fg, Color::Rgb { r: 255, g: 255, b: 255 });
}

#[test]
fn text_render_keeps_a_lone_carriage_return() {
    let mut f = Frame::new(3, 1);
    Text::new("a\rb".to_string()).render(Rect::new(0, 0, 3, 1), &mut f);
    assert_eq!(f.get_cell(1, 0).symbol, "\r");
    assert_eq!(f.get_cell(2, 0).symbol, "b");
}

#[test]
fn update_cycle_flushes_only_the_outermost_update() {
    let mut c = UpdateCycle::new();
    c.begin_update();
    c.begin_update();
    assert!(!c.start_finish());
    c.end_finish(false);
    assert!(c.start_finish());
    assert!(c.flushing_effects);
    c.begin_update();
    assert!(!c.start_finish());
    c.end_finish(false);
    c.end_finish(true);
    assert_eq!(c, UpdateCycle::new());
}

#[test]
fn window_handles() {
    struct Root;
    let h: WindowHandle<Root> = WindowHandle::new(WindowId(42));
    let any: AnyWindowHandle = h.any_handle();
    assert_eq!(any.window_id, WindowId(42));
    assert_eq!(any.ty, std::any::TypeId::of::<Root>());
    let copy = h;
    assert_eq!(copy.handle.window_id, h.clone().handle.window_id);
    let plain = AnyWindowHandle::new::<u8>(WindowId(1));
    assert_eq!(plain.ty, std::any::TypeId::of::<u8>());
    assert_eq!(WindowConfig::for_terminal_size(80, 24).bounds, Rect::new(0, 0, 80, 24));
}

#[test]
fn frame_buffers_diff_against_a_blank_frame() {
    let mut buffers = FrameBuffers::new(Rect::new(0, 0, 3, 1));
    let mut frame = buffers.begin_render(Rect::new(0, 0, 3, 1));
    assert_eq!(frame.size(), (3, 1));
    frame.set_cell(2, 0, red("k"));
    let got = describe(&buffers.finish_render(frame));
    assert_eq!(
        got,
        vec![
            "move 2 0".to_string(),
            "colors Rgb { r: 255, g: 0, b: 0 } Reset".to_string(),
            "print k".to_string(),
            "flush".to_string(),
        ]
    );
    assert_eq!(buffers.prev_frame.get_cell(2, 0).symbol, "k");
    assert_eq!(buffers.current_frame.get_cell(2, 0).symbol, " ");
    let again = buffers.begin_render(Rect::new(0, 0, 5, 2));
    assert_eq!(again.size(), (3, 1));
    assert_eq!(buffers.current_frame.size(), (5, 2));
}

#[test]
fn element_ext_map_and_when() {
    assert_eq!(Empty.map(|_| 6), 6);
    let longer = Text::new("a".to_string()).when(true, |t| Text::new(t.text + "b"));
    assert_eq!(longer.text, "ab");
    let same = Text::new("a".to_string()).when(false, |t| Text::new(t.text + "b"));
    assert_eq!(same.text, "a");
    assert_eq!(Empty.when(true, |e| e), Empty);
}
