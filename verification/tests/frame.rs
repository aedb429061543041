use dene::{Color, DrawOp, Frame, FrameCell};

fn blank() -> FrameCell {
    FrameCell::default()
}

fn cell(s: &str) -> FrameCell {
    FrameCell { symbol: s.to_string(), fg: Color::Rgb { r: 1, g: 2, b: 3 }, bg: Color::Default }
}

#[test]
fn frame_new_is_blank() {
    let f = Frame::new(3, 2);
    assert_eq!(f.size(), (3, 2));
    for y in 0..2 {
        for x in 0..3 {
            assert_eq!(*f.get_cell(x, y), blank());
        }
    }
    assert_eq!(blank().symbol, " ");
    assert_eq!(blank().fg, Color::Rgb { r: 255, g: 255, b: 255 });
    assert_eq!(blank().bg, Color::Default);
}

#[test]
fn frame_get_outside_has_no_symbol() {
    let f = Frame::new(3, 2);
    let c = f.get_cell(3, 0);
    assert_eq!(c.symbol, "");
    assert_eq!(c.fg, Color::Rgb { r: 255, g: 255, b: 255 });
    assert_eq!(c.bg, Color::Default);
    assert_eq!(*f.get_cell(0, 2), FrameCell::outside());
}

#[test]
fn frame_set_then_get() {
    let mut f = Frame::new(4, 3);
    f.set_cell(2, 1, cell("x"));
    assert_eq!(*f.get_cell(2, 1), cell("x"));
    assert_eq!(*f.get_cell(1, 2), blank());
    assert_eq!(*f.get_cell(2, 0), blank());
}

#[test]
fn frame_set_outside_does_nothing() {
    let mut f = Frame::new(2, 2);
    f.set_cell(2, 0, cell("x"));
    f.set_cell(0, 5, cell("x"));
    for y in 0..2 {
        for x in 0..2 {
            assert_eq!(*f.get_cell(x, y), blank());
        }
    }
}

#[test]
fn frame_write_string_clips_at_right_edge() {
    let mut f = Frame::new(5, 2);
    f.write_string(3, 1, "héllo", Color::Default, Color::Rgb { r: 0, g: 0, b: 0 });
    assert_eq!(f.get_cell(3, 1).symbol, "h");
    assert_eq!(f.get_cell(4, 1).symbol, "é");
    assert_eq!(f.get_cell(4, 1).fg, Color::Default);
    assert_eq!(f.get_cell(4, 1).bg, Color::Rgb { r: 0, g: 0, b: 0 });
    assert_eq!(*f.get_cell(2, 1), blank());
    assert_eq!(*f.get_cell(3, 0), blank());
}

#[test]
fn frame_write_string_off_the_frame() {
    let mut f = Frame::new(3, 1);
    f.write_string(0, 1, "abc", Color::Default, Color::Default);
    f.write_string(3, 0, "abc", Color::Default, Color::Default);
    for x in 0..3 {
        assert_eq!(*f.get_cell(x, 0), blank());
    }
}

#[test]
fn frame_clear_and_resize() {
    let mut f = Frame::new(2, 2);
    f.set_cell(1, 1, cell("z"));
    f.clear();
    assert_eq!(f.size(), (2, 2));
    assert_eq!(*f.get_cell(1, 1), blank());
    f.set_cell(0, 0, cell("z"));
    f.resize(3, 1);
    assert_eq!(f.size(), (3, 1));
    assert_eq!(*f.get_cell(0, 0), blank());
    assert_eq!(*f.get_cell(2, 0), blank());
    assert_eq!(f.get_cell(0, 1).symbol, "");
}

#[test]
fn frame_diff_of_equal_frames_is_empty() {
    let mut a = Frame::new(3, 3);
    a.set_cell(1, 1, cell("q"));
    let b = a.clone();
    assert!(a.diff(&b).is_empty());
}

#[test]
fn frame_diff_lists_changed_cells_in_order() {
    let a = Frame::new(3, 2);
    let mut b = Frame::new(3, 2);
    b.set_cell(2, 1, cell("b"));
    b.set_cell(0, 1, cell("a"));
    b.set_cell(1, 0, cell("c"));
    let ops = a.diff(&b);
    let got: Vec<(u16, u16, String)> = ops
        .iter()
        .map(|op| match op {
            DrawOp::Cell { x, y, cell } => (*x, *y, cell.symbol.clone()),
            DrawOp::Flush => panic!("no flush in a diff"),
        })
        .collect();
    assert_eq!(got, vec![(1, 0, "c".to_string()), (0, 1, "a".to_string()), (2, 1, "b".to_string())]);
}

#[test]
fn frame_diff_covers_common_region_only() {
    let a = Frame::new(2, 2);
    let mut b = Frame::new(4, 1);
    b.set_cell(3, 0, cell("x"));
    b.set_cell(1, 0, cell("y"));
    let ops = a.diff(&b);
    assert_eq!(ops.len(), 1);
    match &ops[0] {
        DrawOp::Cell { x, y, cell } => {
            assert_eq!((*x, *y), (1, 0));
            assert_eq!(cell.symbol, "y");
        },
        DrawOp::Flush => panic!("no flush in a diff"),
    }
}

#[test]
fn frame_applying_diff_gives_current() {
    let mut prev = Frame::new(3, 2);
    prev.set_cell(0, 0, cell("p"));
    prev.set_cell(2, 1, cell("q"));
    let mut current = Frame::new(3, 2);
    current.set_cell(1, 0, cell("r"));
    current.set_cell(2, 1, cell("q"));
    let ops = prev.diff(&current);
    for op in ops {
        if let DrawOp::Cell { x, y, cell } = op {
            prev.set_cell(x, y, cell);
        }
    }
    for y in 0..2 {
        for x in 0..3 {
            assert_eq!(prev.get_cell(x, y), current.get_cell(x, y));
        }
    }
}

#[test]
fn frame_cell_equality_compares_all_fields() {
    assert_eq!(cell("a"), cell("a"));
    assert_ne!(cell("a"), cell("b"));
    let mut c = cell("a");
    c.bg = Color::Rgba { r: 1, g: 1, b: 1, a: 0 };
    assert_ne!(c, cell("a"));
    assert!(cell("a").same_as(&cell("a")));
    assert!(!c.same_as(&cell("a")));
}
