//! What a terminal is told to do to show a frame: the commands, worked out
//! from frames, that an output backend then writes.
use vstd::prelude::*;

use crate::frame::{CellView, DrawOp, DrawOpView, Frame, FrameView, ops_view};
use crate::frame_laws::{lemma_diff_self, lemma_diff_sound};
use crate::geometry::Rect;
use crate::window::{Color, TerminalColor, spec_terminal_color};

verus! {

/// One command to a terminal.
#[derive(Debug)]
pub enum TerminalCommand {
    /// Put the cursor at the given column and row.
    MoveTo(u16, u16),
    /// Clear the whole screen.
    ClearAll,
    /// Set the foreground and background colours.
    SetColors { fg: TerminalColor, bg: TerminalColor },
    /// Print text at the cursor, which then moves right past it.
    Print(String),
    /// Flush the output.
    Flush,
}

pub enum CommandView {
    MoveTo(u16, u16),
    ClearAll,
    SetColors { fg: TerminalColor, bg: TerminalColor },
    Print(Seq<char>),
    Flush,
}

impl View for TerminalCommand {
    type V = CommandView;

    open spec fn view(&self) -> CommandView {
        match self {
            TerminalCommand::MoveTo(x, y) => CommandView::MoveTo(*x, *y),
            TerminalCommand::ClearAll => CommandView::ClearAll,
            TerminalCommand::SetColors { fg, bg } => CommandView::SetColors { fg: *fg, bg: *bg },
            TerminalCommand::Print(s) => CommandView::Print(s@),
            TerminalCommand::Flush => CommandView::Flush,
        }
    }
}

pub open spec fn commands_view(cs: Seq<TerminalCommand>) -> Seq<CommandView> {
    cs.map_values(|c: TerminalCommand| c@)
}

/// The commands that show one cell at the cursor.
pub open spec fn cell_commands(cell: CellView) -> Seq<CommandView> {
    seq![
        CommandView::SetColors { fg: spec_terminal_color(cell.fg), bg: spec_terminal_color(cell.bg) },
        CommandView::Print(cell.symbol),
    ]
}

/// Where the cursor is known to be: a column and a row, or `u16::MAX` for
/// both when it is not known.
pub type Cursor = (u16, u16);

/// The commands for one drawing operation, and where the cursor is after
/// them. A cell is drawn after a move unless the cursor is already there;
/// the cursor then stands one column to its right. A flush forgets where
/// the cursor is.
pub open spec fn op_commands(op: DrawOpView, cursor: Cursor) -> (Seq<CommandView>, Cursor) {
    match op {
        DrawOpView::Cell { x, y, cell } => {
            let moves = if y != cursor.1 || x != cursor.0 {
                seq![CommandView::MoveTo(x, y)]
            } else {
                Seq::empty()
            };
            (moves + cell_commands(cell), ((x + 1) as u16, y))
        },
        DrawOpView::Flush => (seq![CommandView::Flush], (u16::MAX, u16::MAX)),
    }
}

/// The commands for the first `n` operations, and the cursor after them,
/// starting with an unknown cursor.
pub open spec fn ops_commands_upto(ops: Seq<DrawOpView>, n: nat) -> (Seq<CommandView>, Cursor)
    decreases n,
{
    if n == 0 {
        (Seq::empty(), (u16::MAX, u16::MAX))
    } else {
        let (cmds, cursor) = ops_commands_upto(ops, (n - 1) as nat);
        let (more, next) = op_commands(ops[n - 1], cursor);
        (cmds + more, next)
    }
}

/// The commands that bring a terminal from one frame to the next: nothing
/// when the frames show the same; else the commands of each operation of
/// their difference, then a flush.
pub open spec fn spec_flush_commands(prev: FrameView, current: FrameView) -> Seq<CommandView> {
    let ops = FrameView::diff(prev, current);
    if ops.len() == 0 {
        Seq::empty()
    } else {
        ops_commands_upto(ops, ops.len()).0.push(CommandView::Flush)
    }
}

/// The commands for row `y`, columns `0..n`, of a full redraw.
pub open spec fn row_commands(f: FrameView, y: nat, n: nat) -> Seq<CommandView>
    decreases n,
{
    if n == 0 {
        Seq::empty()
    } else {
        row_commands(f, y, (n - 1) as nat) + cell_commands(f.get(n - 1, y as int))
    }
}

/// The commands for rows `0..m` of a full redraw, each row after a move to
/// its start.
pub open spec fn rows_commands(f: FrameView, m: nat) -> Seq<CommandView>
    decreases m,
{
    if m == 0 {
        Seq::empty()
    } else {
        rows_commands(f, (m - 1) as nat).push(CommandView::MoveTo(0, (m - 1) as u16)) + row_commands(
            f,
            (m - 1) as nat,
            f.width as nat,
        )
    }
}

/// The commands of a full redraw: home the cursor and clear the screen,
/// draw every row, then flush.
pub open spec fn spec_draw_commands(f: FrameView) -> Seq<CommandView> {
    (seq![CommandView::MoveTo(0, 0), CommandView::ClearAll] + rows_commands(f, f.height as nat)).push(
        CommandView::Flush,
    )
}

fn push_cell_commands(cmds: &mut Vec<TerminalCommand>, fg: Color, bg: Color, symbol: &String)
    ensures
        commands_view(final(cmds)@) == commands_view(old(cmds)@) + cell_commands(
            CellView { symbol: symbol@, fg, bg },
        ),
{
    let ghost before = cmds@;
    cmds.push(TerminalCommand::SetColors { fg: fg.to_terminal(), bg: bg.to_terminal() });
    cmds.push(TerminalCommand::Print(symbol.clone()));
    proof {
        assert(commands_view(cmds@) =~= commands_view(before) + cell_commands(
            CellView { symbol: symbol@, fg, bg },
        ));
    }
}

/// The commands that bring a terminal showing `prev` to show `current`.
pub fn flush_commands(prev: &Frame, current: &Frame) -> (cmds: Vec<TerminalCommand>)
    ensures
        commands_view(cmds@) == spec_flush_commands(prev@, current@),
{
    let ops = prev.diff(current);
    let ghost opsv = ops_view(ops@);
    proof {
        lemma_diff_sound(prev@, current@);
    }
    let mut cmds: Vec<TerminalCommand> = Vec::new();
    if ops.len() == 0 {
        return cmds;
    }
    let mut last_x: u16 = u16::MAX;
    let mut last_y: u16 = u16::MAX;
    let n = ops.len();
    let mut i: usize = 0;
    while i < n
        invariant
            i <= n,
            n == ops@.len(),
            opsv == ops_view(ops@),
            opsv == FrameView::diff(prev@, current@),
            forall|k: int|
                0 <= k < opsv.len() ==> ((#[trigger] opsv[k]) matches DrawOpView::Cell { x, y, cell }
                    && x < u16::MAX),
            (commands_view(cmds@), (last_x, last_y)) == ops_commands_upto(opsv, i as nat),
        decreases n - i,
    {
        let ghost before = cmds@;
        proof {
            assert(opsv[i as int] == ops@[i as int]@);
        }
        match &ops[i] {
            DrawOp::Cell { x, y, cell } => {
                if *y != last_y || *x != last_x {
                    cmds.push(TerminalCommand::MoveTo(*x, *y));
                }
                let ghost moved = cmds@;
                proof {
                    assert(commands_view(moved) =~= commands_view(before) + (if *y != last_y || *x
                        != last_x {
                        seq![CommandView::MoveTo(*x, *y)]
                    } else {
                        Seq::<CommandView>::empty()
                    }));
                }
                push_cell_commands(&mut cmds, cell.fg, cell.bg, &cell.symbol);
                proof {
                    assert(opsv[i as int] matches DrawOpView::Cell { x, y, cell } && x < u16::MAX);
                }
                last_x = *x + 1;
                last_y = *y;
                proof {
                    let moves = if opsv[i as int]->y != ops_commands_upto(opsv, i as nat).1.1
                        || opsv[i as int]->x != ops_commands_upto(opsv, i as nat).1.0 {
                        seq![CommandView::MoveTo(*x, *y)]
                    } else {
                        Seq::<CommandView>::empty()
                    };
                    assert(commands_view(cmds@) =~= commands_view(before) + moves + cell_commands(
                        cell@,
                    ));
                }
            },
            DrawOp::Flush => {
                cmds.push(TerminalCommand::Flush);
                last_x = u16::MAX;
                last_y = u16::MAX;
                proof {
                    assert(commands_view(cmds@) =~= commands_view(before) + seq![CommandView::Flush]);
                }
            },
        }
        i = i + 1;
    }
    let ghost before = cmds@;
    cmds.push(TerminalCommand::Flush);
    proof {
        assert(commands_view(cmds@) =~= commands_view(before).push(CommandView::Flush));
    }
    cmds
}

/// The commands that redraw a whole frame.
pub fn draw_commands(frame: &Frame) -> (cmds: Vec<TerminalCommand>)
    ensures
        commands_view(cmds@) == spec_draw_commands(frame@),
{
    let mut cmds: Vec<TerminalCommand> = Vec::new();
    cmds.push(TerminalCommand::MoveTo(0, 0));
    cmds.push(TerminalCommand::ClearAll);
    proof {
        assert(commands_view(cmds@) =~= seq![CommandView::MoveTo(0, 0), CommandView::ClearAll]
            + rows_commands(frame@, 0));
    }
    let (width, height) = frame.size();
    let mut y: u16 = 0;
    while y < height
        invariant
            y <= height,
            width == frame@.width,
            height == frame@.height,
            commands_view(cmds@) == seq![CommandView::MoveTo(0, 0), CommandView::ClearAll]
                + rows_commands(frame@, y as nat),
        decreases height - y,
    {
        let ghost row_start = cmds@;
        cmds.push(TerminalCommand::MoveTo(0, y));
        proof {
            assert(commands_view(cmds@) =~= commands_view(row_start).push(CommandView::MoveTo(0, y))
                + row_commands(frame@, y as nat, 0));
        }
        let mut x: u16 = 0;
        while x < width
            invariant
                x <= width,
                y < height,
                width == frame@.width,
                height == frame@.height,
                commands_view(cmds@) == commands_view(row_start).push(CommandView::MoveTo(0, y))
                    + row_commands(frame@, y as nat, x as nat),
            decreases width - x,
        {
            let cell = frame.get_cell(x, y);
            let ghost before = cmds@;
            push_cell_commands(&mut cmds, cell.fg, cell.bg, &cell.symbol);
            proof {
                assert(commands_view(cmds@) =~= commands_view(row_start).push(
                    CommandView::MoveTo(0, y),
                ) + row_commands(frame@, y as nat, (x + 1) as nat));
            }
            x = x + 1;
        }
        proof {
            assert(commands_view(cmds@) =~= seq![CommandView::MoveTo(0, 0), CommandView::ClearAll]
                + rows_commands(frame@, (y + 1) as nat));
        }
        y = y + 1;
    }
    let ghost before = cmds@;
    cmds.push(TerminalCommand::Flush);
    proof {
        assert(commands_view(cmds@) =~= commands_view(before).push(CommandView::Flush));
    }
    cmds
}

/// The two frames of a window: the one last drawn, and a blank one ready
/// for the next drawing.
#[derive(Debug)]
pub struct FrameBuffers {
    pub prev_frame: Frame,
    pub current_frame: Frame,
}

impl FrameBuffers {
    /// Two blank frames the size of `bounds`.
    pub fn new(bounds: Rect) -> (b: FrameBuffers)
        ensures
            b.prev_frame@ == FrameView::blank(bounds.width, bounds.height),
            b.current_frame@ == FrameView::blank(bounds.width, bounds.height),
    {
        FrameBuffers {
            prev_frame: Frame::new(bounds.width, bounds.height),
            current_frame: Frame::new(bounds.width, bounds.height),
        }
    }

    /// Starts a drawing: hands out the current frame, cleared (it keeps its
    /// size), and puts a blank frame the size of `bounds` in its place.
    pub fn begin_render(&mut self, bounds: Rect) -> (frame: Frame)
        ensures
            frame@ == FrameView::blank(old(self).current_frame@.width, old(self).current_frame@.height),
            final(self).current_frame@ == FrameView::blank(bounds.width, bounds.height),
            final(self).prev_frame@ == old(self).prev_frame@,
    {
        let mut frame = Frame::new(bounds.width, bounds.height);
        std::mem::swap(&mut self.current_frame, &mut frame);
        frame.clear();
        frame
    }

    /// Ends a drawing: the drawn frame becomes the one last drawn, and the
    /// terminal is told the difference between the blank current frame and
    /// the drawn one.
    pub fn finish_render(&mut self, frame: Frame) -> (cmds: Vec<TerminalCommand>)
        ensures
            commands_view(cmds@) == spec_flush_commands(old(self).current_frame@, frame@),
            final(self).prev_frame@ == frame@,
            final(self).current_frame@ == old(self).current_frame@,
    {
        std::mem::swap(&mut self.prev_frame, &mut self.current_frame);
        self.current_frame = frame;
        let cmds = flush_commands(&self.prev_frame, &self.current_frame);
        std::mem::swap(&mut self.prev_frame, &mut self.current_frame);
        cmds
    }
}

/// A terminal that already shows a frame is told nothing to show it again.
pub proof fn lemma_flush_same_frame(f: FrameView)
    ensures
        spec_flush_commands(f, f) == Seq::<CommandView>::empty(),
{
    lemma_diff_self(f);
}

} // verus!