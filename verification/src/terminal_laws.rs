//! What the planned commands do to a terminal: after the commands that
//! bring a terminal from one frame to the next, it shows the next frame.
use vstd::prelude::*;

use crate::frame::{CellView, DrawOpView, FrameView};
use crate::frame_laws::{apply_ops, is_diff_op, lemma_apply_diff, lemma_diff_sound, lemma_get_after_set};
use crate::terminal::{
    CommandView, cell_commands, op_commands, ops_commands_upto, row_commands, rows_commands,
    spec_draw_commands, spec_flush_commands,
};
use crate::window::{TerminalColor, spec_terminal_color};

verus! {

/// What a terminal cell shows: a symbol in two terminal colours.
pub struct ScreenCell {
    pub symbol: Seq<char>,
    pub fg: TerminalColor,
    pub bg: TerminalColor,
}

/// How a terminal shows a frame cell.
pub open spec fn shown(c: CellView) -> ScreenCell {
    ScreenCell { symbol: c.symbol, fg: spec_terminal_color(c.fg), bg: spec_terminal_color(c.bg) }
}

/// A terminal as the commands see it: what each place shows, where the
/// cursor is, and the colours it prints in. Each printed symbol takes one
/// cell.
pub struct Screen {
    pub cells: spec_fn(int, int) -> ScreenCell,
    pub cursor: (int, int),
    pub fg: TerminalColor,
    pub bg: TerminalColor,
}

/// A terminal after one command.
pub open spec fn run_command(s: Screen, c: CommandView) -> Screen {
    match c {
        CommandView::MoveTo(x, y) => Screen { cursor: (x as int, y as int), ..s },
        CommandView::ClearAll => Screen {
            cells: |a: int, b: int| ScreenCell { symbol: seq![' '], fg: s.fg, bg: s.bg },
            ..s
        },
        CommandView::SetColors { fg, bg } => Screen { fg, bg, ..s },
        CommandView::Print(symbol) => Screen {
            cells: |a: int, b: int|
                if a == s.cursor.0 && b == s.cursor.1 {
                    ScreenCell { symbol, fg: s.fg, bg: s.bg }
                } else {
                    (s.cells)(a, b)
                },
            cursor: (s.cursor.0 + 1, s.cursor.1),
            ..s
        },
        CommandView::Flush => s,
    }
}

/// A terminal after a sequence of commands, run in order.
pub open spec fn run_commands(s: Screen, cmds: Seq<CommandView>) -> Screen
    decreases cmds.len(),
{
    if cmds.len() == 0 {
        s
    } else {
        run_command(run_commands(s, cmds.drop_last()), cmds.last())
    }
}

/// Whether a terminal shows a frame: every place of the frame shows its cell.
pub open spec fn shows(s: Screen, f: FrameView) -> bool {
    forall|x: int, y: int| f.in_bounds(x, y) ==> #[trigger] (s.cells)(x, y) == shown(f.get(x, y))
}

proof fn lemma_run_concat(s: Screen, a: Seq<CommandView>, b: Seq<CommandView>)
    ensures
        run_commands(s, a + b) == run_commands(run_commands(s, a), b),
    decreases b.len(),
{
    if b.len() == 0 {
        assert(a + b =~= a);
    } else {
        lemma_run_concat(s, a, b.drop_last());
        assert((a + b).drop_last() =~= a + b.drop_last());
        assert((a + b).last() == b.last());
    }
}

/// The commands for the first `i` operations of a difference leave the
/// terminal showing the old frame with those operations applied, with the
/// cursor where the planner believes it is whenever it believes it knows.
proof fn lemma_flush_prefix(s: Screen, prev: FrameView, ops: Seq<DrawOpView>, i: nat)
    requires
        prev.wf(),
        shows(s, prev),
        i <= ops.len(),
        forall|k: int|
            0 <= k < ops.len() ==> (#[trigger] ops[k] matches DrawOpView::Cell { x, y, cell } && x
                < u16::MAX),
    ensures
        ({
            let (cmds, cursor) = ops_commands_upto(ops, i);
            let t = run_commands(s, cmds);
            let g = apply_ops(prev, ops.take(i as int));
            &&& g.wf()
            &&& g.width == prev.width
            &&& g.height == prev.height
            &&& cursor.0 != u16::MAX ==> t.cursor == (cursor.0 as int, cursor.1 as int)
            &&& shows(t, g)
        }),
    decreases i,
{
    if i == 0 {
        assert(ops.take(0) =~= Seq::<DrawOpView>::empty());
    } else {
        let j = (i - 1) as nat;
        lemma_flush_prefix(s, prev, ops, j);
        let (cmds0, cursor0) = ops_commands_upto(ops, j);
        let t0 = run_commands(s, cmds0);
        let g0 = apply_ops(prev, ops.take(j as int));
        let op = ops[j as int];
        assert(ops.take(i as int).drop_last() =~= ops.take(j as int));
        assert(ops.take(i as int).last() == op);
        if let DrawOpView::Cell { x, y, cell } = op {
            let moves = if y != cursor0.1 || x != cursor0.0 {
                seq![CommandView::MoveTo(x, y)]
            } else {
                Seq::<CommandView>::empty()
            };
            let more = moves + cell_commands(cell);
            assert(op_commands(op, cursor0).0 == more);
            lemma_run_concat(s, cmds0, more);
            lemma_run_concat(t0, moves, cell_commands(cell));
            let t1 = run_commands(t0, moves);
            if y != cursor0.1 || x != cursor0.0 {
                assert(moves.drop_last() =~= Seq::<CommandView>::empty());
                assert(run_commands(t0, moves.drop_last()) == t0);
                assert(moves.last() == CommandView::MoveTo(x, y));
                assert(t1 == run_command(t0, CommandView::MoveTo(x, y)));
            } else {
                assert(t1 == t0);
            }
            assert(t1.cursor == (x as int, y as int));
            assert(t1.cells == t0.cells);
            let cc = cell_commands(cell);
            let first = seq![cc[0]];
            assert(cc.drop_last() =~= first);
            assert(first.drop_last() =~= Seq::<CommandView>::empty());
            assert(run_commands(t1, first.drop_last()) == t1);
            let t1a = run_command(t1, cc[0]);
            assert(run_commands(t1, first) == t1a);
            let t2 = run_commands(t1, cc);
            assert(t2 == run_command(t1a, cc[1]));
            assert(t1a.cells == t1.cells && t1a.cursor == t1.cursor);
            assert(t1a.fg == spec_terminal_color(cell.fg) && t1a.bg == spec_terminal_color(cell.bg));
            assert(t2.cursor == (x + 1, y as int));
            assert(((x + 1) as u16) as int == x + 1);
            let g = g0.set(x as int, y as int, cell);
            assert(apply_ops(prev, ops.take(i as int)) == g);
            lemma_get_after_set(g0, x as int, y as int, cell, 0, 0);
            assert forall|a: int, b: int| g.in_bounds(a, b) implies #[trigger] (t2.cells)(a, b)
                == shown(g.get(a, b)) by {
                lemma_get_after_set(g0, x as int, y as int, cell, a, b);
                assert((t2.cells)(a, b) == (if a == x && b == y {
                    ScreenCell { symbol: cell.symbol, fg: t1a.fg, bg: t1a.bg }
                } else {
                    (t0.cells)(a, b)
                }));
                if a == x && b == y {
                    if !g0.in_bounds(x as int, y as int) {
                        assert(g0.in_bounds(a, b));
                    }
                } else {
                    assert(g0.in_bounds(a, b));
                }
            }
        }
    }
}

/// A terminal that shows a frame shows the next frame, of the same size,
/// once the commands planned for the two frames have run.
pub proof fn lemma_flush_shows_current(s: Screen, prev: FrameView, current: FrameView)
    requires
        prev.wf(),
        current.wf(),
        prev.width == current.width,
        prev.height == current.height,
        shows(s, prev),
    ensures
        shows(run_commands(s, spec_flush_commands(prev, current)), current),
{
    let ops = FrameView::diff(prev, current);
    lemma_diff_sound(prev, current);
    lemma_apply_diff(prev, current);
    assert forall|k: int| 0 <= k < ops.len() implies (#[trigger] ops[k] matches DrawOpView::Cell {
        x,
        y,
        cell,
    } && x < u16::MAX) by {
        assert(is_diff_op(prev, current, ops[k]));
    }
    lemma_flush_prefix(s, prev, ops, ops.len());
    assert(ops.take(ops.len() as int) =~= ops);
    if ops.len() == 0 {
        assert(apply_ops(prev, ops) == prev);
    } else {
        let cmds = ops_commands_upto(ops, ops.len()).0;
        assert(spec_flush_commands(prev, current).drop_last() == cmds);
    }
}

/// Showing one cell prints it at the cursor, which then moves one column
/// right; nothing else changes on the screen.
proof fn lemma_run_cell(t: Screen, c: CellView)
    ensures
        run_commands(t, cell_commands(c)).cursor == (t.cursor.0 + 1, t.cursor.1),
        forall|a: int, b: int|
            #[trigger] (run_commands(t, cell_commands(c)).cells)(a, b) == (if a == t.cursor.0 && b
                == t.cursor.1 {
                shown(c)
            } else {
                (t.cells)(a, b)
            }),
{
    let cc = cell_commands(c);
    let first = seq![cc[0]];
    assert(cc.drop_last() =~= first);
    assert(first.drop_last() =~= Seq::<CommandView>::empty());
    assert(run_commands(t, first.drop_last()) == t);
    let t1 = run_command(t, cc[0]);
    assert(run_commands(t, first) == t1);
    let t2 = run_commands(t, cc);
    assert(t2 == run_command(t1, cc[1]));
    assert(t1.fg == spec_terminal_color(c.fg) && t1.bg == spec_terminal_color(c.bg));
}

/// Drawing the first `n` cells of row `y` from the start of that row prints
/// them in their places and leaves the cursor after them.
proof fn lemma_run_row(t: Screen, f: FrameView, y: nat, n: nat)
    requires
        t.cursor == (0int, y as int),
    ensures
        run_commands(t, row_commands(f, y, n)).cursor == (n as int, y as int),
        forall|a: int, b: int|
            #[trigger] (run_commands(t, row_commands(f, y, n)).cells)(a, b) == (if b == y && 0 <= a
                < n {
                shown(f.get(a, y as int))
            } else {
                (t.cells)(a, b)
            }),
    decreases n,
{
    if n > 0 {
        let m = (n - 1) as nat;
        lemma_run_row(t, f, y, m);
        let c = f.get(m as int, y as int);
        lemma_run_concat(t, row_commands(f, y, m), cell_commands(c));
        lemma_run_cell(run_commands(t, row_commands(f, y, m)), c);
    }
}

/// After the rows `0..m` of a full redraw, every place of those rows shows
/// the frame's cell.
proof fn lemma_run_rows(t: Screen, f: FrameView, m: nat)
    requires
        m <= f.height,
    ensures
        forall|a: int, b: int|
            0 <= b < m && 0 <= a < f.width ==> #[trigger] (run_commands(t, rows_commands(f, m)).cells)(
                a,
                b,
            ) == shown(f.get(a, b)),
    decreases m,
{
    if m > 0 {
        let k = (m - 1) as nat;
        lemma_run_rows(t, f, k);
        let prefix = rows_commands(f, k).push(CommandView::MoveTo(0, k as u16));
        let t0 = run_commands(t, rows_commands(f, k));
        assert(prefix.drop_last() == rows_commands(f, k));
        let t1 = run_commands(t, prefix);
        assert(t1 == run_command(t0, CommandView::MoveTo(0, k as u16)));
        assert(t1.cells == t0.cells);
        assert((k as u16) as int == k);
        lemma_run_concat(t, prefix, row_commands(f, k, f.width as nat));
        lemma_run_row(t1, f, k, f.width as nat);
    }
}

/// Whatever a terminal showed before, it shows a frame once the commands
/// of a full redraw of that frame have run.
pub proof fn lemma_draw_shows_frame(s: Screen, f: FrameView)
    ensures
        shows(run_commands(s, spec_draw_commands(f)), f),
{
    let head = seq![CommandView::MoveTo(0, 0), CommandView::ClearAll];
    let body = head + rows_commands(f, f.height as nat);
    let all = body.push(CommandView::Flush);
    assert(spec_draw_commands(f) == all);
    assert(all.drop_last() == body);
    assert(run_commands(s, all) == run_commands(s, body));
    lemma_run_concat(s, head, rows_commands(f, f.height as nat));
    lemma_run_rows(run_commands(s, head), f, f.height as nat);
}

} // verus!
