//! Elements that draw text, or nothing: splitting text into lines and
//! drawing them into a frame.
use vstd::prelude::*;
use vstd::string::StringSliceAdditionalSpecFns;

use crate::frame::{CellView, Frame, FrameView, char_vec};
use crate::frame_laws::lemma_get_after_write;
use crate::geometry::{Rect, sat_add};
use crate::window::{Color, color_white, white};

verus! {

/// The first place at or after `start` that holds a newline, or the end.
pub open spec fn next_newline(s: Seq<char>, start: int) -> int
    decreases s.len() - start,
{
    if start >= s.len() {
        s.len() as int
    } else if s[start] == '\n' {
        start
    } else {
        next_newline(s, start + 1)
    }
}

/// A line without the carriage return that ended it, if any.
pub open spec fn strip_cr(line: Seq<char>) -> Seq<char> {
    if line.len() > 0 && line.last() == '\r' {
        line.drop_last()
    } else {
        line
    }
}

/// The lines of `s` from `start` on: each ends at a newline, which is not
/// part of it, and a carriage return just before that newline is dropped
/// too; the text after the last newline is a line if it is not empty.
pub open spec fn lines_from(s: Seq<char>, start: int) -> Seq<Seq<char>>
    decreases s.len() - start,
{
    if start >= s.len() || start < 0 {
        Seq::empty()
    } else {
        let j = next_newline(s, start);
        proof {
            lemma_next_newline_bounds(s, start);
        }
        if j >= s.len() {
            seq![s.subrange(start, s.len() as int)]
        } else {
            seq![strip_cr(s.subrange(start, j))] + lines_from(s, j + 1)
        }
    }
}

/// The lines of a text, as `str::lines` gives them.
pub open spec fn spec_lines(s: Seq<char>) -> Seq<Seq<char>> {
    lines_from(s, 0)
}

/// The next newline lies at or after `start` and no newline comes before it.
pub proof fn lemma_next_newline_bounds(s: Seq<char>, start: int)
    requires
        0 <= start,
    ensures
        start <= next_newline(s, start) || start > s.len(),
        next_newline(s, start) <= s.len() || start > s.len(),
        next_newline(s, start) < s.len() ==> s[next_newline(s, start)] == '\n',
        forall|k: int| start <= k < next_newline(s, start) ==> s[k] != '\n',
    decreases s.len() - start,
{
    if start < s.len() && s[start] != '\n' {
        lemma_next_newline_bounds(s, start + 1);
    }
}

/// The character ranges of the lines of a text, in order.
fn line_ranges(chars: &Vec<char>) -> (r: Vec<(usize, usize)>)
    ensures
        r@.len() == spec_lines(chars@).len(),
        forall|k: int|
            0 <= k < r@.len() ==> {
                &&& (#[trigger] r@[k]).0 <= r@[k].1 <= chars@.len()
                &&& chars@.subrange(r@[k].0 as int, r@[k].1 as int) == spec_lines(chars@)[k]
            },
{
    let ghost s = chars@;
    let n = chars.len();
    let mut r: Vec<(usize, usize)> = Vec::new();
    let mut start: usize = 0;
    while start < n
        invariant
            start <= n,
            n == s.len(),
            s == chars@,
            r@.len() + lines_from(s, start as int).len() == spec_lines(s).len(),
            forall|k: int|
                0 <= k < r@.len() ==> {
                    &&& (#[trigger] r@[k]).0 <= r@[k].1 <= s.len()
                    &&& s.subrange(r@[k].0 as int, r@[k].1 as int) == spec_lines(s)[k]
                },
            forall|k: int|
                0 <= k < lines_from(s, start as int).len() ==> #[trigger] lines_from(
                    s,
                    start as int,
                )[k] == spec_lines(s)[r@.len() + k],
        decreases n - start,
    {
        let mut j: usize = start;
        while j < n && chars[j] != '\n'
            invariant
                start <= j <= n,
                n == s.len(),
                s == chars@,
                next_newline(s, start as int) == next_newline(s, j as int),
            decreases n - j,
        {
            j = j + 1;
        }
        proof {
            lemma_next_newline_bounds(s, start as int);
        }
        let ghost rest = lines_from(s, start as int);
        let ghost base = r@.len();
        if j == n {
            r.push((start, n));
            proof {
                assert(rest == seq![s.subrange(start as int, n as int)]);
                assert(lines_from(s, n as int) == Seq::<Seq<char>>::empty());
                assert(spec_lines(s)[base as int] == rest[0]);
            }
            start = n;
        } else {
            let end = if j > start && chars[j - 1] == '\r' {
                j - 1
            } else {
                j
            };
            r.push((start, end));
            proof {
                let line = s.subrange(start as int, j as int);
                assert(rest == seq![strip_cr(line)] + lines_from(s, j + 1));
                assert(spec_lines(s)[base as int] == rest[0]);
                assert(s.subrange(start as int, end as int) =~= strip_cr(line));
                let tail = lines_from(s, j + 1);
                assert forall|k: int| 0 <= k < tail.len() implies #[trigger] tail[k] == spec_lines(
                    s,
                )[r@.len() + k] by {
                    assert(tail[k] == rest[k + 1]);
                }
            }
            start = j + 1;
        }
    }
    proof {
        assert(lines_from(s, n as int) == Seq::<Seq<char>>::empty());
    }
    r
}

/// The frame after `lines` are drawn one per row from `(x, y)` downwards,
/// white on the default background, for the first `n` lines.
pub open spec fn write_lines(f: FrameView, x: u16, y: u16, lines: Seq<Seq<char>>, n: nat) -> FrameView
    decreases n,
{
    if n == 0 {
        f
    } else {
        write_lines(f, x, y, lines, (n - 1) as nat).write(
            x,
            (y + n - 1) as u16,
            lines[n - 1],
            white(),
            Color::Default,
        )
    }
}

/// How many lines fit into a rectangle: as many as its (clamped) height
/// allows.
pub open spec fn lines_shown(bounds: Rect, count: nat) -> nat {
    let room = (sat_add(bounds.y, bounds.height) - bounds.y) as nat;
    if count <= room {
        count
    } else {
        room
    }
}

/// An element that draws nothing.
#[derive(Debug, Clone, Copy, PartialEq, Eq, Structural)]
pub struct Empty;

/// Helpers to build elements in a chain of calls.
pub trait ElementExt: Sized {
    /// The value `f` makes of this one.
    fn map<F, R>(self, f: F) -> (r: R)
        where
            F: FnOnce(Self) -> R,
        requires
            f.requires((self,)),
        ensures
            f.ensures((self,), r),
    {
        f(self)
    }

    /// The value `f` makes of this one when `condition` holds; this one
    /// unchanged otherwise.
    fn when<F>(self, condition: bool, f: F) -> (r: Self)
        where
            F: FnOnce(Self) -> Self,
        requires
            condition ==> f.requires((self,)),
        ensures
            condition ==> f.ensures((self,), r),
            !condition ==> r == self,
    {
        if condition {
            f(self)
        } else {
            self
        }
    }
}

impl ElementExt for Empty {}

impl ElementExt for Text {}

/// A run of text drawn line by line.
#[derive(Debug)]
pub struct Text {
    pub text: String,
}

impl Text {
    pub fn new(text: String) -> (t: Text)
        ensures
            t.text@ == text@,
    {
        Text { text }
    }

    /// The size the text asks for: its length in bytes and its number of
    /// lines.
    pub fn content_size(&self) -> (r: (usize, usize))
        ensures
            r.0 == vstd::utf8::encode_utf8(self.text@).len() as usize,
            r.1 == spec_lines(self.text@).len(),
    {
        let chars = char_vec(self.text.as_str());
        let ranges = line_ranges(&chars);
        (self.text.as_str().len(), ranges.len())
    }

    /// Draws the lines of the text from the corner of `bounds` downwards,
    /// white on the default background, as many as the rectangle is high.
    pub fn render(&self, bounds: Rect, frame: &mut Frame)
        ensures
            final(frame)@ == write_lines(
                old(frame)@,
                bounds.x,
                bounds.y,
                spec_lines(self.text@),
                lines_shown(bounds, spec_lines(self.text@).len()),
            ),
    {
        let text = self.text.as_str();
        let chars = char_vec(text);
        let ranges = line_ranges(&chars);
        let ghost lines = spec_lines(self.text@);
        let bottom = bounds.y.saturating_add(bounds.height);
        let n = ranges.len();
        let mut i: usize = 0;
        while i < n && (bounds.y as usize + i) < (bottom as usize)
            invariant
                i <= n,
                n == lines.len(),
                n == ranges@.len(),
                lines == spec_lines(chars@),
                chars@ == text@,
                text@ == self.text@,
                bottom == sat_add(bounds.y, bounds.height),
                i <= lines_shown(bounds, lines.len()),
                forall|k: int|
                    0 <= k < ranges@.len() ==> {
                        &&& (#[trigger] ranges@[k]).0 <= ranges@[k].1 <= chars@.len()
                        &&& chars@.subrange(ranges@[k].0 as int, ranges@[k].1 as int) == lines[k]
                    },
                frame@ == write_lines(old(frame)@, bounds.x, bounds.y, lines, i as nat),
            decreases n - i,
        {
            let (a, b) = ranges[i];
            let line = text.substring_char(a, b);
            let y = (bounds.y as usize + i) as u16;
            frame.write_string(bounds.x, y, line, color_white(), Color::Default);
            i = i + 1;
        }
    }
}

proof fn lemma_lines_from_no_newline(s: Seq<char>, start: int)
    ensures
        forall|k: int, i: int|
            0 <= k < lines_from(s, start).len() && 0 <= i < lines_from(s, start)[k].len()
                ==> #[trigger] lines_from(s, start)[k][i] != '\n',
    decreases s.len() - start,
{
    if 0 <= start < s.len() {
        let j = next_newline(s, start);
        lemma_next_newline_bounds(s, start);
        if j < s.len() {
            lemma_lines_from_no_newline(s, j + 1);
            let first = strip_cr(s.subrange(start, j));
            let rest = lines_from(s, j + 1);
            let all = lines_from(s, start);
            assert(all == seq![first] + rest);
            assert forall|k: int, i: int| 0 <= k < all.len() && 0 <= i < all[k].len() implies #[trigger] all[k][i]
                != '\n' by {
                if k == 0 {
                    assert(all[0] == first);
                    assert(first[i] == s[start + i]);
                } else {
                    assert(all[k] == rest[k - 1]);
                }
            }
        } else {
            let all = lines_from(s, start);
            assert forall|k: int, i: int| 0 <= k < all.len() && 0 <= i < all[k].len() implies #[trigger] all[k][i]
                != '\n' by {
                assert(all[0][i] == s[start + i]);
            }
        }
    }
}

/// No line of a text holds a newline.
pub proof fn lemma_lines_have_no_newline(s: Seq<char>)
    ensures
        forall|k: int, i: int|
            0 <= k < spec_lines(s).len() && 0 <= i < spec_lines(s)[k].len() ==> #[trigger] spec_lines(
                s,
            )[k][i] != '\n',
{
    lemma_lines_from_no_newline(s, 0);
}

/// After lines are drawn, the row `k` below the starting row shows line `k`
/// from the starting column on, as far as the line and the frame reach;
/// every other cell is as it was.
pub proof fn lemma_get_after_write_lines(
    f: FrameView,
    x: u16,
    y: u16,
    lines: Seq<Seq<char>>,
    n: nat,
    cx: int,
    cy: int,
)
    requires
        f.wf(),
        n <= lines.len(),
        y + n <= u16::MAX + 1,
    ensures
        write_lines(f, x, y, lines, n).wf(),
        write_lines(f, x, y, lines, n).width == f.width,
        write_lines(f, x, y, lines, n).height == f.height,
        write_lines(f, x, y, lines, n).get(cx, cy) == (if y <= cy < y + n && f.in_bounds(cx, cy) && x
            <= cx < x + lines[cy - y].len() {
            CellView { symbol: seq![lines[cy - y][cx - x]], fg: white(), bg: Color::Default }
        } else {
            f.get(cx, cy)
        }),
    decreases n,
{
    if n > 0 {
        let m = (n - 1) as nat;
        lemma_get_after_write_lines(f, x, y, lines, m, cx, cy);
        let w = write_lines(f, x, y, lines, m);
        lemma_get_after_write(w, x, (y + m) as u16, lines[m as int], white(), Color::Default, cx, cy);
    }
}

/// The next newline after `start` is the first one: `j`, when no newline
/// lies in `start..j` and `j` holds one or is the end.
proof fn lemma_next_newline_at(s: Seq<char>, start: int, j: int)
    requires
        0 <= start <= j <= s.len(),
        j < s.len() ==> s[j] == '\n',
        forall|k: int| start <= k < j ==> s[k] != '\n',
    ensures
        next_newline(s, start) == j,
    decreases j - start,
{
    if start < j {
        lemma_next_newline_at(s, start + 1, j);
    }
}

/// Text put before a string moves its newlines by its length.
proof fn lemma_next_newline_shift(x: Seq<char>, b: Seq<char>, p: int)
    requires
        0 <= p,
    ensures
        next_newline(x + b, x.len() + p) == x.len() + next_newline(b, p),
    decreases b.len() - p,
{
    let s = x + b;
    if p < b.len() {
        assert(s[x.len() + p] == b[p]);
        if b[p] != '\n' {
            lemma_next_newline_shift(x, b, p + 1);
            assert(x.len() + p + 1 == x.len() + (p + 1));
        }
    }
}

/// Text put before a string, ending at a line break, does not change the
/// lines that follow it.
proof fn lemma_lines_from_shift(x: Seq<char>, b: Seq<char>, p: int)
    requires
        0 <= p,
    ensures
        lines_from(x + b, x.len() + p) == lines_from(b, p),
    decreases b.len() - p,
{
    let s = x + b;
    let q = x.len() + p;
    if p < b.len() {
        lemma_next_newline_shift(x, b, p);
        lemma_next_newline_bounds(b, p);
        let j = next_newline(b, p);
        assert(s.subrange(q, x.len() + j) =~= b.subrange(p, j));
        if j < b.len() {
            lemma_lines_from_shift(x, b, j + 1);
            assert(x.len() + j + 1 == x.len() + (j + 1));
        } else {
            assert(s.subrange(q, s.len() as int) =~= b.subrange(p, b.len() as int));
        }
    }
}

/// The lines of a text are those of `str::lines`: an empty text has none;
/// a text without a newline is one line; and a text that starts with a run
/// `a` free of newlines and then a newline has, as its first line, `a`
/// without one carriage return at its end (so a `\r\n` alone gives an empty
/// line), followed by the lines of the rest.
pub proof fn lemma_lines_split(a: Seq<char>, b: Seq<char>)
    requires
        forall|k: int| 0 <= k < a.len() ==> a[k] != '\n',
    ensures
        spec_lines(Seq::empty()) == Seq::<Seq<char>>::empty(),
        a.len() > 0 ==> spec_lines(a) == seq![a],
        a.len() > 0 && a.last() == '\r' ==> spec_lines(a + seq!['\n'] + b) == seq![a.drop_last()]
            + spec_lines(b),
        !(a.len() > 0 && a.last() == '\r') ==> spec_lines(a + seq!['\n'] + b) == seq![a]
            + spec_lines(b),
{
    if a.len() > 0 {
        lemma_next_newline_at(a, 0, a.len() as int);
        assert(a.subrange(0, a.len() as int) =~= a);
    }
    let x = a + seq!['\n'];
    let s = x + b;
    assert(a + seq!['\n'] + b == s);
    assert forall|k: int| 0 <= k < a.len() implies s[k] != '\n' by {
        assert(s[k] == a[k]);
    }
    assert(s[a.len() as int] == '\n');
    lemma_next_newline_at(s, 0, a.len() as int);
    assert(s.subrange(0, a.len() as int) =~= a);
    lemma_lines_from_shift(x, b, 0);
    assert(x.len() + 0 == a.len() + 1);
}

} // verus!
