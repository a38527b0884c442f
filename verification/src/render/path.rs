//!
//! The shape of the SVG paths that draw line plots. A point whose coordinates are not
//! both finite breaks the line. Which points a path visits, and how, is decided here
//! from the finiteness of each point alone; the coordinates are filled in when the
//! path is written.
//!
use vstd::prelude::*;

verus! {

/// One command of an SVG path, over the indices of the plot's points.
#[derive(Debug, Copy, Clone, PartialEq, Eq, Structural)]
pub enum PathCmd {
    /// Move to point `i`.
    MoveTo(usize),
    /// Draw a line to point `i`.
    LineTo(usize),
    /// Move to the base line, below or above point `i`.
    MoveToBase(usize),
    /// Draw a line to the base line, below or above point `i`.
    LineToBase(usize),
    /// Close the path.
    Close,
}

/// The commands of a line through the points `0..=k`, with whether no line segment
/// has been drawn yet.
pub open spec fn line_state(fin: Seq<bool>, k: int) -> (bool, Seq<PathCmd>)
    decreases k,
{
    if k <= 0 {
        (true, Seq::empty())
    } else {
        let (first, cmds) = line_state(fin, k - 1);
        if fin[k] && fin[k - 1] {
            if first {
                (false, cmds.push(PathCmd::MoveTo((k - 1) as usize)).push(PathCmd::LineTo(k as usize)))
            } else {
                (false, cmds.push(PathCmd::LineTo(k as usize)))
            }
        } else if fin[k] {
            (first, cmds.push(PathCmd::MoveTo(k as usize)))
        } else {
            (first, cmds)
        }
    }
}

/// The commands of a line through points whose finiteness is `fin`: a segment joins
/// each two consecutive finite points; a finite point after a non-finite one starts
/// the line anew.
pub open spec fn line_commands(fin: Seq<bool>) -> Seq<PathCmd> {
    line_state(fin, fin.len() - 1).1
}

/// The state of a filled line after the points `0..=k`: whether no segment has been
/// drawn yet, the last finite point that ended a segment, and the commands so far.
pub open spec fn fill_state(fin: Seq<bool>, base: bool, k: int) -> (bool, Option<usize>, Seq<PathCmd>)
    decreases k,
{
    if k <= 0 {
        (true, None, Seq::empty())
    } else {
        let (first, last, cmds) = fill_state(fin, base, k - 1);
        if fin[k] && fin[k - 1] {
            let start: Seq<PathCmd> = if !first {
                Seq::empty()
            } else if base {
                seq![PathCmd::MoveToBase((k - 1) as usize), PathCmd::LineTo((k - 1) as usize)]
            } else {
                seq![PathCmd::MoveTo((k - 1) as usize)]
            };
            (false, Some(k as usize), cmds + start.push(PathCmd::LineTo(k as usize)))
        } else if fin[k] {
            (first, last, cmds.push(PathCmd::MoveTo(k as usize)))
        } else if fin[k - 1] {
            (first, last, cmds.push(PathCmd::LineToBase((k - 1) as usize)))
        } else {
            (first, last, cmds)
        }
    }
}

/// The commands of a filled line: as a line, but where the line stops at a
/// non-finite point it goes down to the base line; with `base`, it also starts and
/// ends on the base line; the path is closed once a segment was drawn.
pub open spec fn fill_commands(fin: Seq<bool>, base: bool) -> Seq<PathCmd> {
    let (first, last, cmds) = fill_state(fin, base, fin.len() - 1);
    match last {
        Some(x) => if base {
            cmds.push(PathCmd::LineToBase(x)).push(PathCmd::Close)
        } else {
            cmds.push(PathCmd::Close)
        },
        None => cmds,
    }
}

/// A command of a line path that only visits finite points: a move to a finite point,
/// or a segment from one finite point to the next.
pub open spec fn line_cmd_ok(fin: Seq<bool>, c: PathCmd) -> bool {
    match c {
        PathCmd::MoveTo(i) => i < fin.len() && fin[i as int],
        PathCmd::LineTo(i) => 1 <= i < fin.len() && fin[i as int] && fin[i - 1],
        _ => false,
    }
}

proof fn lemma_line_state_ok(fin: Seq<bool>, k: int)
    requires
        k < fin.len() <= usize::MAX,
    ensures
        forall|j: int| 0 <= j < line_state(fin, k).1.len() ==> line_cmd_ok(fin, #[trigger] line_state(fin, k).1[j]),
    decreases k,
{
    if k > 0 {
        lemma_line_state_ok(fin, k - 1);
        let (first, cmds) = line_state(fin, k - 1);
        let out = line_state(fin, k).1;
        assert forall|j: int| 0 <= j < out.len() implies line_cmd_ok(fin, #[trigger] out[j]) by {
            if j < cmds.len() {
                assert(out[j] == cmds[j]);
            }
        }
    }
}

/// A line never visits a point that is not finite, and draws a segment only between
/// two consecutive finite points: the line breaks at every point that is not finite.
pub proof fn lemma_line_breaks(fin: Seq<bool>)
    requires
        fin.len() <= usize::MAX,
    ensures
        forall|j: int| 0 <= j < line_commands(fin).len() ==> line_cmd_ok(fin, #[trigger] line_commands(fin)[j]),
{
    if fin.len() > 0 {
        lemma_line_state_ok(fin, fin.len() - 1);
    }
}

/// A command of a filled path that only visits finite points or the base line at a
/// finite point.
pub open spec fn fill_cmd_ok(fin: Seq<bool>, c: PathCmd) -> bool {
    match c {
        PathCmd::MoveTo(i) => i < fin.len() && fin[i as int],
        PathCmd::LineTo(i) => i < fin.len() && fin[i as int],
        PathCmd::MoveToBase(i) => i < fin.len() && fin[i as int],
        PathCmd::LineToBase(i) => i < fin.len() && fin[i as int],
        PathCmd::Close => true,
    }
}

proof fn lemma_fill_state_ok(fin: Seq<bool>, base: bool, k: int)
    requires
        k < fin.len() <= usize::MAX,
    ensures
        forall|j: int| 0 <= j < fill_state(fin, base, k).2.len() ==> fill_cmd_ok(fin, #[trigger] fill_state(fin, base, k).2[j]),
        fill_state(fin, base, k).1 matches Some(x) ==> x < fin.len() && fin[x as int],
    decreases k,
{
    if k > 0 {
        lemma_fill_state_ok(fin, base, k - 1);
        let (first, last, cmds) = fill_state(fin, base, k - 1);
        if fin[k] && fin[k - 1] {
            let start: Seq<PathCmd> = if !first {
                Seq::empty()
            } else if base {
                seq![PathCmd::MoveToBase((k - 1) as usize), PathCmd::LineTo((k - 1) as usize)]
            } else {
                seq![PathCmd::MoveTo((k - 1) as usize)]
            };
            let out = cmds + start.push(PathCmd::LineTo(k as usize));
            assert forall|j: int| 0 <= j < out.len() implies fill_cmd_ok(fin, #[trigger] out[j]) by {
                if j >= cmds.len() {
                    let jj = j - cmds.len();
                    assert(out[j] == start.push(PathCmd::LineTo(k as usize))[jj]);
                } else {
                    assert(out[j] == cmds[j]);
                }
            }
            assert(out == fill_state(fin, base, k).2);
        } else {
            let out = fill_state(fin, base, k).2;
            assert forall|j: int| 0 <= j < out.len() implies fill_cmd_ok(fin, #[trigger] out[j]) by {
                if j < cmds.len() {
                    assert(out[j] == cmds[j]);
                }
            }
        }
    }
}

/// A filled line visits only finite points, and the base line only below or above a
/// finite point.
pub proof fn lemma_fill_finite(fin: Seq<bool>, base: bool)
    requires
        fin.len() <= usize::MAX,
    ensures
        forall|j: int| 0 <= j < fill_commands(fin, base).len() ==> fill_cmd_ok(fin, #[trigger] fill_commands(fin, base)[j]),
{
    if fin.len() > 0 {
        lemma_fill_state_ok(fin, base, fin.len() - 1);
    }
}

/// A command that ends at point `i`: a move or a line to it.
pub open spec fn at_point(c: PathCmd, i: int) -> bool {
    c == PathCmd::MoveTo(i as usize) || c == PathCmd::LineTo(i as usize)
}

proof fn lemma_line_prefix(fin: Seq<bool>, k: int, k2: int)
    requires
        0 <= k <= k2,
    ensures
        line_state(fin, k).1.len() <= line_state(fin, k2).1.len(),
        line_state(fin, k2).1.subrange(0, line_state(fin, k).1.len() as int) == line_state(fin, k).1,
    decreases k2 - k,
{
    if k < k2 {
        lemma_line_prefix(fin, k, k2 - 1);
        let a = line_state(fin, k).1;
        let b = line_state(fin, k2 - 1).1;
        let c = line_state(fin, k2).1;
        assert(c.subrange(0, b.len() as int) == b);
        assert(c.subrange(0, a.len() as int) =~= b.subrange(0, a.len() as int));
    }
}

proof fn lemma_line_last(fin: Seq<bool>, m: int)
    requires
        1 <= m < fin.len(),
        fin[m],
    ensures
        line_state(fin, m).1.len() >= 1,
        at_point(line_state(fin, m).1.last(), m),
{
}

/// A line joins every two consecutive finite points: for each point `k` that is
/// finite after a finite point `k - 1`, the commands hold a line to `k` right after a
/// command that ends at `k - 1`.
pub proof fn lemma_line_joins(fin: Seq<bool>)
    requires
        fin.len() <= usize::MAX,
    ensures
        forall|k: int| 1 <= k < fin.len() && fin[k - 1] && #[trigger] fin[k] ==> exists|j: int|
            1 <= j < line_commands(fin).len() && #[trigger] line_commands(fin)[j] == PathCmd::LineTo(k as usize)
            && at_point(line_commands(fin)[j - 1], k - 1),
{
    assert forall|k: int| 1 <= k < fin.len() && fin[k - 1] && #[trigger] fin[k] implies exists|j: int|
        1 <= j < line_commands(fin).len() && #[trigger] line_commands(fin)[j] == PathCmd::LineTo(k as usize)
        && at_point(line_commands(fin)[j - 1], k - 1) by {
        let (first, prev) = line_state(fin, k - 1);
        let cur = line_state(fin, k).1;
        let j = cur.len() - 1;
        assert(cur[j] == PathCmd::LineTo(k as usize));
        if first {
            assert(cur[j - 1] == PathCmd::MoveTo((k - 1) as usize));
        } else {
            assert(k - 1 >= 1);
            lemma_line_last(fin, k - 1);
            assert(cur[j - 1] == prev.last());
        }
        lemma_line_prefix(fin, k, fin.len() - 1);
        let all = line_commands(fin);
        assert(all.subrange(0, cur.len() as int) == cur);
        assert(all[j] == cur[j]);
        assert(all[j - 1] == cur[j - 1]);
    }
}

proof fn lemma_fill_prefix(fin: Seq<bool>, base: bool, k: int, k2: int)
    requires
        0 <= k <= k2,
    ensures
        fill_state(fin, base, k).2.len() <= fill_state(fin, base, k2).2.len(),
        fill_state(fin, base, k2).2.subrange(0, fill_state(fin, base, k).2.len() as int) == fill_state(fin, base, k).2,
    decreases k2 - k,
{
    if k < k2 {
        lemma_fill_prefix(fin, base, k, k2 - 1);
        let a = fill_state(fin, base, k).2;
        let b = fill_state(fin, base, k2 - 1).2;
        let c = fill_state(fin, base, k2).2;
        assert(c.subrange(0, b.len() as int) =~= b);
        assert(c.subrange(0, a.len() as int) =~= b.subrange(0, a.len() as int));
    }
}

proof fn lemma_fill_last(fin: Seq<bool>, base: bool, m: int)
    requires
        1 <= m < fin.len(),
        fin[m],
    ensures
        fill_state(fin, base, m).2.len() >= 1,
        at_point(fill_state(fin, base, m).2.last(), m),
{
}

/// A filled line goes down to the base line wherever it stops: for each point `k` that
/// is not finite after a finite point `k - 1`, the commands hold a line to the base
/// line at `k - 1` right after the command that ends at `k - 1` (or first of all,
/// where `k - 1` is the first point), with or without a start and end on the base
/// line.
pub proof fn lemma_fill_drops_to_base(fin: Seq<bool>, base: bool)
    requires
        fin.len() <= usize::MAX,
    ensures
        forall|k: int| 1 <= k < fin.len() && fin[k - 1] && !(#[trigger] fin[k]) ==> exists|j: int|
            0 <= j < fill_commands(fin, base).len()
            && #[trigger] fill_commands(fin, base)[j] == PathCmd::LineToBase((k - 1) as usize)
            && ((j == 0 && k == 1) || (j > 0 && at_point(fill_commands(fin, base)[j - 1], k - 1))),
{
    assert forall|k: int| 1 <= k < fin.len() && fin[k - 1] && !(#[trigger] fin[k]) implies exists|j: int|
        0 <= j < fill_commands(fin, base).len()
        && #[trigger] fill_commands(fin, base)[j] == PathCmd::LineToBase((k - 1) as usize)
        && ((j == 0 && k == 1) || (j > 0 && at_point(fill_commands(fin, base)[j - 1], k - 1))) by {
        let prev = fill_state(fin, base, k - 1).2;
        let cur = fill_state(fin, base, k).2;
        let j = cur.len() - 1;
        assert(cur == prev.push(PathCmd::LineToBase((k - 1) as usize)));
        if k - 1 >= 1 {
            lemma_fill_last(fin, base, k - 1);
            assert(cur[j - 1] == prev.last());
        } else {
            assert(prev.len() == 0);
        }
        lemma_fill_prefix(fin, base, k, fin.len() - 1);
        let st = fill_state(fin, base, fin.len() - 1).2;
        let all = fill_commands(fin, base);
        assert(all.subrange(0, st.len() as int) =~= st);
        assert(st.subrange(0, cur.len() as int) == cur);
        assert(all[j] == st[j]);
        assert(st[j] == cur[j]);
        if j > 0 {
            assert(all[j - 1] == st[j - 1]);
            assert(st[j - 1] == cur[j - 1]);
        }
    }
}

///
/// A line through the points of one plot.
///
pub struct Line {
    finite: Vec<bool>,
}

impl Line {
    /// A line through points, given whether each point has finite coordinates.
    pub fn new(finite: Vec<bool>) -> (r: Line)
        ensures
            r.finite() == finite@,
    {
        Line { finite }
    }

    /// Whether each point has finite coordinates.
    pub closed spec fn finite(&self) -> Seq<bool> {
        self.finite@
    }

    /// The commands of the path that draws the line.
    pub fn commands(&self) -> (r: Vec<PathCmd>)
        ensures
            r@ == line_commands(self.finite()),
    {
        let n = self.finite.len();
        let mut cmds: Vec<PathCmd> = Vec::new();
        if n == 0 {
            return cmds;
        }
        let mut first = true;
        let mut i: usize = 1;
        while i < n
            invariant
                n == self.finite@.len(),
                1 <= i <= n,
                (first, cmds@) == line_state(self.finite@, i - 1),
            decreases n - i,
        {
            let f_new = self.finite[i];
            let f_last = self.finite[i - 1];
            if f_new && f_last {
                if first {
                    cmds.push(PathCmd::MoveTo(i - 1));
                    first = false;
                }
                cmds.push(PathCmd::LineTo(i));
            } else if f_new {
                cmds.push(PathCmd::MoveTo(i));
            }
            i = i + 1;
        }
        cmds
    }
}

///
/// A line through the points of one plot, filled down to a base line.
///
pub struct LineFill {
    finite: Vec<bool>,
    add_start_end_base: bool,
}

impl LineFill {
    /// A filled line through points, given whether each point has finite coordinates.
    /// With `add_start_end_base`, the path starts and ends on the base line.
    pub fn new(finite: Vec<bool>, add_start_end_base: bool) -> (r: LineFill)
        ensures
            r.finite() == finite@,
            r.add_start_end_base() == add_start_end_base,
    {
        LineFill { finite, add_start_end_base }
    }

    /// Whether each point has finite coordinates.
    pub closed spec fn finite(&self) -> Seq<bool> {
        self.finite@
    }

    /// Whether the path starts and ends on the base line.
    pub closed spec fn add_start_end_base(&self) -> bool {
        self.add_start_end_base
    }

    /// The commands of the path that draws the filled line.
    pub fn commands(&self) -> (r: Vec<PathCmd>)
        ensures
            r@ == fill_commands(self.finite(), self.add_start_end_base()),
    {
        let n = self.finite.len();
        let base = self.add_start_end_base;
        let mut cmds: Vec<PathCmd> = Vec::new();
        if n == 0 {
            return cmds;
        }
        let mut first = true;
        let mut last_finite: Option<usize> = None;
        let mut i: usize = 1;
        while i < n
            invariant
                n == self.finite@.len(),
                base == self.add_start_end_base,
                1 <= i <= n,
                (first, last_finite, cmds@) == fill_state(self.finite@, base, i - 1),
            decreases n - i,
        {
            let f_new = self.finite[i];
            let f_last = self.finite[i - 1];
            let ghost before = cmds@;
            if f_new && f_last {
                if first {
                    if base {
                        cmds.push(PathCmd::MoveToBase(i - 1));
                        cmds.push(PathCmd::LineTo(i - 1));
                    } else {
                        cmds.push(PathCmd::MoveTo(i - 1));
                    }
                    first = false;
                }
                last_finite = Some(i);
                cmds.push(PathCmd::LineTo(i));
                proof {
                    let (f0, l0, c0) = fill_state(self.finite@, base, i - 1);
                    let start: Seq<PathCmd> = if !f0 {
                        Seq::empty()
                    } else if base {
                        seq![PathCmd::MoveToBase((i - 1) as usize), PathCmd::LineTo((i - 1) as usize)]
                    } else {
                        seq![PathCmd::MoveTo((i - 1) as usize)]
                    };
                    assert(cmds@ =~= before + start.push(PathCmd::LineTo(i)));
                }
            } else if f_new {
                cmds.push(PathCmd::MoveTo(i));
            } else if f_last {
                cmds.push(PathCmd::LineToBase(i - 1));
            }
            i = i + 1;
        }
        if let Some(x) = last_finite {
            if base {
                cmds.push(PathCmd::LineToBase(x));
            }
            cmds.push(PathCmd::Close);
        }
        cmds
    }
}

} // verus!
