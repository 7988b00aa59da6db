//! Pane layout: a binary split tree of pane ids, the rectangles it assigns,
//! and the operations that reshape it (split, remove, swap, resize).

use vstd::prelude::*;

verus! {

/// The largest canvas, in cells, that frames are allocated for.
pub const MAX_TERMINAL_CELLS: usize = 1_000_000;

/// How a split divides its rectangle: side by side (vertical border) or
/// stacked (horizontal border).
#[derive(Clone, Copy, Debug, PartialEq, Eq, Structural)]
pub enum SplitAxis {
    Horizontal,
    Vertical,
}

#[derive(Clone, Copy, Debug, PartialEq, Eq, Structural)]
pub enum Direction {
    Left,
    Right,
    Up,
    Down,
}

/// A pane tree: leaves are pane ids; a split gives `ratio` thousandths of its
/// extent to `first`.
#[derive(Debug, PartialEq, Eq)]
pub enum PaneNode {
    Leaf(usize),
    Split { axis: SplitAxis, ratio: u16, first: Box<PaneNode>, second: Box<PaneNode> },
}

#[derive(Clone, Copy, Debug, Default, PartialEq, Eq, Structural)]
pub struct PaneRect {
    pub column: u16,
    pub row: u16,
    pub width: u16,
    pub height: u16,
}

/// A grabbed split border: the path to the split (false = first child), its
/// axis, the rectangle it divides and where the pointer sits relative to the border.
#[derive(Clone, Debug, PartialEq, Eq)]
pub struct PaneResizeHandle {
    path: Vec<bool>,
    axis: SplitAxis,
    rect: PaneRect,
    pointer_offset: i32,
}

/// The contents of a resize handle.
pub struct HandleModel {
    pub path: Seq<bool>,
    pub axis: SplitAxis,
    pub rect: PaneRect,
    pub pointer_offset: i32,
}

impl View for PaneResizeHandle {
    type V = HandleModel;

    closed spec fn view(&self) -> HandleModel {
        HandleModel { path: self.path@, axis: self.axis, rect: self.rect, pointer_offset: self.pointer_offset }
    }
}

impl PaneResizeHandle {
    pub fn axis(&self) -> (r: SplitAxis)
        ensures
            r == self@.axis,
    {
        self.axis
    }
}

/// Pixel and cell dimensions of a pseudo-terminal.
#[derive(Clone, Copy, Debug, PartialEq, Eq, Structural)]
pub struct WinSize {
    pub ws_row: u16,
    pub ws_col: u16,
    pub ws_xpixel: u16,
    pub ws_ypixel: u16,
}

/// Why a terminal size cannot be drawn on.
#[derive(Clone, Copy, Debug, PartialEq, Eq, Structural)]
pub enum SizeError {
    /// A dimension is zero.
    Empty,
    /// The canvas has more than `MAX_TERMINAL_CELLS` cells.
    TooLarge,
}

pub open spec fn sat_sub16(a: u16, b: u16) -> u16 {
    if a >= b {
        (a - b) as u16
    } else {
        0
    }
}

pub open spec fn max16(a: u16, b: u16) -> u16 {
    if a >= b {
        a
    } else {
        b
    }
}

pub open spec fn min16(a: u16, b: u16) -> u16 {
    if a <= b {
        a
    } else {
        b
    }
}

fn saturating_sub16(a: u16, b: u16) -> (r: u16)
    ensures
        r == sat_sub16(a, b),
{
    if a >= b {
        a - b
    } else {
        0
    }
}

fn maximum16(a: u16, b: u16) -> (r: u16)
    ensures
        r == max16(a, b),
{
    if a >= b {
        a
    } else {
        b
    }
}

fn minimum16(a: u16, b: u16) -> (r: u16)
    ensures
        r == min16(a, b),
{
    if a <= b {
        a
    } else {
        b
    }
}

/// The pane area: two border columns and the chrome rows are taken away,
/// leaving at least one cell each way.
pub open spec fn content_size_spec(size: (u16, u16), compact: bool) -> (u16, u16) {
    (max16(sat_sub16(size.0, 2), 1), max16(sat_sub16(size.1, if compact { 2 } else { 4 }), 1))
}

pub fn content_size_for(size: (u16, u16), compact: bool) -> (r: (u16, u16))
    ensures
        r == content_size_spec(size, compact),
{
    let (columns, rows) = size;
    let reserved: u16 = if compact {
        2
    } else {
        4
    };
    (maximum16(saturating_sub16(columns, 2), 1), maximum16(saturating_sub16(rows, reserved), 1))
}

/// Reject empty terminals and canvases too large to allocate frames for.
pub fn validate_terminal_size(size: (u16, u16)) -> (r: Result<(), SizeError>)
    ensures
        r == (if size.0 == 0 || size.1 == 0 {
            Err(SizeError::Empty)
        } else if size.0 * size.1 > MAX_TERMINAL_CELLS {
            Err(SizeError::TooLarge)
        } else {
            Ok(())
        }),
{
    let (columns, rows) = size;
    if columns == 0 || rows == 0 {
        return Err(SizeError::Empty);
    }
    assert((columns as u64) * (rows as u64) <= 0xffff * 0xffff) by (nonlinear_arith)
        requires
            columns <= 0xffff,
            rows <= 0xffff,
    ;
    let cells = (columns as u64) * (rows as u64);
    if cells > MAX_TERMINAL_CELLS as u64 {
        return Err(SizeError::TooLarge);
    }
    Ok(())
}

pub fn content_rect_for(size: (u16, u16), compact: bool) -> (r: PaneRect)
    ensures
        r == (PaneRect {
            column: 0,
            row: 0,
            width: content_size_spec(size, compact).0,
            height: content_size_spec(size, compact).1,
        }),
{
    let (width, height) = content_size_for(size, compact);
    PaneRect { column: 0, row: 0, width, height }
}

/// The tiled area keeps the full width and drops the bar rows.
pub fn tiled_content_rect_for(size: (u16, u16), compact: bool) -> (r: PaneRect)
    ensures
        r == (PaneRect {
            column: 0,
            row: 0,
            width: max16(size.0, 1),
            height: max16(sat_sub16(size.1, if compact { 1 } else { 2 }), 1),
        }),
{
    let (columns, rows) = size;
    let reserved: u16 = if compact {
        1
    } else {
        2
    };
    PaneRect {
        column: 0,
        row: 0,
        width: maximum16(columns, 1),
        height: maximum16(saturating_sub16(rows, reserved), 1),
    }
}

/// The pane ids in layout order.
pub open spec fn ids(n: PaneNode) -> Seq<usize>
    decreases n,
{
    match n {
        PaneNode::Leaf(id) => seq![id],
        PaneNode::Split { first, second, .. } => ids(*first) + ids(*second),
    }
}

/// Split the first leaf holding `target` into `target` and `new_id`.
pub open spec fn split_spec(n: PaneNode, target: usize, new_id: usize, axis: SplitAxis) -> (PaneNode, bool)
    decreases n,
{
    match n {
        PaneNode::Leaf(id) => if id == target {
            (
                PaneNode::Split {
                    axis,
                    ratio: 500,
                    first: Box::new(PaneNode::Leaf(target)),
                    second: Box::new(PaneNode::Leaf(new_id)),
                },
                true,
            )
        } else {
            (n, false)
        },
        PaneNode::Split { axis: a, ratio, first, second } => {
            let f = split_spec(*first, target, new_id, axis);
            if f.1 {
                (PaneNode::Split { axis: a, ratio, first: Box::new(f.0), second }, true)
            } else {
                let s = split_spec(*second, target, new_id, axis);
                (PaneNode::Split { axis: a, ratio, first, second: Box::new(s.0) }, s.1)
            }
        },
    }
}

fn split_node(n: PaneNode, target: usize, new_id: usize, axis: SplitAxis) -> (r: (PaneNode, bool))
    ensures
        r == split_spec(n, target, new_id, axis),
    decreases n,
{
    match n {
        PaneNode::Leaf(id) => {
            if id == target {
                (
                    PaneNode::Split {
                        axis,
                        ratio: 500,
                        first: Box::new(PaneNode::Leaf(target)),
                        second: Box::new(PaneNode::Leaf(new_id)),
                    },
                    true,
                )
            } else {
                (PaneNode::Leaf(id), false)
            }
        },
        PaneNode::Split { axis: a, ratio, first, second } => {
            let (f, found) = split_node(*first, target, new_id, axis);
            proof {
                lemma_split_unchanged(*first, target, new_id, axis);
            }
            if found {
                (PaneNode::Split { axis: a, ratio, first: Box::new(f), second }, true)
            } else {
                let (s, found) = split_node(*second, target, new_id, axis);
                (PaneNode::Split { axis: a, ratio, first: Box::new(f), second: Box::new(s) }, found)
            }
        },
    }
}

/// Splitting nothing leaves the tree as it was.
pub proof fn lemma_split_unchanged(n: PaneNode, target: usize, new_id: usize, axis: SplitAxis)
    ensures
        !split_spec(n, target, new_id, axis).1 ==> split_spec(n, target, new_id, axis).0 == n,
    decreases n,
{
    match n {
        PaneNode::Leaf(_) => {},
        PaneNode::Split { first, second, .. } => {
            lemma_split_unchanged(*first, target, new_id, axis);
            lemma_split_unchanged(*second, target, new_id, axis);
        },
    }
}

/// Split the pane `target` in two, giving half its extent to `new_id`.
/// Returns whether `target` was found.
pub fn split_pane(node: &mut PaneNode, target: usize, new_id: usize, axis: SplitAxis) -> (r: bool)
    ensures
        (*final(node), r) == split_spec(*old(node), target, new_id, axis),
{
    let mut taken = PaneNode::Leaf(0);
    std::mem::swap(&mut taken, node);
    let (updated, found) = split_node(taken, target, new_id, axis);
    *node = updated;
    found
}

/// A split gains the new pane right after the first occurrence of `target`
/// in layout order, and happens exactly when `target` is in the tree.
pub proof fn lemma_split_ids(n: PaneNode, target: usize, new_id: usize, axis: SplitAxis)
    ensures
        split_spec(n, target, new_id, axis).1 == ids(n).contains(target),
        split_spec(n, target, new_id, axis).1 ==> exists|pre: Seq<usize>, suf: Seq<usize>|
            {
                &&& !pre.contains(target)
                &&& ids(n) == pre + seq![target] + suf
                &&& ids(split_spec(n, target, new_id, axis).0) == pre + seq![target, new_id] + suf
            },
    decreases n,
{
    match n {
        PaneNode::Leaf(id) => {
            if id == target {
                let pre = Seq::<usize>::empty();
                let suf = Seq::<usize>::empty();
                assert(ids(n) =~= pre + seq![target] + suf);
                assert(ids(PaneNode::Leaf(target)) == seq![target]);
                assert(ids(PaneNode::Leaf(new_id)) == seq![new_id]);
                assert(ids(split_spec(n, target, new_id, axis).0) =~= pre + seq![target, new_id] + suf);
                assert(ids(n)[0] == target);
            } else {
                assert(!ids(n).contains(target)) by {
                    if ids(n).contains(target) {
                        let k = choose|k: int| 0 <= k < ids(n).len() && ids(n)[k] == target;
                        assert(k == 0);
                    }
                }
            }
        },
        PaneNode::Split { axis: a, ratio, first, second } => {
            lemma_split_ids(*first, target, new_id, axis);
            lemma_split_ids(*second, target, new_id, axis);
            lemma_split_unchanged(*first, target, new_id, axis);
            let fi = ids(*first);
            let si = ids(*second);
            assert(ids(n) == fi + si);
            assert((fi + si).contains(target) == (fi.contains(target) || si.contains(target))) by {
                if (fi + si).contains(target) {
                    let k = choose|k: int| 0 <= k < (fi + si).len() && (fi + si)[k] == target;
                    if k < fi.len() {
                        assert(fi[k] == target);
                    } else {
                        assert(si[k - fi.len()] == target);
                    }
                }
                if fi.contains(target) {
                    let k = choose|k: int| 0 <= k < fi.len() && fi[k] == target;
                    assert((fi + si)[k] == target);
                }
                if si.contains(target) {
                    let k = choose|k: int| 0 <= k < si.len() && si[k] == target;
                    assert((fi + si)[k + fi.len()] == target);
                }
            }
            let result = split_spec(n, target, new_id, axis);
            if fi.contains(target) {
                let (pre, suf) = choose|pre: Seq<usize>, suf: Seq<usize>|
                    {
                        &&& !pre.contains(target)
                        &&& fi == pre + seq![target] + suf
                        &&& ids(split_spec(*first, target, new_id, axis).0) == pre + seq![target, new_id] + suf
                    };
                assert(ids(n) =~= pre + seq![target] + (suf + si));
                assert(ids(result.0) =~= pre + seq![target, new_id] + (suf + si));
            } else if si.contains(target) {
                let (pre, suf) = choose|pre: Seq<usize>, suf: Seq<usize>|
                    {
                        &&& !pre.contains(target)
                        &&& si == pre + seq![target] + suf
                        &&& ids(split_spec(*second, target, new_id, axis).0) == pre + seq![target, new_id] + suf
                    };
                assert(!(fi + pre).contains(target)) by {
                    if (fi + pre).contains(target) {
                        let k = choose|k: int| 0 <= k < (fi + pre).len() && (fi + pre)[k] == target;
                        if k < fi.len() {
                            assert(fi[k] == target);
                        } else {
                            assert(pre[k - fi.len()] == target);
                        }
                    }
                }
                assert(ids(n) =~= (fi + pre) + seq![target] + suf);
                assert(ids(result.0) =~= (fi + pre) + seq![target, new_id] + suf);
            }
        },
    }
}

/// Remove a pane; a split left with one child collapses into that child.
pub open spec fn remove_spec(n: PaneNode, target: usize) -> Option<PaneNode>
    decreases n,
{
    match n {
        PaneNode::Leaf(id) => if id != target {
            Some(n)
        } else {
            None
        },
        PaneNode::Split { axis, ratio, first, second } => {
            let f = remove_spec(*first, target);
            let s = remove_spec(*second, target);
            match (f, s) {
                (Some(f), Some(s)) => Some(PaneNode::Split { axis, ratio, first: Box::new(f), second: Box::new(s) }),
                (Some(node), None) => Some(node),
                (None, Some(node)) => Some(node),
                (None, None) => None,
            }
        },
    }
}

pub fn remove_pane(node: PaneNode, target: usize) -> (r: Option<PaneNode>)
    ensures
        r == remove_spec(node, target),
    decreases node,
{
    match node {
        PaneNode::Leaf(id) => {
            if id != target {
                Some(PaneNode::Leaf(id))
            } else {
                None
            }
        },
        PaneNode::Split { axis, ratio, first, second } => {
            let f = remove_pane(*first, target);
            let s = remove_pane(*second, target);
            match (f, s) {
                (Some(f), Some(s)) => Some(PaneNode::Split { axis, ratio, first: Box::new(f), second: Box::new(s) }),
                (Some(node), None) => Some(node),
                (None, Some(node)) => Some(node),
                (None, None) => None,
            }
        },
    }
}

/// Removing a pane keeps every other pane, in order; the tree disappears only
/// when nothing else is left.
pub proof fn lemma_remove_ids(n: PaneNode, target: usize)
    ensures
        match remove_spec(n, target) {
            Some(r) => ids(r) == ids(n).filter(|id: usize| id != target) && ids(r).len() > 0,
            None => ids(n).filter(|id: usize| id != target).len() == 0,
        },
    decreases n,
{
    match n {
        PaneNode::Leaf(id) => {
            assert(ids(n) =~= seq![id]);
            reveal_with_fuel(Seq::filter, 2);
            assert(seq![id].drop_last() =~= Seq::<usize>::empty());
            if id != target {
                assert(seq![id].filter(|x: usize| x != target) =~= seq![id]);
            }
        },
        PaneNode::Split { first, second, .. } => {
            lemma_remove_ids(*first, target);
            lemma_remove_ids(*second, target);
            Seq::filter_distributes_over_add(ids(*first), ids(*second), |x: usize| x != target);
            match (remove_spec(*first, target), remove_spec(*second, target)) {
                (Some(f), Some(s)) => {},
                (Some(f), None) => {
                    assert(ids(*second).filter(|x: usize| x != target) =~= Seq::<usize>::empty());
                    assert(ids(f) + Seq::<usize>::empty() =~= ids(f));
                },
                (None, Some(s)) => {
                    assert(ids(*first).filter(|x: usize| x != target) =~= Seq::<usize>::empty());
                    assert(Seq::<usize>::empty() + ids(s) =~= ids(s));
                },
                (None, None) => {},
            }
        },
    }
}

fn collect_ids(node: &PaneNode, out: &mut Vec<usize>)
    ensures
        final(out)@ == old(out)@ + ids(*node),
    decreases node,
{
    match node {
        PaneNode::Leaf(id) => {
            out.push(*id);
            assert(final(out)@ =~= old(out)@ + seq![*id]);
        },
        PaneNode::Split { first, second, .. } => {
            collect_ids(first, out);
            collect_ids(second, out);
            assert(final(out)@ =~= old(out)@ + (ids(**first) + ids(**second)));
        },
    }
}

/// The pane ids in layout order.
pub fn pane_ids(node: &PaneNode) -> (r: Vec<usize>)
    ensures
        r@ == ids(*node),
{
    let mut out = Vec::new();
    collect_ids(node, &mut out);
    assert(out@ =~= ids(*node));
    out
}

fn contains_id(v: &Vec<usize>, x: usize) -> (r: bool)
    ensures
        r == v@.contains(x),
{
    let mut i: usize = 0;
    while i < v.len()
        invariant
            i <= v@.len(),
            forall|j: int| 0 <= j < i ==> v@[j] != x,
        decreases v@.len() - i,
    {
        if v[i] == x {
            assert(v@[i as int] == x);
            return true;
        }
        i += 1;
    }
    false
}

/// Exchange two pane ids wherever they occur; the tree's shape is unchanged.
pub open spec fn swap_spec(n: PaneNode, a: usize, b: usize) -> PaneNode
    decreases n,
{
    match n {
        PaneNode::Leaf(id) => if id == a {
            PaneNode::Leaf(b)
        } else if id == b {
            PaneNode::Leaf(a)
        } else {
            n
        },
        PaneNode::Split { axis, ratio, first, second } => PaneNode::Split {
            axis,
            ratio,
            first: Box::new(swap_spec(*first, a, b)),
            second: Box::new(swap_spec(*second, a, b)),
        },
    }
}

fn swap_node(n: PaneNode, a: usize, b: usize) -> (r: PaneNode)
    ensures
        r == swap_spec(n, a, b),
    decreases n,
{
    match n {
        PaneNode::Leaf(id) => {
            if id == a {
                PaneNode::Leaf(b)
            } else if id == b {
                PaneNode::Leaf(a)
            } else {
                PaneNode::Leaf(id)
            }
        },
        PaneNode::Split { axis, ratio, first, second } => PaneNode::Split {
            axis,
            ratio,
            first: Box::new(swap_node(*first, a, b)),
            second: Box::new(swap_node(*second, a, b)),
        },
    }
}

/// Swap the positions of two distinct panes that are both in the tree.
pub fn swap_panes(node: &mut PaneNode, first_id: usize, second_id: usize) -> (r: bool)
    ensures
        r == (first_id != second_id && ids(*old(node)).contains(first_id) && ids(*old(node)).contains(second_id)),
        *final(node) == if r {
            swap_spec(*old(node), first_id, second_id)
        } else {
            *old(node)
        },
{
    if first_id == second_id {
        return false;
    }
    let all = pane_ids(node);
    if !contains_id(&all, first_id) || !contains_id(&all, second_id) {
        return false;
    }
    let mut taken = PaneNode::Leaf(0);
    std::mem::swap(&mut taken, node);
    *node = swap_node(taken, first_id, second_id);
    true
}

/// Swapping exchanges the two ids in the layout order and moves nothing else.
pub proof fn lemma_swap_ids(n: PaneNode, a: usize, b: usize)
    ensures
        ids(swap_spec(n, a, b)) == ids(n).map_values(
            |id: usize|
                if id == a {
                    b
                } else if id == b {
                    a
                } else {
                    id
                },
        ),
    decreases n,
{
    match n {
        PaneNode::Leaf(id) => {
            assert(ids(swap_spec(n, a, b)) =~= ids(n).map_values(
                |id: usize|
                    if id == a {
                        b
                    } else if id == b {
                        a
                    } else {
                        id
                    },
            ));
        },
        PaneNode::Split { first, second, .. } => {
            lemma_swap_ids(*first, a, b);
            lemma_swap_ids(*second, a, b);
            assert(ids(swap_spec(n, a, b)) =~= ids(n).map_values(
                |id: usize|
                    if id == a {
                        b
                    } else if id == b {
                        a
                    } else {
                        id
                    },
            ));
        },
    }
}

/// Swap the item at `current` with its neighbour `offset` places away; an
/// offset that leaves the list does nothing, and nothing wraps around.
pub fn move_item<T>(items: &mut Vec<T>, current: usize, offset: isize) -> (r: bool)
    requires
        current < old(items)@.len(),
    ensures
        r == (0 <= current + offset < old(items)@.len()),
        r ==> final(items)@ == old(items)@.update(current as int, old(items)@[current + offset]).update(
            current + offset,
            old(items)@[current as int],
        ),
        !r ==> final(items)@ == old(items)@,
{
    let length = items.len();
    let target = match current.checked_add_signed(offset) {
        Some(target) => target,
        None => {
            return false;
        },
    };
    if target >= items.len() {
        return false;
    }
    if target != current {
        let (low, high) = if current < target {
            (current, target)
        } else {
            (target, current)
        };
        let upper = items.remove(high);
        let lower = items.remove(low);
        items.insert(low, upper);
        items.insert(high, lower);
        assert(items@ =~= old(items)@.update(current as int, old(items)@[current + offset]).update(
            current + offset,
            old(items)@[current as int],
        ));
    }
    true
}

pub open spec fn clamp16(x: u16, lo: u16, hi: u16) -> u16 {
    if x < lo {
        lo
    } else if x > hi {
        hi
    } else {
        x
    }
}

fn clamp_u16(x: u16, lo: u16, hi: u16) -> (r: u16)
    ensures
        r == clamp16(x, lo, hi),
{
    if x < lo {
        lo
    } else if x > hi {
        hi
    } else {
        x
    }
}

/// A split's first extent: `ratio` thousandths of `total`, but each side keeps
/// at least three cells when the total allows it.
pub open spec fn split_extent_spec(total: u16, ratio: u16) -> u16 {
    let minimum = min16(total, 3);
    clamp16(((total as u32) * (ratio as u32) / 1000) as u16, minimum, max16(sat_sub16(total, minimum), minimum))
}

pub fn split_extent(total: u16, ratio: u16) -> (r: u16)
    ensures
        r == split_extent_spec(total, ratio),
        r <= total,
{
    assert((total as u32) * (ratio as u32) <= 0xffff * 0xffff) by (nonlinear_arith)
        requires
            total <= 0xffff,
            ratio <= 0xffff,
    ;
    let extent: u32 = (total as u32) * (ratio as u32) / 1000;
    let minimum = minimum16(total, 3);
    clamp_u16(extent as u16, minimum, maximum16(saturating_sub16(total, minimum), minimum))
}

/// A rectangle whose right and bottom edges are representable.
pub open spec fn fits(rect: PaneRect) -> bool {
    rect.column + rect.width <= u16::MAX && rect.row + rect.height <= u16::MAX
}

/// Divide a rectangle at the split's extent; the two parts tile it.
pub open spec fn split_rects_spec(rect: PaneRect, axis: SplitAxis, ratio: u16) -> (PaneRect, PaneRect) {
    match axis {
        SplitAxis::Vertical => {
            let w = split_extent_spec(rect.width, ratio);
            (
                PaneRect { width: w, ..rect },
                PaneRect { column: (rect.column + w) as u16, width: (rect.width - w) as u16, ..rect },
            )
        },
        SplitAxis::Horizontal => {
            let h = split_extent_spec(rect.height, ratio);
            (
                PaneRect { height: h, ..rect },
                PaneRect { row: (rect.row + h) as u16, height: (rect.height - h) as u16, ..rect },
            )
        },
    }
}

pub fn split_rects(rect: PaneRect, axis: SplitAxis, ratio: u16) -> (r: (PaneRect, PaneRect))
    requires
        fits(rect),
    ensures
        r == split_rects_spec(rect, axis, ratio),
        fits(r.0),
        fits(r.1),
{
    match axis {
        SplitAxis::Vertical => {
            let w = split_extent(rect.width, ratio);
            (
                PaneRect { width: w, ..rect },
                PaneRect { column: rect.column + w, width: rect.width - w, ..rect },
            )
        },
        SplitAxis::Horizontal => {
            let h = split_extent(rect.height, ratio);
            (
                PaneRect { height: h, ..rect },
                PaneRect { row: rect.row + h, height: rect.height - h, ..rect },
            )
        },
    }
}

/// Each pane's rectangle, in layout order.
pub open spec fn rects_spec(n: PaneNode, rect: PaneRect) -> Seq<(usize, PaneRect)>
    decreases n,
{
    match n {
        PaneNode::Leaf(id) => seq![(id, rect)],
        PaneNode::Split { axis, ratio, first, second } => {
            let parts = split_rects_spec(rect, axis, ratio);
            rects_spec(*first, parts.0) + rects_spec(*second, parts.1)
        },
    }
}

fn collect_rects(node: &PaneNode, rect: PaneRect, out: &mut Vec<(usize, PaneRect)>)
    requires
        fits(rect),
    ensures
        final(out)@ == old(out)@ + rects_spec(*node, rect),
    decreases node,
{
    match node {
        PaneNode::Leaf(id) => {
            out.push((*id, rect));
            assert(final(out)@ =~= old(out)@ + seq![(*id, rect)]);
        },
        PaneNode::Split { axis, ratio, first, second } => {
            let (a, b) = split_rects(rect, *axis, *ratio);
            collect_rects(first, a, out);
            collect_rects(second, b, out);
            assert(final(out)@ =~= old(out)@ + (rects_spec(**first, a) + rects_spec(**second, b)));
        },
    }
}

pub fn pane_rects(node: &PaneNode, rect: PaneRect) -> (r: Vec<(usize, PaneRect)>)
    requires
        fits(rect),
    ensures
        r@ == rects_spec(*node, rect),
{
    let mut out = Vec::new();
    collect_rects(node, rect, &mut out);
    assert(out@ =~= rects_spec(*node, rect));
    out
}

/// Every pane gets exactly one rectangle, in the same order as the ids.
pub proof fn lemma_rects_ids(n: PaneNode, rect: PaneRect)
    ensures
        rects_spec(n, rect).len() == ids(n).len(),
        forall|i: int| 0 <= i < ids(n).len() ==> #[trigger] rects_spec(n, rect)[i].0 == ids(n)[i],
    decreases n,
{
    match n {
        PaneNode::Leaf(_) => {},
        PaneNode::Split { axis, ratio, first, second } => {
            let parts = split_rects_spec(rect, axis, ratio);
            lemma_rects_ids(*first, parts.0);
            lemma_rects_ids(*second, parts.1);
            let a = rects_spec(*first, parts.0);
            let b = rects_spec(*second, parts.1);
            assert forall|i: int| 0 <= i < ids(n).len() implies #[trigger] rects_spec(n, rect)[i].0 == ids(n)[i] by {
                if i < a.len() {
                    assert((a + b)[i] == a[i]);
                } else {
                    assert((a + b)[i] == b[i - a.len()]);
                }
            }
        },
    }
}

/// The two parts of a split tile the rectangle exactly.
pub proof fn lemma_split_rects_tile(rect: PaneRect, axis: SplitAxis, ratio: u16)
    requires
        fits(rect),
    ensures
        ({
            let (a, b) = split_rects_spec(rect, axis, ratio);
            match axis {
                SplitAxis::Vertical => a.column == rect.column && a.width + b.width == rect.width && b.column
                    == a.column + a.width && a.row == rect.row && b.row == rect.row && a.height == rect.height
                    && b.height == rect.height,
                SplitAxis::Horizontal => a.row == rect.row && a.height + b.height == rect.height && b.row == a.row
                    + a.height && a.column == rect.column && b.column == rect.column && a.width == rect.width
                    && b.width == rect.width,
            }
        }),
{
}

pub open spec fn sat_add16(a: u16, b: u16) -> u16 {
    if a + b <= u16::MAX {
        (a + b) as u16
    } else {
        u16::MAX
    }
}

fn saturating_add16(a: u16, b: u16) -> (r: u16)
    ensures
        r == sat_add16(a, b),
{
    a.saturating_add(b)
}

/// The innermost split border at `position`: either of the two cells that
/// straddle a shared border grabs it.
pub open spec fn find_spec(n: PaneNode, rect: PaneRect, pos: (u16, u16), path: Seq<bool>) -> Option<HandleModel>
    decreases n,
{
    match n {
        PaneNode::Leaf(_) => None,
        PaneNode::Split { axis, ratio, first, second } => {
            let parts = split_rects_spec(rect, axis, ratio);
            let nested = find_spec(*first, parts.0, pos, path.push(false));
            if nested is Some {
                nested
            } else {
                let nested = find_spec(*second, parts.1, pos, path.push(true));
                if nested is Some {
                    nested
                } else {
                    let boundary = if axis == SplitAxis::Vertical {
                        parts.1.column
                    } else {
                        parts.1.row
                    };
                    let pointer = if axis == SplitAxis::Vertical {
                        pos.0
                    } else {
                        pos.1
                    };
                    let on_boundary = pointer == boundary || sat_add16(pointer, 1) == boundary;
                    let within_span = if axis == SplitAxis::Vertical {
                        pos.1 >= rect.row && pos.1 < sat_add16(rect.row, rect.height)
                    } else {
                        pos.0 >= rect.column && pos.0 < sat_add16(rect.column, rect.width)
                    };
                    if on_boundary && within_span {
                        Some(HandleModel { path, axis, rect, pointer_offset: (boundary - pointer) as i32 })
                    } else {
                        None
                    }
                }
            }
        },
    }
}

pub open spec fn handle_matches(r: Option<PaneResizeHandle>, m: Option<HandleModel>) -> bool {
    match r {
        Some(h) => m == Some(h@),
        None => m is None,
    }
}

fn find_handle(node: &PaneNode, rect: PaneRect, position: (u16, u16), path: &mut Vec<bool>) -> (r: Option<
    PaneResizeHandle,
>)
    requires
        fits(rect),
    ensures
        final(path)@ == old(path)@,
        handle_matches(r, find_spec(*node, rect, position, old(path)@)),
    decreases node,
{
    match node {
        PaneNode::Leaf(_) => None,
        PaneNode::Split { axis, ratio, first, second } => {
            let (first_rect, second_rect) = split_rects(rect, *axis, *ratio);
            let ghost start = path@;
            path.push(false);
            let nested = find_handle(first, first_rect, position, path);
            path.pop();
            assert(path@ =~= start);
            if nested.is_some() {
                return nested;
            }
            path.push(true);
            let nested = find_handle(second, second_rect, position, path);
            path.pop();
            assert(path@ =~= start);
            if nested.is_some() {
                return nested;
            }
            let vertical = match axis {
                SplitAxis::Vertical => true,
                SplitAxis::Horizontal => false,
            };
            let boundary = if vertical {
                second_rect.column
            } else {
                second_rect.row
            };
            let pointer = if vertical {
                position.0
            } else {
                position.1
            };
            let on_boundary = pointer == boundary || saturating_add16(pointer, 1) == boundary;
            let within_span = if vertical {
                position.1 >= rect.row && position.1 < saturating_add16(rect.row, rect.height)
            } else {
                position.0 >= rect.column && position.0 < saturating_add16(rect.column, rect.width)
            };
            if on_boundary && within_span {
                let copied = path.clone();
                assert(copied@ =~= start);
                Some(
                    PaneResizeHandle {
                        path: copied,
                        axis: *axis,
                        rect,
                        pointer_offset: (boundary as i32) - (pointer as i32),
                    },
                )
            } else {
                None
            }
        },
    }
}

/// The split border under `position`, if any, ready to be dragged.
pub fn pane_resize_handle(node: &PaneNode, rect: PaneRect, position: (u16, u16)) -> (r: Option<PaneResizeHandle>)
    requires
        fits(rect),
    ensures
        handle_matches(r, find_spec(*node, rect, position, Seq::empty())),
{
    let mut path = Vec::new();
    assert(path@ =~= Seq::<bool>::empty());
    find_handle(node, rect, position, &mut path)
}

/// The subtree reached by following `path` (false = first child).
pub open spec fn node_at(n: PaneNode, path: Seq<bool>) -> Option<PaneNode>
    decreases path.len(),
{
    if path.len() == 0 {
        Some(n)
    } else {
        match n {
            PaneNode::Leaf(_) => None,
            PaneNode::Split { first, second, .. } => node_at(
                if path[0] {
                    *second
                } else {
                    *first
                },
                path.drop_first(),
            ),
        }
    }
}

/// Set the ratio of the split reached by `path`.
pub open spec fn set_ratio_spec(n: PaneNode, path: Seq<bool>, ratio: u16) -> PaneNode
    decreases path.len(),
{
    match n {
        PaneNode::Leaf(_) => n,
        PaneNode::Split { axis, ratio: r, first, second } => if path.len() == 0 {
            PaneNode::Split { axis, ratio, first, second }
        } else if path[0] {
            PaneNode::Split { axis, ratio: r, first, second: Box::new(set_ratio_spec(*second, path.drop_first(), ratio)) }
        } else {
            PaneNode::Split { axis, ratio: r, first: Box::new(set_ratio_spec(*first, path.drop_first(), ratio)), second }
        },
    }
}

pub open spec fn clamp_int(x: int, lo: int, hi: int) -> int {
    if x < lo {
        lo
    } else if x > hi {
        hi
    } else {
        x
    }
}

/// The ratio a drag to `pos` gives: the border follows the pointer within the
/// split, rounding up, and each side keeps at least a tenth.
pub open spec fn drag_ratio(h: HandleModel, pos: (u16, u16)) -> Option<u16> {
    let vertical = h.axis == SplitAxis::Vertical;
    let pointer = if vertical {
        pos.0
    } else {
        pos.1
    };
    let start = if vertical {
        h.rect.column
    } else {
        h.rect.row
    };
    let total = if vertical {
        h.rect.width
    } else {
        h.rect.height
    };
    if total == 0 {
        None
    } else {
        let boundary = clamp_int(pointer + h.pointer_offset, start as int, sat_add16(start, total) as int);
        let extent = boundary - start;
        let ratio = (extent * 1000 + total - 1) / (total as int);
        Some(clamp16(ratio as u16, 100, 900))
    }
}

/// Dragging a border: the split on the handle's path gets the new ratio.
pub open spec fn resize_to_spec(n: PaneNode, h: HandleModel, pos: (u16, u16)) -> (PaneNode, bool) {
    match node_at(n, h.path) {
        Some(PaneNode::Split { ratio, .. }) => match drag_ratio(h, pos) {
            Some(updated) => (set_ratio_spec(n, h.path, updated), ratio != updated),
            None => (n, false),
        },
        _ => (n, false),
    }
}

fn ratio_at(node: &PaneNode, path: &Vec<bool>, i: usize) -> (r: Option<u16>)
    requires
        i <= path@.len(),
    ensures
        r == (match node_at(*node, path@.skip(i as int)) {
            Some(PaneNode::Split { ratio, .. }) => Some(ratio),
            _ => None,
        }),
    decreases path@.len() - i,
{
    proof {
        assert(path@.skip(i as int).len() == path@.len() - i);
    }
    match node {
        PaneNode::Leaf(_) => {
            if i == path.len() {
                assert(path@.skip(i as int).len() == 0);
            }
            None
        },
        PaneNode::Split { ratio, first, second, .. } => {
            if i == path.len() {
                assert(path@.skip(i as int).len() == 0);
                Some(*ratio)
            } else {
                assert(path@.skip(i as int).drop_first() =~= path@.skip(i + 1));
                assert(path@.skip(i as int)[0] == path@[i as int]);
                if path[i] {
                    ratio_at(second, path, i + 1)
                } else {
                    ratio_at(first, path, i + 1)
                }
            }
        },
    }
}

fn set_ratio_at(node: PaneNode, path: &Vec<bool>, i: usize, ratio: u16) -> (r: PaneNode)
    requires
        i <= path@.len(),
    ensures
        r == set_ratio_spec(node, path@.skip(i as int), ratio),
    decreases path@.len() - i,
{
    match node {
        PaneNode::Leaf(id) => PaneNode::Leaf(id),
        PaneNode::Split { axis, ratio: r, first, second } => {
            if i == path.len() {
                assert(path@.skip(i as int).len() == 0);
                PaneNode::Split { axis, ratio, first, second }
            } else {
                assert(path@.skip(i as int).drop_first() =~= path@.skip(i + 1));
                assert(path@.skip(i as int)[0] == path@[i as int]);
                if path[i] {
                    PaneNode::Split { axis, ratio: r, first, second: Box::new(set_ratio_at(*second, path, i + 1, ratio)) }
                } else {
                    PaneNode::Split { axis, ratio: r, first: Box::new(set_ratio_at(*first, path, i + 1, ratio)), second }
                }
            }
        },
    }
}

fn drag_ratio_exec(handle: &PaneResizeHandle, position: (u16, u16)) -> (r: Option<u16>)
    ensures
        r == drag_ratio(handle@, position),
{
    let vertical = match handle.axis {
        SplitAxis::Vertical => true,
        SplitAxis::Horizontal => false,
    };
    let pointer = if vertical {
        position.0
    } else {
        position.1
    };
    let start = if vertical {
        handle.rect.column
    } else {
        handle.rect.row
    };
    let total = if vertical {
        handle.rect.width
    } else {
        handle.rect.height
    };
    if total == 0 {
        return None;
    }
    let lo = start as i64;
    let hi = saturating_add16(start, total) as i64;
    let wanted = (pointer as i64) + (handle.pointer_offset as i64);
    let boundary = if wanted < lo {
        lo
    } else if wanted > hi {
        hi
    } else {
        wanted
    };
    let extent = (boundary - lo) as u32;
    assert(extent <= total);
    let ratio = (extent * 1000 + (total as u32) - 1) / (total as u32);
    assert(ratio <= 1000) by (nonlinear_arith)
        requires
            extent <= total,
            total >= 1,
            ratio == (extent * 1000 + total - 1) / (total as int),
    ;
    Some(clamp_u16(ratio as u16, 100, 900))
}

/// Drag the grabbed border to `position`. Returns whether the ratio changed.
pub fn resize_pane_to(node: &mut PaneNode, handle: &PaneResizeHandle, position: (u16, u16)) -> (r: bool)
    ensures
        (*final(node), r) == resize_to_spec(*old(node), handle@, position),
{
    assert(handle.path@.skip(0) =~= handle.path@);
    let current = match ratio_at(node, &handle.path, 0) {
        Some(current) => current,
        None => {
            return false;
        },
    };
    let updated = match drag_ratio_exec(handle, position) {
        Some(updated) => updated,
        None => {
            return false;
        },
    };
    let mut taken = PaneNode::Leaf(0);
    std::mem::swap(&mut taken, node);
    *node = set_ratio_at(taken, &handle.path, 0, updated);
    current != updated
}

/// One resize step nudges the nearest enclosing border that can move the
/// pane's edge in `direction` by 50 thousandths, keeping ratios in [100, 900].
pub open spec fn resize_spec(n: PaneNode, target: usize, direction: Direction) -> (PaneNode, bool)
    decreases n,
{
    match n {
        PaneNode::Leaf(_) => (n, false),
        PaneNode::Split { axis, ratio, first, second } => {
            let in_first = ids(*first).contains(target);
            let in_second = ids(*second).contains(target);
            if !in_first && !in_second {
                (n, false)
            } else {
                let child = if in_first {
                    resize_spec(*first, target, direction)
                } else {
                    resize_spec(*second, target, direction)
                };
                if child.1 {
                    if in_first {
                        (PaneNode::Split { axis, ratio, first: Box::new(child.0), second }, true)
                    } else {
                        (PaneNode::Split { axis, ratio, first, second: Box::new(child.0) }, true)
                    }
                } else {
                    let adjustment: int = if axis == SplitAxis::Vertical && direction == Direction::Right
                        && in_first {
                        50
                    } else if axis == SplitAxis::Vertical && direction == Direction::Left && in_second {
                        -50
                    } else if axis == SplitAxis::Horizontal && direction == Direction::Down && in_first {
                        50
                    } else if axis == SplitAxis::Horizontal && direction == Direction::Up && in_second {
                        -50
                    } else {
                        0
                    };
                    if adjustment == 0 {
                        (n, false)
                    } else {
                        let updated = clamp_int(ratio + adjustment, 100, 900) as u16;
                        (PaneNode::Split { axis, ratio: updated, first, second }, updated != ratio)
                    }
                }
            }
        },
    }
}

/// A resize that reports no change leaves the tree as it was.
pub proof fn lemma_resize_unchanged(n: PaneNode, target: usize, direction: Direction)
    ensures
        !resize_spec(n, target, direction).1 ==> resize_spec(n, target, direction).0 == n,
    decreases n,
{
    match n {
        PaneNode::Leaf(_) => {},
        PaneNode::Split { first, second, .. } => {
            lemma_resize_unchanged(*first, target, direction);
            lemma_resize_unchanged(*second, target, direction);
        },
    }
}

fn resize_node(n: PaneNode, target: usize, direction: Direction) -> (r: (PaneNode, bool))
    ensures
        r == resize_spec(n, target, direction),
    decreases n,
{
    match n {
        PaneNode::Leaf(id) => (PaneNode::Leaf(id), false),
        PaneNode::Split { axis, ratio, first, second } => {
            let in_first = contains_id(&pane_ids(&first), target);
            let in_second = contains_id(&pane_ids(&second), target);
            if !in_first && !in_second {
                return (PaneNode::Split { axis, ratio, first, second }, false);
            }
            proof {
                lemma_resize_unchanged(*first, target, direction);
                lemma_resize_unchanged(*second, target, direction);
            }
            let (first, second, resized) = if in_first {
                let (child, resized) = resize_node(*first, target, direction);
                (Box::new(child), second, resized)
            } else {
                let (child, resized) = resize_node(*second, target, direction);
                (first, Box::new(child), resized)
            };
            if resized {
                return (PaneNode::Split { axis, ratio, first, second }, true);
            }
            let vertical = match axis {
                SplitAxis::Vertical => true,
                SplitAxis::Horizontal => false,
            };
            let (grow, shrink) = match direction {
                Direction::Right => (vertical && in_first, false),
                Direction::Left => (false, vertical && in_second),
                Direction::Down => (!vertical && in_first, false),
                Direction::Up => (false, !vertical && in_second),
            };
            if !grow && !shrink {
                return (PaneNode::Split { axis, ratio, first, second }, false);
            }
            let updated: u16 = if grow {
                if ratio >= 850 {
                    900
                } else if ratio + 50 < 100 {
                    100
                } else {
                    ratio + 50
                }
            } else {
                if ratio <= 150 {
                    100
                } else if ratio - 50 > 900 {
                    900
                } else {
                    ratio - 50
                }
            };
            (PaneNode::Split { axis, ratio: updated, first, second }, updated != ratio)
        },
    }
}

/// Move the border nearest to `target` in `direction`. Returns whether a
/// ratio changed.
pub fn resize_pane(node: &mut PaneNode, target: usize, direction: Direction) -> (r: bool)
    ensures
        (*final(node), r) == resize_spec(*old(node), target, direction),
{
    let mut taken = PaneNode::Leaf(0);
    std::mem::swap(&mut taken, node);
    let (updated, changed) = resize_node(taken, target, direction);
    *node = updated;
    changed
}

/// The terminal size inside a pane, without its frame when it has one.
pub fn pane_pty_size(rect: PaneRect, framed: bool) -> (r: (u16, u16))
    ensures
        r == (if framed {
            (max16(sat_sub16(rect.width, 2), 1), max16(sat_sub16(rect.height, 2), 1))
        } else {
            (max16(rect.width, 1), max16(rect.height, 1))
        }),
{
    if framed {
        (maximum16(saturating_sub16(rect.width, 2), 1), maximum16(saturating_sub16(rect.height, 2), 1))
    } else {
        (maximum16(rect.width, 1), maximum16(rect.height, 1))
    }
}

/// Twice a rectangle's center, so that halves stay integral.
pub open spec fn center2(r: PaneRect) -> (int, int) {
    (r.column * 2 + r.width, r.row * 2 + r.height)
}

/// Whether two spans `[a, a + a_len)` and `[b, b + b_len)` share a cell.
pub open spec fn spans_overlap(a: int, a_len: int, b: int, b_len: int) -> bool {
    b < a + a_len && a < b + b_len
}

/// Whether `to` lies in `direction` from `from`: its center is further that
/// way, and the two panes share a row (for left and right) or a column (for
/// up and down), so that only panes on the requested axis are chosen.
pub fn rect_in_direction(from: PaneRect, to: PaneRect, direction: Direction) -> (r: bool)
    ensures
        r == match direction {
            Direction::Left => center2(to).0 < center2(from).0 && spans_overlap(
                from.row as int,
                from.height as int,
                to.row as int,
                to.height as int,
            ),
            Direction::Right => center2(to).0 > center2(from).0 && spans_overlap(
                from.row as int,
                from.height as int,
                to.row as int,
                to.height as int,
            ),
            Direction::Up => center2(to).1 < center2(from).1 && spans_overlap(
                from.column as int,
                from.width as int,
                to.column as int,
                to.width as int,
            ),
            Direction::Down => center2(to).1 > center2(from).1 && spans_overlap(
                from.column as int,
                from.width as int,
                to.column as int,
                to.width as int,
            ),
        },
{
    let from_x = (from.column as i32) * 2 + (from.width as i32);
    let from_y = (from.row as i32) * 2 + (from.height as i32);
    let to_x = (to.column as i32) * 2 + (to.width as i32);
    let to_y = (to.row as i32) * 2 + (to.height as i32);
    let share_row = (to.row as i32) < (from.row as i32) + (from.height as i32) && (from.row as i32) < (to.row as i32)
        + (to.height as i32);
    let share_column = (to.column as i32) < (from.column as i32) + (from.width as i32) && (from.column as i32) < (
    to.column as i32) + (to.width as i32);
    match direction {
        Direction::Left => to_x < from_x && share_row,
        Direction::Right => to_x > from_x && share_row,
        Direction::Up => to_y < from_y && share_column,
        Direction::Down => to_y > from_y && share_column,
    }
}

pub open spec fn abs_int(x: int) -> int {
    if x < 0 {
        -x
    } else {
        x
    }
}

/// Distance along the direction's axis, then across it, between doubled centers.
pub fn directional_distance(from: PaneRect, to: PaneRect, direction: Direction) -> (r: (i32, i32))
    ensures
        ({
            let dx = abs_int(center2(to).0 - center2(from).0);
            let dy = abs_int(center2(to).1 - center2(from).1);
            match direction {
                Direction::Left | Direction::Right => r.0 == dx && r.1 == dy,
                Direction::Up | Direction::Down => r.0 == dy && r.1 == dx,
            }
        }),
{
    let fx = (from.column as i32) * 2 + (from.width as i32);
    let fy = (from.row as i32) * 2 + (from.height as i32);
    let tx = (to.column as i32) * 2 + (to.width as i32);
    let ty = (to.row as i32) * 2 + (to.height as i32);
    let dx = if tx >= fx {
        tx - fx
    } else {
        fx - tx
    };
    let dy = if ty >= fy {
        ty - fy
    } else {
        fy - ty
    };
    match direction {
        Direction::Left | Direction::Right => (dx, dy),
        Direction::Up | Direction::Down => (dy, dx),
    }
}

#[derive(Clone, Copy, Debug, PartialEq, Eq, Structural)]
pub struct FloatingLayout {
    pub column: u16,
    pub row: u16,
    pub width: u16,
    pub height: u16,
}

impl FloatingLayout {
    /// The terminal size inside the floating frame.
    pub fn content_size(self) -> (r: (u16, u16))
        ensures
            r == (max16(sat_sub16(self.width, 2), 1), max16(sat_sub16(self.height, 2), 1)),
    {
        (maximum16(saturating_sub16(self.width, 2), 1), maximum16(saturating_sub16(self.height, 2), 1))
    }
}

pub open spec fn sat_mul16(a: u16, b: u16) -> u16 {
    if a * b <= u16::MAX {
        (a * b) as u16
    } else {
        u16::MAX
    }
}

fn saturating_mul16(a: u16, b: u16) -> (r: u16)
    ensures
        r == sat_mul16(a, b),
{
    assert((a as u32) * (b as u32) <= 0xffff * 0xffff) by (nonlinear_arith)
        requires
            a <= 0xffff,
            b <= 0xffff,
    ;
    let wide = (a as u32) * (b as u32);
    if wide <= 0xffff {
        wide as u16
    } else {
        0xffff
    }
}

/// The floating pane: three quarters of the content width (at least 12) and
/// seven tenths of its height (at least 5), centered below the bars.
pub open spec fn floating_spec(size: (u16, u16), compact: bool) -> FloatingLayout {
    let available = content_size_spec(size, compact);
    let width = min16(max16(sat_mul16(available.0, 3) / 4, 12), available.0);
    let height = min16(max16(sat_mul16(available.1, 7) / 10, 5), available.1);
    FloatingLayout {
        column: (2 + sat_sub16(available.0, width) / 2) as u16,
        row: (3 + sat_sub16(available.1, height) / 2) as u16,
        width,
        height,
    }
}

pub fn floating_layout_for(size: (u16, u16), compact: bool) -> (r: FloatingLayout)
    ensures
        r == floating_spec(size, compact),
{
    let (available_width, available_height) = content_size_for(size, compact);
    let width = minimum16(maximum16(saturating_mul16(available_width, 3) / 4, 12), available_width);
    let height = minimum16(maximum16(saturating_mul16(available_height, 7) / 10, 5), available_height);
    FloatingLayout {
        column: 2 + saturating_sub16(available_width, width) / 2,
        row: 3 + saturating_sub16(available_height, height) / 2,
        width,
        height,
    }
}

pub open spec fn div_or_zero(a: u16, b: u16) -> u16 {
    if b == 0 {
        0
    } else {
        a / b
    }
}

/// The pixel size of a pty of `cells`, given the outer terminal's cell size.
pub open spec fn winsize_spec(size: (u16, u16), pixels: (u16, u16), cells: (u16, u16)) -> WinSize {
    WinSize {
        ws_row: cells.1,
        ws_col: cells.0,
        ws_xpixel: sat_mul16(div_or_zero(pixels.0, size.0), cells.0),
        ws_ypixel: sat_mul16(div_or_zero(pixels.1, size.1), cells.1),
    }
}

fn winsize_for_cells(size: (u16, u16), pixels: (u16, u16), cells: (u16, u16)) -> (r: WinSize)
    ensures
        r == winsize_spec(size, pixels, cells),
{
    let cell_width = if size.0 == 0 {
        0
    } else {
        pixels.0 / size.0
    };
    let cell_height = if size.1 == 0 {
        0
    } else {
        pixels.1 / size.1
    };
    WinSize {
        ws_row: cells.1,
        ws_col: cells.0,
        ws_xpixel: saturating_mul16(cell_width, cells.0),
        ws_ypixel: saturating_mul16(cell_height, cells.1),
    }
}

/// The pty size of a tiled pane area.
pub fn content_winsize_for(size: (u16, u16), pixels: (u16, u16), compact: bool) -> (r: WinSize)
    ensures
        r == winsize_spec(size, pixels, content_size_spec(size, compact)),
{
    let cells = content_size_for(size, compact);
    winsize_for_cells(size, pixels, cells)
}

/// The pty size of a window: the floating frame's inside, or the content area.
pub fn window_winsize_for(size: (u16, u16), pixels: (u16, u16), floating: bool, compact: bool) -> (r: WinSize)
    ensures
        r == if floating {
            winsize_spec(
                size,
                pixels,
                (
                    max16(sat_sub16(floating_spec(size, compact).width, 2), 1),
                    max16(sat_sub16(floating_spec(size, compact).height, 2), 1),
                ),
            )
        } else {
            winsize_spec(size, pixels, content_size_spec(size, compact))
        },
{
    if !floating {
        return content_winsize_for(size, pixels, compact);
    }
    let cells = floating_layout_for(size, compact).content_size();
    winsize_for_cells(size, pixels, cells)
}

/// The session manager's box: half the content size, but at least 40 columns
/// and 10 rows where the content has them, centred.
pub open spec fn manager_rect_spec(size: (u16, u16)) -> (u16, u16, u16, u16) {
    let (columns, rows) = size;
    let width: int = if columns < 40 {
        columns as int
    } else if columns / 2 < 40 {
        40
    } else {
        columns as int / 2
    };
    let height: int = if rows < 10 {
        rows as int
    } else if rows / 2 < 10 {
        10
    } else {
        rows as int / 2
    };
    (((columns - width) / 2) as u16, ((rows - height) / 2) as u16, width as u16, height as u16)
}

/// Where the session manager is drawn over `size` content cells: (column, row, width, height).
pub fn session_manager_rect(size: (u16, u16)) -> (r: (u16, u16, u16, u16))
    ensures
        r == manager_rect_spec(size),
{
    let (columns, rows) = size;
    let width = if columns < 40 {
        columns
    } else if columns / 2 < 40 {
        40
    } else {
        columns / 2
    };
    let height = if rows < 10 {
        rows
    } else if rows / 2 < 10 {
        10
    } else {
        rows / 2
    };
    ((columns - width) / 2, (rows - height) / 2, width, height)
}

} // verus!


