//! Windows (tabs) and the panes they lay out: moving a pane into another
//! window beside a given pane, or out into a window of its own.

use vstd::prelude::*;

use crate::layout::{PaneNode, PaneRect, SplitAxis, remove_pane, remove_spec, split_pane, split_spec};

verus! {

/// A window: its ID and the layout of its tiled panes.
pub struct Tab {
    pub id: usize,
    pub root: PaneNode,
}

/// What the layout needs to know of a pane.
pub struct PaneEntry {
    pub id: usize,
    pub tab_id: usize,
    /// Floating panes are not part of any layout.
    pub floating: bool,
    /// Panes that show a temporary file (an editor on captured output) stay where they are.
    pub temporary: bool,
    pub rect: PaneRect,
    pub name: String,
    pub zoomed: bool,
    /// For a floating pane, the pane it returns focus to.
    pub return_to_window: Option<usize>,
}

/// The windows and panes of a session, and the ID the next window gets.
pub struct Workspace {
    pub tabs: Vec<Tab>,
    pub panes: Vec<PaneEntry>,
    pub next_id: usize,
}

pub struct PaneModel {
    pub id: usize,
    pub tab_id: usize,
    pub floating: bool,
    pub temporary: bool,
    pub rect: PaneRect,
    pub name: Seq<char>,
    pub zoomed: bool,
    pub return_to_window: Option<usize>,
}

pub struct WorkspaceModel {
    pub tabs: Seq<(usize, PaneNode)>,
    pub panes: Seq<PaneModel>,
    pub next_id: usize,
}

pub open spec fn pane_model(p: PaneEntry) -> PaneModel {
    PaneModel {
        id: p.id,
        tab_id: p.tab_id,
        floating: p.floating,
        temporary: p.temporary,
        rect: p.rect,
        name: p.name@,
        zoomed: p.zoomed,
        return_to_window: p.return_to_window,
    }
}

impl View for Workspace {
    type V = WorkspaceModel;

    open spec fn view(&self) -> WorkspaceModel {
        WorkspaceModel {
            tabs: self.tabs@.map_values(|t: Tab| (t.id, t.root)),
            panes: self.panes@.map_values(|p: PaneEntry| pane_model(p)),
            next_id: self.next_id,
        }
    }
}

/// Why a pane could not be moved.
#[derive(Clone, Copy, Debug, PartialEq, Eq, Structural)]
pub enum RelocateError {
    /// Floating panes and panes showing a temporary file are not moved.
    NotTiled,
    /// The pane's window is not in the session.
    SourceMissing,
    /// The destination is the pane itself, floating, or showing a temporary file.
    NotDifferentTiled,
    /// The destination pane is too small to split.
    NoSpace,
    /// The pane is alone in its window, which is also the destination's.
    NoRemaining,
    /// The destination pane's window is not in the session.
    DestinationMissing,
    /// The destination pane is not in its window's layout.
    NotInLayout,
}

impl RelocateError {
    pub fn message(self) -> (r: &'static str)
        ensures
            r@ == match self {
                RelocateError::NotTiled => "only regular tiled panes can be moved between windows"@,
                RelocateError::SourceMissing => "source window missing"@,
                RelocateError::NotDifferentTiled => "destination must be a different regular tiled pane"@,
                RelocateError::NoSpace => "not enough space in the destination pane"@,
                RelocateError::NoRemaining => "source window has no remaining panes"@,
                RelocateError::DestinationMissing => "destination window missing"@,
                RelocateError::NotInLayout => "destination pane is missing from its layout"@,
            },
    {
        match self {
            RelocateError::NotTiled => "only regular tiled panes can be moved between windows",
            RelocateError::SourceMissing => "source window missing",
            RelocateError::NotDifferentTiled => "destination must be a different regular tiled pane",
            RelocateError::NoSpace => "not enough space in the destination pane",
            RelocateError::NoRemaining => "source window has no remaining panes",
            RelocateError::DestinationMissing => "destination window missing",
            RelocateError::NotInLayout => "destination pane is missing from its layout",
        }
    }
}

/// The index of the first window with this ID at or after `k`.
pub open spec fn tab_from(tabs: Seq<(usize, PaneNode)>, id: usize, k: int) -> Option<int>
    decreases tabs.len() - k,
{
    if k < 0 || k >= tabs.len() {
        None
    } else if tabs[k].0 == id {
        Some(k)
    } else {
        tab_from(tabs, id, k + 1)
    }
}

pub open spec fn tab_index(tabs: Seq<(usize, PaneNode)>, id: usize) -> Option<int> {
    tab_from(tabs, id, 0)
}

proof fn lemma_tab_from(tabs: Seq<(usize, PaneNode)>, id: usize, k: int)
    requires
        0 <= k,
    ensures
        match tab_from(tabs, id, k) {
            Some(i) => k <= i < tabs.len() && tabs[i].0 == id,
            None => true,
        },
    decreases tabs.len() - k,
{
    if k < tabs.len() && tabs[k].0 != id {
        lemma_tab_from(tabs, id, k + 1);
    }
}

pub open spec fn axis_for(down: bool) -> SplitAxis {
    if down {
        SplitAxis::Horizontal
    } else {
        SplitAxis::Vertical
    }
}

/// Where the pane goes: the destination window, its new layout and the name
/// the pane takes; or the error that stops the move.
pub open spec fn placement(
    w: WorkspaceModel,
    index: int,
    destination: Option<usize>,
    down: bool,
    name: Option<Seq<char>>,
    remaining: Option<PaneNode>,
) -> Result<(usize, PaneNode, Seq<char>), RelocateError> {
    let source = w.panes[index];
    let old_tab = source.tab_id;
    match destination {
        Some(d) => {
            let target = w.panes[d as int];
            if index == d || target.floating || target.temporary {
                Err(RelocateError::NotDifferentTiled)
            } else if (down && target.rect.height < 6) || (!down && target.rect.width < 12) {
                Err(RelocateError::NoSpace)
            } else {
                let root = if target.tab_id == old_tab {
                    match remaining {
                        Some(r) => Ok(r),
                        None => Err(RelocateError::NoRemaining),
                    }
                } else {
                    match tab_index(w.tabs, target.tab_id) {
                        Some(i) => Ok(w.tabs[i].1),
                        None => Err(RelocateError::DestinationMissing),
                    }
                };
                match root {
                    Err(e) => Err(e),
                    Ok(root) => {
                        let (split, found) = split_spec(root, target.id, source.id, axis_for(down));
                        if !found {
                            Err(RelocateError::NotInLayout)
                        } else {
                            Ok((target.tab_id, split, target.name))
                        }
                    },
                }
            }
        },
        None => Ok(
            (
                w.next_id,
                PaneNode::Leaf(source.id),
                match name {
                    Some(n) => n,
                    None => source.name,
                },
            ),
        ),
    }
}

/// The windows once the pane left `old_tab`: its remaining layout stays, or
/// the window goes when nothing remains.
pub open spec fn tabs_after_leaving(
    tabs: Seq<(usize, PaneNode)>,
    old_tab: usize,
    new_tab: usize,
    remaining: Option<PaneNode>,
) -> Seq<(usize, PaneNode)> {
    if old_tab == new_tab {
        tabs
    } else {
        match remaining {
            Some(r) => match tab_index(tabs, old_tab) {
                Some(i) => tabs.update(i, (old_tab, r)),
                None => tabs,
            },
            None => without_tab(tabs, old_tab),
        }
    }
}

/// The windows other than those with this ID.
pub open spec fn without_tab(tabs: Seq<(usize, PaneNode)>, id: usize) -> Seq<(usize, PaneNode)> {
    tabs.filter(|t: (usize, PaneNode)| t.0 != id)
}

/// A pane after the move: floating panes returning to the moved pane follow
/// it, and nothing stays zoomed in either window.
pub open spec fn adjusted(p: PaneModel, pane_id: usize, old_tab: usize, new_tab: usize) -> PaneModel {
    let followed = if p.floating && p.return_to_window == Some(pane_id) {
        PaneModel { tab_id: new_tab, ..p }
    } else {
        p
    };
    if followed.tab_id == old_tab || followed.tab_id == new_tab {
        PaneModel { zoomed: false, ..followed }
    } else {
        followed
    }
}

/// Move the pane at `index` beside the pane at `destination` (below it with
/// `down`, else to its right), or into a new window of its own.
pub open spec fn relocate_spec(
    w: WorkspaceModel,
    index: int,
    destination: Option<usize>,
    down: bool,
    name: Option<Seq<char>>,
) -> Result<WorkspaceModel, RelocateError> {
    let source = w.panes[index];
    let old_tab = source.tab_id;
    if source.floating || source.temporary {
        Err(RelocateError::NotTiled)
    } else {
        match tab_index(w.tabs, old_tab) {
            None => Err(RelocateError::SourceMissing),
            Some(oi) => {
                let remaining = remove_spec(w.tabs[oi].1, source.id);
                match placement(w, index, destination, down, name, remaining) {
                    Err(e) => Err(e),
                    Ok((new_tab, new_root, new_name)) => {
                        let left = tabs_after_leaving(w.tabs, old_tab, new_tab, remaining);
                        let (tabs, next_id) = match tab_index(left, new_tab) {
                            Some(i) => (left.update(i, (new_tab, new_root)), w.next_id),
                            None => (left.push((new_tab, new_root)), (w.next_id + 1) as usize),
                        };
                        let moved = w.panes.update(index, PaneModel { tab_id: new_tab, name: new_name, ..source });
                        Ok(
                            WorkspaceModel {
                                tabs,
                                panes: moved.map_values(|p: PaneModel| adjusted(p, source.id, old_tab, new_tab)),
                                next_id,
                            },
                        )
                    },
                }
            },
        }
    }
}

fn copy_node(n: &PaneNode) -> (r: PaneNode)
    ensures
        r == *n,
    decreases n,
{
    match n {
        PaneNode::Leaf(id) => PaneNode::Leaf(*id),
        PaneNode::Split { axis, ratio, first, second } => PaneNode::Split {
            axis: *axis,
            ratio: *ratio,
            first: Box::new(copy_node(first)),
            second: Box::new(copy_node(second)),
        },
    }
}

fn find_tab(tabs: &Vec<Tab>, id: usize) -> (r: Option<usize>)
    ensures
        match r {
            Some(i) => tab_index(tabs@.map_values(|t: Tab| (t.id, t.root)), id) == Some(i as int) && i
                < tabs@.len(),
            None => tab_index(tabs@.map_values(|t: Tab| (t.id, t.root)), id) is None,
        },
{
    let ghost v = tabs@.map_values(|t: Tab| (t.id, t.root));
    let mut i: usize = 0;
    while i < tabs.len()
        invariant
            i <= tabs@.len(),
            v == tabs@.map_values(|t: Tab| (t.id, t.root)),
            tab_from(v, id, 0) == tab_from(v, id, i as int),
        decreases tabs@.len() - i,
    {
        if tabs[i].id == id {
            return Some(i);
        }
        i += 1;
    }
    None
}

fn copy_text(s: &String) -> (r: String)
    ensures
        r@ == s@,
{
    s.clone()
}

/// Why a pane was not found.
#[derive(Clone, Copy, Debug, PartialEq, Eq, Structural)]
pub enum PaneLookupError {
    /// No pane has the ID asked for.
    Missing(usize),
    /// The session has no pane to be active.
    NoPanes,
}

/// The index of the first pane with this ID.
pub open spec fn pane_position(panes: Seq<PaneModel>, id: usize, k: int) -> Option<int>
    decreases panes.len() - k,
{
    if k < 0 || k >= panes.len() {
        None
    } else if panes[k].id == id {
        Some(k)
    } else {
        pane_position(panes, id, k + 1)
    }
}

impl Workspace {
    /// The pane a control request means: the one with ID `id`, or the active
    /// one (at index `active`) when no ID is given.
    pub fn pane_index(&self, active: usize, id: Option<usize>) -> (r: Result<usize, PaneLookupError>)
        ensures
            match id {
                Some(id) => match pane_position(self@.panes, id, 0) {
                    Some(i) => r == Ok::<usize, PaneLookupError>(i as usize),
                    None => r == Err::<usize, PaneLookupError>(PaneLookupError::Missing(id)),
                },
                None => if self@.panes.len() > 0 {
                    r == Ok::<usize, PaneLookupError>(active)
                } else {
                    r == Err::<usize, PaneLookupError>(PaneLookupError::NoPanes)
                },
            },
    {
        match id {
            Some(wanted) => {
                let mut i: usize = 0;
                while i < self.panes.len()
                    invariant
                        i <= self.panes@.len(),
                        id == Some(wanted),
                        pane_position(self@.panes, wanted, 0) == pane_position(self@.panes, wanted, i as int),
                    decreases self.panes@.len() - i,
                {
                    assert(self@.panes[i as int].id == self.panes@[i as int].id);
                    if self.panes[i].id == wanted {
                        assert(pane_position(self@.panes, wanted, i as int) == Some(i as int));
                        return Ok(i);
                    }
                    i += 1;
                }
                Err(PaneLookupError::Missing(wanted))
            },
            None => if self.panes.len() > 0 {
                Ok(active)
            } else {
                Err(PaneLookupError::NoPanes)
            },
        }
    }

    /// Move the pane at `index` beside the pane at `destination`, or into a
    /// new window named `name` (else after the pane). Nothing changes when the
    /// move is refused.
    pub fn relocate_pane(&mut self, index: usize, destination: Option<usize>, down: bool, name: Option<String>) -> (r:
        Result<(), RelocateError>)
        requires
            index < old(self).panes@.len(),
            destination matches Some(d) ==> d < old(self).panes@.len(),
            old(self).next_id < usize::MAX,
        ensures
            match r {
                Ok(()) => relocate_spec(
                    old(self)@,
                    index as int,
                    destination,
                    down,
                    match name {
                        Some(n) => Some(n@),
                        None => None,
                    },
                ) == Ok::<WorkspaceModel, RelocateError>(final(self)@),
                Err(e) => relocate_spec(
                    old(self)@,
                    index as int,
                    destination,
                    down,
                    match name {
                        Some(n) => Some(n@),
                        None => None,
                    },
                ) == Err::<WorkspaceModel, RelocateError>(e) && final(self)@ == old(self)@,
            },
    {
        let ghost w = self@;
        let ghost name_view = match &name {
            Some(n) => Some(n@),
            None => None::<Seq<char>>,
        };
        assert(self@.panes[index as int] == pane_model(self.panes@[index as int]));
        if self.panes[index].floating || self.panes[index].temporary {
            return Err(RelocateError::NotTiled);
        }
        let pane_id = self.panes[index].id;
        let old_tab = self.panes[index].tab_id;
        let oi = match find_tab(&self.tabs, old_tab) {
            Some(i) => i,
            None => {
                return Err(RelocateError::SourceMissing);
            },
        };
        assert(w.tabs[oi as int] == (self.tabs@[oi as int].id, self.tabs@[oi as int].root));
        let remaining = remove_pane(copy_node(&self.tabs[oi].root), pane_id);
        let (new_tab, new_root, new_name) = match destination {
            Some(d) => {
                assert(w.panes[d as int] == pane_model(self.panes@[d as int]));
                let target = &self.panes[d];
                if index == d || target.floating || target.temporary {
                    return Err(RelocateError::NotDifferentTiled);
                }
                if (down && target.rect.height < 6) || (!down && target.rect.width < 12) {
                    return Err(RelocateError::NoSpace);
                }
                let mut root = if target.tab_id == old_tab {
                    match &remaining {
                        Some(r) => copy_node(r),
                        None => {
                            return Err(RelocateError::NoRemaining);
                        },
                    }
                } else {
                    match find_tab(&self.tabs, target.tab_id) {
                        Some(ti) => {
                            assert(w.tabs[ti as int] == (self.tabs@[ti as int].id, self.tabs@[ti as int].root));
                            copy_node(&self.tabs[ti].root)
                        },
                        None => {
                            return Err(RelocateError::DestinationMissing);
                        },
                    }
                };
                let axis = if down {
                    SplitAxis::Horizontal
                } else {
                    SplitAxis::Vertical
                };
                if !split_pane(&mut root, target.id, pane_id, axis) {
                    return Err(RelocateError::NotInLayout);
                }
                (target.tab_id, root, copy_text(&target.name))
            },
            None => {
                let chosen = match name {
                    Some(n) => n,
                    None => copy_text(&self.panes[index].name),
                };
                (self.next_id, PaneNode::Leaf(pane_id), chosen)
            },
        };
        assert(placement(w, index as int, destination, down, name_view, remaining) == Ok::<
            (usize, PaneNode, Seq<char>),
            RelocateError,
        >((new_tab, new_root, new_name@)));
        // Commit only now that both ends were checked.
        let ghost remaining_view = remaining;
        if old_tab != new_tab {
            match remaining {
                Some(r) => {
                    let ghost before = self.tabs@;
                    self.tabs.set(oi, Tab { id: old_tab, root: r });
                    assert(self.tabs@.map_values(|t: Tab| (t.id, t.root)) =~= before.map_values(
                        |t: Tab| (t.id, t.root),
                    ).update(oi as int, (old_tab, r)));
                    assert(self@.tabs == w.tabs.update(oi as int, (old_tab, r)));
                    assert(tab_index(w.tabs, old_tab) == Some(oi as int));
                    assert(remaining_view == Some(r));
                },
                None => {
                    self.remove_tabs(old_tab);
                    assert(self@.tabs == without_tab(w.tabs, old_tab));
                },
            }
        } else {
            assert(self@.tabs == w.tabs);
        }
        assert(self@.tabs == tabs_after_leaving(w.tabs, old_tab, new_tab, remaining_view));
        let ghost left = self@.tabs;
        match find_tab(&self.tabs, new_tab) {
            Some(ti) => {
                self.tabs.set(ti, Tab { id: new_tab, root: new_root });
                assert(self@.tabs =~= left.update(ti as int, (new_tab, new_root)));
            },
            None => {
                self.tabs.push(Tab { id: new_tab, root: new_root });
                self.next_id = self.next_id + 1;
                assert(self@.tabs =~= left.push((new_tab, new_root)));
            },
        }
        let ghost new_name_view = new_name@;
        retab(&mut self.panes, index, new_tab, new_name);
        let ghost moved = self@.panes;
        let ghost tabs_now = self@.tabs;
        let ghost next_now = self.next_id;
        let mut k: usize = 0;
        while k < self.panes.len()
            invariant
                self@.tabs == tabs_now,
                self.next_id == next_now,
                k <= self.panes@.len(),
                self.panes@.len() == moved.len(),
                forall|j: int| 0 <= j < k ==> pane_model(#[trigger] self.panes@[j]) == adjusted(moved[j], pane_id, old_tab, new_tab),
                forall|j: int| k <= j < self.panes@.len() ==> pane_model(#[trigger] self.panes@[j]) == moved[j],
            decreases self.panes@.len() - k,
        {
            adjust(&mut self.panes, k, pane_id, old_tab, new_tab);
            k += 1;
        }
        assert(self@.panes =~= moved.map_values(|p: PaneModel| adjusted(p, pane_id, old_tab, new_tab)));
        Ok(())
    }

    fn remove_tabs(&mut self, id: usize)
        ensures
            final(self)@ == (WorkspaceModel {
                tabs: without_tab(old(self)@.tabs, id),
                ..old(self)@
            }),
    {
        let ghost all = self@.tabs;
        let mut kept: Vec<Tab> = Vec::new();
        let mut i: usize = 0;
        while i < self.tabs.len()
            invariant
                i <= self.tabs@.len(),
                all == self.tabs@.map_values(|t: Tab| (t.id, t.root)),
                kept@.map_values(|t: Tab| (t.id, t.root)) == without_tab(all.take(i as int), id),
            decreases self.tabs@.len() - i,
        {
            assert(all.take(i + 1).drop_last() =~= all.take(i as int));
            assert(all.take(i + 1).last() == (self.tabs@[i as int].id, self.tabs@[i as int].root));
            if self.tabs[i].id != id {
                kept.push(Tab { id: self.tabs[i].id, root: copy_node(&self.tabs[i].root) });
            }
            assert(without_tab(all.take(i + 1), id) == if all.take(i + 1).last().0 != id {
                without_tab(all.take(i as int), id).push(all.take(i + 1).last())
            } else {
                without_tab(all.take(i as int), id)
            }) by {
                reveal(Seq::filter);
            }
            assert(kept@.map_values(|t: Tab| (t.id, t.root)) =~= without_tab(all.take(i + 1), id));
            i += 1;
        }
        assert(all.take(all.len() as int) =~= all);
        self.tabs = kept;
    }
}

fn retab(panes: &mut Vec<PaneEntry>, index: usize, tab: usize, name: String)
    requires
        index < old(panes)@.len(),
    ensures
        final(panes)@.map_values(|p: PaneEntry| pane_model(p)) == old(panes)@.map_values(|p: PaneEntry| pane_model(p)).update(
            index as int,
            PaneModel { tab_id: tab, name: name@, ..pane_model(old(panes)@[index as int]) },
        ),
{
    let ghost before = panes@.map_values(|p: PaneEntry| pane_model(p));
    panes[index].tab_id = tab;
    panes[index].name = name;
    assert(panes@.map_values(|p: PaneEntry| pane_model(p)) =~= before.update(
        index as int,
        PaneModel { tab_id: tab, name: name@, ..before[index as int] },
    ));
}

fn adjust(panes: &mut Vec<PaneEntry>, k: usize, pane_id: usize, old_tab: usize, new_tab: usize)
    requires
        k < old(panes)@.len(),
    ensures
        final(panes)@.len() == old(panes)@.len(),
        pane_model(final(panes)@[k as int]) == adjusted(pane_model(old(panes)@[k as int]), pane_id, old_tab, new_tab),
        forall|j: int| 0 <= j < old(panes)@.len() && j != k ==> final(panes)@[j] == old(panes)@[j],
{
    if panes[k].floating && panes[k].return_to_window == Some(pane_id) {
        panes[k].tab_id = new_tab;
    }
    if panes[k].tab_id == old_tab || panes[k].tab_id == new_tab {
        panes[k].zoomed = false;
    }
}

} // verus!
