//! Ordered window ownership and focus, independent of processes and drawing.

use vstd::prelude::*;

verus! {

/// Stable within one `Windows` collection, which never issues an ID twice.
#[derive(Debug, Clone, Copy, PartialEq, Eq, Structural, Hash)]
pub struct WindowId(u64);

impl View for WindowId {
    type V = u64;

    closed spec fn view(&self) -> u64 {
        self.0
    }
}

impl WindowId {
    pub fn get(self) -> (r: u64)
        ensures
            r == self@,
    {
        self.0
    }

    /// Two IDs are the same exactly when their numbers are.
    pub proof fn lemma_view_injective(a: WindowId, b: WindowId)
        ensures
            a@ == b@ <==> a == b,
    {
    }
}

/// Why a window operation was refused.
#[derive(Debug, Clone, Copy, PartialEq, Eq, Structural)]
pub enum WindowError {
    /// Every window ID has been issued.
    Exhausted,
    /// No window has this ID.
    NotFound,
}

impl WindowError {
    pub fn message(self) -> (r: &'static str)
        ensures
            r@ == match self {
                WindowError::Exhausted => "window IDs exhausted"@,
                WindowError::NotFound => "unknown window ID"@,
            },
    {
        match self {
            WindowError::Exhausted => "window IDs exhausted",
            WindowError::NotFound => "unknown window ID",
        }
    }
}

/// One window: its ID, its name and what it holds.
#[derive(Debug)]
pub struct Window<T> {
    id: WindowId,
    name: String,
    content: T,
}

impl<T> View for Window<T> {
    type V = (u64, Seq<char>, T);

    closed spec fn view(&self) -> (u64, Seq<char>, T) {
        (self.id@, self.name@, self.content)
    }
}

impl<T> Window<T> {
    pub fn id(&self) -> (r: WindowId)
        ensures
            r@ == self@.0,
    {
        self.id
    }

    pub fn name(&self) -> (r: &str)
        ensures
            r@ == self@.1,
    {
        self.name.as_str()
    }

    pub fn content(&self) -> (r: &T)
        ensures
            *r == self@.2,
    {
        &self.content
    }

    pub fn content_mut(&mut self) -> (r: &mut T)
        ensures
            *r == old(self)@.2,
            final(self)@ == (old(self)@.0, old(self)@.1, *final(r)),
    {
        &mut self.content
    }

    pub fn into_content(self) -> (r: T)
        ensures
            r == self@.2,
    {
        self.content
    }
}

pub struct WindowsModel<T> {
    /// (ID, name, content) in creation order.
    pub entries: Seq<(u64, Seq<char>, T)>,
    pub active: usize,
    /// The ID the next window gets; `None` once every ID was issued.
    pub next_id: Option<u64>,
}

pub open spec fn id_at<T>(entries: Seq<(u64, Seq<char>, T)>, i: int) -> u64 {
    entries[i].0
}

/// IDs grow in creation order, so none occurs twice.
pub open spec fn ids_increasing<T>(entries: Seq<(u64, Seq<char>, T)>) -> bool {
    forall|i: int, j: int| 0 <= i < j < entries.len() ==> id_at(entries, i) < id_at(entries, j)
}

/// Every ID held was issued before the next one.
pub open spec fn ids_below<T>(entries: Seq<(u64, Seq<char>, T)>, next: Option<u64>) -> bool {
    match next {
        Some(n) => forall|i: int| 0 <= i < entries.len() ==> id_at(entries, i) < n,
        None => true,
    }
}

pub open spec fn windows_wf<T>(m: WindowsModel<T>) -> bool {
    &&& ids_increasing(m.entries)
    &&& ids_below(m.entries, m.next_id)
    &&& if m.entries.len() == 0 {
        m.active == 0
    } else {
        m.active < m.entries.len()
    }
}

/// The position of the window with this ID.
pub open spec fn position_of<T>(entries: Seq<(u64, Seq<char>, T)>, id: u64) -> Option<int> {
    if exists|i: int| 0 <= i < entries.len() && id_at(entries, i) == id {
        Some(choose|i: int| 0 <= i < entries.len() && id_at(entries, i) == id)
    } else {
        None
    }
}

/// The active index after the window at `index` was removed.
pub open spec fn active_after_close(active: usize, index: int, remaining: int) -> usize {
    if index < active {
        (active - 1) as usize
    } else if active == remaining {
        if active == 0 {
            0
        } else {
            (active - 1) as usize
        }
    } else {
        active
    }
}

/// Owns window contents in creation order. An empty collection has no focus;
/// a new window becomes active; closing the active window selects its
/// successor, or its predecessor when it was the last.
#[derive(Debug)]
pub struct Windows<T> {
    entries: Vec<Window<T>>,
    active: usize,
    next_id: Option<u64>,
}

impl<T> View for Windows<T> {
    type V = WindowsModel<T>;

    closed spec fn view(&self) -> WindowsModel<T> {
        WindowsModel {
            entries: self.entries@.map_values(|w: Window<T>| w@),
            active: self.active,
            next_id: self.next_id,
        }
    }
}

/// The same focus, the same next ID and the same IDs in the same places.
pub open spec fn same_ids<T>(m: WindowsModel<T>, m2: WindowsModel<T>) -> bool {
    &&& m2.active == m.active
    &&& m2.next_id == m.next_id
    &&& m2.entries.len() == m.entries.len()
    &&& forall|k: int| 0 <= k < m.entries.len() ==> id_at(m2.entries, k) == id_at(m.entries, k)
}

proof fn lemma_same_ids_wf<T>(m: WindowsModel<T>, m2: WindowsModel<T>)
    requires
        windows_wf(m),
        same_ids(m, m2),
    ensures
        windows_wf(m2),
{
    assert forall|i: int, j: int| 0 <= i < j < m2.entries.len() implies id_at(m2.entries, i) < id_at(m2.entries, j) by {
        assert(id_at(m.entries, i) < id_at(m.entries, j));
    }
    assert forall|i: int| #![trigger id_at(m2.entries, i)]
        0 <= i < m2.entries.len() && m2.next_id is Some implies id_at(m2.entries, i) < m2.next_id->0 by {
        assert(id_at(m.entries, i) < m.next_id->0);
    }
}

proof fn lemma_unique_position<T>(entries: Seq<(u64, Seq<char>, T)>, i: int)
    requires
        ids_increasing(entries),
        0 <= i < entries.len(),
    ensures
        position_of(entries, id_at(entries, i)) == Some(i),
{
    let j = choose|j: int| 0 <= j < entries.len() && id_at(entries, j) == id_at(entries, i);
    if j < i {
        assert(id_at(entries, j) < id_at(entries, i));
    } else if i < j {
        assert(id_at(entries, i) < id_at(entries, j));
    }
}

impl<T> Windows<T> {
    pub closed spec fn wf(&self) -> bool {
        windows_wf(self@)
    }

    /// An empty collection whose first window gets ID `first_id`.
    pub fn starting_from(first_id: u64) -> (r: Self)
        ensures
            r.wf(),
            r@.entries.len() == 0,
            r@.active == 0,
            r@.next_id == Some(first_id),
    {
        let r = Windows { entries: Vec::new(), active: 0, next_id: Some(first_id) };
        assert(r@.entries =~= Seq::<(u64, Seq<char>, T)>::empty());
        r
    }

    /// Insert a window and make it active. When every ID was issued the
    /// content is dropped and the collection is unchanged.
    pub fn create(&mut self, name: String, content: T) -> (r: Result<WindowId, WindowError>)
        requires
            old(self).wf(),
        ensures
            final(self).wf(),
            match r {
                Ok(id) => {
                    &&& old(self)@.next_id == Some(id@)
                    &&& final(self)@.entries == old(self)@.entries.push((id@, name@, content))
                    &&& final(self)@.active == old(self)@.entries.len()
                    &&& final(self)@.next_id == if id@ == u64::MAX {
                        None
                    } else {
                        Some((id@ + 1) as u64)
                    }
                },
                Err(e) => {
                    &&& e == WindowError::Exhausted
                    &&& old(self)@.next_id is None
                    &&& final(self)@ == old(self)@
                },
            },
    {
        let value = match self.next_id {
            Some(v) => v,
            None => {
                return Err(WindowError::Exhausted);
            },
        };
        let id = WindowId(value);
        let ghost before = self@;
        self.entries.push(Window { id, name, content });
        self.next_id = value.checked_add(1);
        self.active = self.entries.len() - 1;
        assert(self@.entries =~= before.entries.push((id@, name@, content)));
        assert forall|i: int| 0 <= i < before.entries.len() implies id_at(before.entries, i) < value by {
            assert(id_at(before.entries, i) < value);
        }
        assert forall|i: int, j: int| 0 <= i < j < self@.entries.len() implies id_at(self@.entries, i) < id_at(
            self@.entries,
            j,
        ) by {
            if j < before.entries.len() {
                assert(id_at(before.entries, i) < id_at(before.entries, j));
            } else {
                assert(id_at(before.entries, i) < value);
            }
        }
        assert forall|i: int| #![trigger id_at(self@.entries, i)]
            0 <= i < self@.entries.len() && self.next_id is Some implies id_at(self@.entries, i)
            < self.next_id->0 by {
            if i < before.entries.len() {
                assert(id_at(before.entries, i) < value);
            }
        }
        Ok(id)
    }

    /// The windows in creation order.
    pub fn iter(&self) -> (r: &[Window<T>])
        ensures
            r@.map_values(|w: Window<T>| w@) == self@.entries,
    {
        self.entries.as_slice()
    }

    pub fn len(&self) -> (r: usize)
        ensures
            r == self@.entries.len(),
    {
        self.entries.len()
    }

    pub fn active(&self) -> (r: Option<&Window<T>>)
        ensures
            match r {
                Some(w) => self@.active < self@.entries.len() && w@ == self@.entries[self@.active as int],
                None => self@.active >= self@.entries.len(),
            },
    {
        if self.active < self.entries.len() {
            Some(&self.entries[self.active])
        } else {
            None
        }
    }

    /// The active window's content, to change it. The window's ID and name stay.
    pub fn active_mut(&mut self) -> (r: Option<&mut T>)
        requires
            old(self).wf(),
        ensures
            final(self).wf(),
            final(self)@.active == old(self)@.active,
            final(self)@.next_id == old(self)@.next_id,
            match r {
                Some(c) => {
                    let i = old(self)@.active as int;
                    &&& i < old(self)@.entries.len()
                    &&& *c == old(self)@.entries[i].2
                    &&& final(self)@.entries == old(self)@.entries.update(
                        i,
                        (old(self)@.entries[i].0, old(self)@.entries[i].1, *final(c)),
                    )
                },
                None => old(self)@.entries.len() == 0 && final(self)@.entries == old(self)@.entries,
            },
    {
        if self.active < self.entries.len() {
            let i = self.active;
            Some(self.content_at(i))
        } else {
            None
        }
    }

    fn content_at(&mut self, i: usize) -> (r: &mut T)
        requires
            old(self).wf(),
            i < old(self)@.entries.len(),
        ensures
            *r == old(self)@.entries[i as int].2,
            final(self)@.entries == old(self)@.entries.update(
                i as int,
                (old(self)@.entries[i as int].0, old(self)@.entries[i as int].1, *final(r)),
            ),
            final(self)@.active == old(self)@.active,
            final(self)@.next_id == old(self)@.next_id,
            final(self).wf(),
    {
        proof {
            let m = self@;
            assert forall|m2: WindowsModel<T>| #[trigger] windows_wf(m2) <== same_ids(m, m2) by {
                if same_ids(m, m2) {
                    lemma_same_ids_wf(m, m2);
                }
            }
        }
        &mut self.entries[i].content
    }

    fn index(&self, id: WindowId) -> (r: Result<usize, WindowError>)
        requires
            self.wf(),
        ensures
            match r {
                Ok(i) => position_of(self@.entries, id@) == Some(i as int) && i < self@.entries.len(),
                Err(e) => e == WindowError::NotFound && position_of(self@.entries, id@) is None,
            },
    {
        let mut i: usize = 0;
        while i < self.entries.len()
            invariant
                self.wf(),
                i <= self@.entries.len(),
                self.entries@.len() == self@.entries.len(),
                forall|j: int| 0 <= j < i ==> id_at(self@.entries, j) != id@,
            decreases self.entries@.len() - i,
        {
            if self.entries[i].id == id {
                proof {
                    lemma_unique_position(self@.entries, i as int);
                }
                return Ok(i);
            }
            i += 1;
        }
        Err(WindowError::NotFound)
    }

    pub fn get(&self, id: WindowId) -> (r: Option<&Window<T>>)
        requires
            self.wf(),
        ensures
            match r {
                Some(w) => exists|i: int|
                    position_of(self@.entries, id@) == Some(i) && 0 <= i < self@.entries.len() && w@
                        == self@.entries[i],
                None => position_of(self@.entries, id@) is None,
            },
    {
        match self.index(id) {
            Ok(i) => Some(&self.entries[i]),
            Err(_) => None,
        }
    }

    /// The content of the window with this ID, to change it without focusing it.
    pub fn get_mut(&mut self, id: WindowId) -> (r: Option<&mut T>)
        requires
            old(self).wf(),
        ensures
            final(self).wf(),
            final(self)@.active == old(self)@.active,
            final(self)@.next_id == old(self)@.next_id,
            match r {
                Some(c) => exists|i: int|
                    {
                        &&& position_of(old(self)@.entries, id@) == Some(i)
                        &&& 0 <= i < old(self)@.entries.len()
                        &&& *c == old(self)@.entries[i].2
                        &&& final(self)@.entries == old(self)@.entries.update(
                            i,
                            (old(self)@.entries[i].0, old(self)@.entries[i].1, *final(c)),
                        )
                    },
                None => position_of(old(self)@.entries, id@) is None && final(self)@.entries == old(
                    self,
                )@.entries,
            },
    {
        match self.index(id) {
            Ok(i) => Some(self.content_at(i)),
            Err(_) => None,
        }
    }

    pub fn select(&mut self, id: WindowId) -> (r: Result<(), WindowError>)
        requires
            old(self).wf(),
        ensures
            final(self).wf(),
            match r {
                Ok(()) => exists|i: int|
                    position_of(old(self)@.entries, id@) == Some(i) && final(self)@ == (WindowsModel {
                        active: i as usize,
                        ..old(self)@
                    }),
                Err(e) => e == WindowError::NotFound && position_of(old(self)@.entries, id@) is None
                    && final(self)@ == old(self)@,
            },
    {
        match self.index(id) {
            Ok(i) => {
                self.active = i;
                Ok(())
            },
            Err(e) => Err(e),
        }
    }

    /// Focus the next window, wrapping to the first.
    pub fn select_next(&mut self) -> (r: Option<WindowId>)
        requires
            old(self).wf(),
        ensures
            final(self).wf(),
            old(self)@.entries.len() == 0 ==> r is None && final(self)@ == old(self)@,
            old(self)@.entries.len() > 0 ==> {
                let next = if old(self)@.active + 1 == old(self)@.entries.len() {
                    0
                } else {
                    old(self)@.active + 1
                };
                &&& final(self)@ == (WindowsModel { active: next as usize, ..old(self)@ })
                &&& r matches Some(id) && id@ == old(self)@.entries[next].0
            },
    {
        if self.entries.len() == 0 {
            return None;
        }
        self.active = if self.active + 1 == self.entries.len() {
            0
        } else {
            self.active + 1
        };
        Some(self.entries[self.active].id)
    }

    /// Focus the previous window, wrapping to the last.
    pub fn select_previous(&mut self) -> (r: Option<WindowId>)
        requires
            old(self).wf(),
        ensures
            final(self).wf(),
            old(self)@.entries.len() == 0 ==> r is None && final(self)@ == old(self)@,
            old(self)@.entries.len() > 0 ==> {
                let previous = if old(self)@.active == 0 {
                    old(self)@.entries.len() - 1
                } else {
                    old(self)@.active - 1
                };
                &&& final(self)@ == (WindowsModel { active: previous as usize, ..old(self)@ })
                &&& r matches Some(id) && id@ == old(self)@.entries[previous].0
            },
    {
        if self.entries.len() == 0 {
            return None;
        }
        self.active = if self.active == 0 {
            self.entries.len() - 1
        } else {
            self.active - 1
        };
        Some(self.entries[self.active].id)
    }

    /// Names are opaque metadata: empty and repeated names are allowed.
    pub fn rename(&mut self, id: WindowId, name: String) -> (r: Result<(), WindowError>)
        requires
            old(self).wf(),
        ensures
            final(self).wf(),
            match r {
                Ok(()) => exists|i: int|
                    position_of(old(self)@.entries, id@) == Some(i) && 0 <= i < old(self)@.entries.len()
                        && final(self)@ == (WindowsModel {
                        entries: old(self)@.entries.update(
                            i,
                            (old(self)@.entries[i].0, name@, old(self)@.entries[i].2),
                        ),
                        ..old(self)@
                    }),
                Err(e) => e == WindowError::NotFound && position_of(old(self)@.entries, id@) is None
                    && final(self)@ == old(self)@,
            },
    {
        let index = match self.index(id) {
            Ok(i) => i,
            Err(e) => {
                return Err(e);
            },
        };
        let ghost before = self@;
        self.entries[index].name = name;
        assert(self@.entries =~= before.entries.update(
            index as int,
            (before.entries[index as int].0, name@, before.entries[index as int].2),
        ));
        assert forall|i: int| 0 <= i < self@.entries.len() implies id_at(self@.entries, i) == id_at(
            before.entries,
            i,
        ) by {}
        proof {
            lemma_same_ids_wf(before, self@);
        }
        Ok(())
    }

    /// Remove a window and hand it back. Closing an inactive window keeps the
    /// active one active.
    pub fn close(&mut self, id: WindowId) -> (r: Result<Window<T>, WindowError>)
        requires
            old(self).wf(),
        ensures
            final(self).wf(),
            match r {
                Ok(w) => exists|i: int|
                    {
                        &&& position_of(old(self)@.entries, id@) == Some(i)
                        &&& 0 <= i < old(self)@.entries.len()
                        &&& w@ == old(self)@.entries[i]
                        &&& final(self)@.entries == old(self)@.entries.remove(i)
                        &&& final(self)@.active == active_after_close(
                            old(self)@.active,
                            i,
                            old(self)@.entries.len() - 1,
                        )
                        &&& final(self)@.next_id == old(self)@.next_id
                    },
                Err(e) => e == WindowError::NotFound && position_of(old(self)@.entries, id@) is None
                    && final(self)@ == old(self)@,
            },
    {
        let index = match self.index(id) {
            Ok(i) => i,
            Err(e) => {
                return Err(e);
            },
        };
        let ghost before = self@;
        let removed = self.entries.remove(index);
        if index < self.active {
            self.active = self.active - 1;
        } else if self.active == self.entries.len() {
            self.active = if self.active == 0 {
                0
            } else {
                self.active - 1
            };
        }
        assert(self@.entries =~= before.entries.remove(index as int));
        assert forall|i: int, j: int| 0 <= i < j < self@.entries.len() implies id_at(self@.entries, i) < id_at(
            self@.entries,
            j,
        ) by {
            let a = if i < index { i } else { i + 1 };
            let b = if j < index { j } else { j + 1 };
            assert(id_at(self@.entries, i) == id_at(before.entries, a));
            assert(id_at(self@.entries, j) == id_at(before.entries, b));
            assert(id_at(before.entries, a) < id_at(before.entries, b));
        }
        assert forall|i: int| #![trigger id_at(self@.entries, i)]
            0 <= i < self@.entries.len() && self.next_id is Some implies id_at(self@.entries, i)
            < self.next_id->0 by {
            let a = if i < index { i } else { i + 1 };
            assert(id_at(self@.entries, i) == id_at(before.entries, a));
            assert(id_at(before.entries, a) < self.next_id->0);
        }
        Ok(removed)
    }
}

impl<T> Default for Windows<T> {
    fn default() -> (r: Self)
        ensures
            r.wf(),
            r@.entries.len() == 0,
            r@.active == 0,
            r@.next_id == Some(0u64),
    {
        Windows::starting_from(0)
    }
}

/// No two windows of a collection share an ID.
pub proof fn lemma_ids_unique<T>(windows: Windows<T>, i: int, j: int)
    requires
        windows.wf(),
        0 <= i < windows@.entries.len(),
        0 <= j < windows@.entries.len(),
        i != j,
    ensures
        windows@.entries[i].0 != windows@.entries[j].0,
{
    if i < j {
        assert(id_at(windows@.entries, i) < id_at(windows@.entries, j));
    } else {
        assert(id_at(windows@.entries, j) < id_at(windows@.entries, i));
    }
}

/// A new window's ID is larger than that of every window already held, so an
/// ID, once issued, is never issued again.
pub proof fn lemma_new_id_is_fresh<T>(before: Windows<T>, id: WindowId, i: int)
    requires
        before.wf(),
        before@.next_id == Some(id@),
        0 <= i < before@.entries.len(),
    ensures
        before@.entries[i].0 < id@,
{
    assert(id_at(before@.entries, i) < id@);
}

} // verus!
