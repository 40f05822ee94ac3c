//! The open tabs and which one is active.
use vstd::prelude::*;

verus! {

/// The abstract state of a [`TabList`].
pub ghost struct Tabs<T> {
    pub tabs: Seq<T>,
    pub active: int,
}

impl<T> Tabs<T> {
    /// At least one tab is open and the active one is among them.
    pub open spec fn wf(self) -> bool {
        self.tabs.len() >= 1 && 0 <= self.active < self.tabs.len()
    }

    /// A new tab is added at the end and made active.
    pub open spec fn opened(self, tab: T) -> Tabs<T> {
        Tabs { tabs: self.tabs.push(tab), active: self.tabs.len() as int }
    }

    /// The tab at `idx` is closed (nothing happens for an index past the
    /// end). When none is left, `fresh` is opened in its place; else the
    /// active tab stays the same one if it survives, and otherwise the one
    /// now at its position (the last one if it was the last).
    pub open spec fn closed(self, idx: int, fresh: T) -> Tabs<T> {
        if idx < 0 || idx >= self.tabs.len() {
            self
        } else {
            let rest = self.tabs.remove(idx);
            if rest.len() == 0 {
                Tabs { tabs: seq![fresh], active: 0 }
            } else if self.active >= rest.len() {
                Tabs { tabs: rest, active: rest.len() - 1 }
            } else if self.active > idx {
                Tabs { tabs: rest, active: self.active - 1 }
            } else {
                Tabs { tabs: rest, active: self.active }
            }
        }
    }

    /// The tab at `idx` becomes active, if there is one.
    pub open spec fn switched(self, idx: int) -> Tabs<T> {
        if 0 <= idx < self.tabs.len() {
            Tabs { active: idx, ..self }
        } else {
            self
        }
    }

    /// The next tab becomes active, wrapping around.
    pub open spec fn next(self) -> Tabs<T> {
        if self.tabs.len() == 0 {
            self
        } else {
            Tabs { active: (self.active + 1) % (self.tabs.len() as int), ..self }
        }
    }

    /// The previous tab becomes active, wrapping around.
    pub open spec fn prev(self) -> Tabs<T> {
        if self.tabs.len() == 0 {
            self
        } else if self.active == 0 {
            Tabs { active: self.tabs.len() - 1, ..self }
        } else {
            Tabs { active: self.active - 1, ..self }
        }
    }
}

/// The open tabs, in order, and the active one.
pub struct TabList<T> {
    tabs: Vec<T>,
    active: usize,
}

impl<T> View for TabList<T> {
    type V = Tabs<T>;

    closed spec fn view(&self) -> Tabs<T> {
        Tabs { tabs: self.tabs@, active: self.active as int }
    }
}

impl<T> TabList<T> {
    /// Just `first`, active.
    pub fn new(first: T) -> (s: Self)
        ensures
            s@ == (Tabs { tabs: seq![first], active: 0 }),
            s@.wf(),
    {
        let mut tabs = Vec::new();
        tabs.push(first);
        let s = TabList { tabs, active: 0 };
        assert(s@.tabs =~= seq![first]);
        s
    }

    /// Number of open tabs.
    pub fn len(&self) -> (n: usize)
        ensures
            n == self@.tabs.len(),
    {
        self.tabs.len()
    }

    /// Index of the active tab.
    pub fn active_index(&self) -> (i: usize)
        ensures
            i == self@.active,
    {
        self.active
    }

    /// The tab at `idx`, if any.
    pub fn get(&self, idx: usize) -> (r: Option<&T>)
        ensures
            r matches Some(t) ==> idx < self@.tabs.len() && *t == self@.tabs[idx as int],
            r is None <==> idx >= self@.tabs.len(),
    {
        if idx < self.tabs.len() {
            Some(&self.tabs[idx])
        } else {
            None
        }
    }

    /// The active tab.
    pub fn active(&self) -> (t: &T)
        requires
            self@.wf(),
        ensures
            *t == self@.tabs[self@.active],
    {
        &self.tabs[self.active]
    }

    /// The active tab, to change.
    pub fn active_mut(&mut self) -> (t: &mut T)
        requires
            old(self)@.wf(),
        ensures
            *t == old(self)@.tabs[old(self)@.active],
            final(self)@ == (Tabs { tabs: old(self)@.tabs.update(old(self)@.active, *final(t)), active: old(self)@.active }),
    {
        &mut self.tabs[self.active]
    }

    /// Opens `tab` at the end and makes it active.
    pub fn open(&mut self, tab: T)
        requires
            old(self)@.wf(),
        ensures
            final(self)@ == old(self)@.opened(tab),
            final(self)@.wf(),
    {
        self.tabs.push(tab);
        self.active = self.tabs.len() - 1;
    }

    /// Closes the tab at `idx` (see `Tabs::closed`).
    pub fn close(&mut self, idx: usize, fresh: T)
        requires
            old(self)@.wf(),
        ensures
            final(self)@ == old(self)@.closed(idx as int, fresh),
            final(self)@.wf(),
    {
        if idx >= self.tabs.len() {
            return;
        }
        self.tabs.remove(idx);
        if self.tabs.len() == 0 {
            self.tabs.push(fresh);
            self.active = 0;
            assert(self.tabs@ =~= seq![fresh]);
        } else if self.active >= self.tabs.len() {
            self.active = self.tabs.len() - 1;
        } else if self.active > idx {
            self.active = self.active - 1;
        }
    }

    /// Makes the tab at `idx` active, if there is one.
    pub fn switch_to(&mut self, idx: usize)
        requires
            old(self)@.wf(),
        ensures
            final(self)@ == old(self)@.switched(idx as int),
            final(self)@.wf(),
    {
        if idx < self.tabs.len() {
            self.active = idx;
        }
    }

    /// Makes the next tab active, wrapping around.
    pub fn next(&mut self)
        requires
            old(self)@.wf(),
        ensures
            final(self)@ == old(self)@.next(),
            final(self)@.wf(),
    {
        if self.tabs.len() > 0 {
            self.active = (self.active + 1) % self.tabs.len();
        }
    }

    /// Makes the previous tab active, wrapping around.
    pub fn prev(&mut self)
        requires
            old(self)@.wf(),
        ensures
            final(self)@ == old(self)@.prev(),
            final(self)@.wf(),
    {
        if self.tabs.len() > 0 {
            self.active = if self.active == 0 {
                self.tabs.len() - 1
            } else {
                self.active - 1
            };
        }
    }
}

/// Moving to the next tab and back to the previous one returns to the same
/// tab, and so does the reverse.
pub proof fn law_next_prev_inverse<T>(s: Tabs<T>)
    requires
        s.wf(),
    ensures
        s.next().prev() == s,
        s.prev().next() == s,
        s.next().wf(),
        s.prev().wf(),
{
    lemma_wrap_next(s.active, s.tabs.len() as int);
    if s.active == 0 {
        lemma_wrap_next(s.tabs.len() - 1, s.tabs.len() as int);
    } else {
        lemma_wrap_next(s.active - 1, s.tabs.len() as int);
    }
}

/// `(i + 1) % n` for an index `i` below `n`.
pub proof fn lemma_wrap_next(i: int, n: int)
    requires
        0 <= i < n,
    ensures
        (i + 1) % n == if i + 1 == n {
            0
        } else {
            i + 1
        },
{
    if i + 1 == n {
        vstd::arithmetic::div_mod::lemma_mod_self_0(n);
    } else {
        vstd::arithmetic::div_mod::lemma_small_mod((i + 1) as nat, n as nat);
    }
}

/// Closing the active tab makes active the tab that followed it, or, when
/// it was the last one, the tab that now is last (the one before it).
pub proof fn law_close_active_moves_right<T>(s: Tabs<T>, fresh: T)
    requires
        s.wf(),
        s.tabs.len() >= 2,
    ensures
        s.closed(s.active, fresh).wf(),
        s.active < s.tabs.len() - 1 ==> s.closed(s.active, fresh).tabs[s.closed(s.active, fresh).active]
            == s.tabs[s.active + 1],
        s.active == s.tabs.len() - 1 ==> s.closed(s.active, fresh).tabs[s.closed(s.active, fresh).active]
            == s.tabs[s.active - 1],
{
}

/// Closing a tab other than the active one keeps the same tab active.
pub proof fn law_close_keeps_active_tab<T>(s: Tabs<T>, idx: int, fresh: T)
    requires
        s.wf(),
        0 <= idx < s.tabs.len(),
        idx != s.active,
    ensures
        s.closed(idx, fresh).wf(),
        s.closed(idx, fresh).tabs[s.closed(idx, fresh).active] == s.tabs[s.active],
        s.closed(idx, fresh).tabs.len() == s.tabs.len() - 1,
{
}

/// At least one tab is always open: closing the last one opens `fresh`.
pub proof fn law_close_last_opens_fresh<T>(s: Tabs<T>, fresh: T)
    requires
        s.wf(),
        s.tabs.len() == 1,
    ensures
        s.closed(0, fresh) == (Tabs { tabs: seq![fresh], active: 0 }),
{
    assert(s.tabs.remove(0) =~= Seq::<T>::empty());
}

/// A tab just opened is active and is the given one; the others stay.
pub proof fn law_open_activates<T>(s: Tabs<T>, tab: T)
    requires
        s.wf(),
    ensures
        s.opened(tab).wf(),
        s.opened(tab).tabs[s.opened(tab).active] == tab,
        s.opened(tab).tabs.take(s.tabs.len() as int) == s.tabs,
{
    assert(s.opened(tab).tabs.take(s.tabs.len() as int) =~= s.tabs);
}

} // verus!
