//! The navigation state: which page is selected, and who is told when that
//! changes.
//!
//! The state is an owned value that is handed to whoever needs it. A listener
//! is known by the handle that `subscribe` gave it. A write returns the
//! handles of the listeners that are to be told of it; delivering the notice
//! is the caller's part.

use crate::page_id::PageId;
use vstd::prelude::*;

verus! {

/// The navigation state cell.
#[derive(Debug)]
pub struct Navigation {
    page: PageId,
    listeners: Vec<u64>,
    issued: u64,
}

/// The mathematical value of a [`Navigation`].
pub struct NavigationModel {
    /// The selected page.
    pub page: PageId,
    /// The handles of the subscribed listeners, oldest subscription first.
    pub listeners: Seq<u64>,
    /// How many handles have been handed out so far.
    pub issued: nat,
}

impl NavigationModel {
    /// What holds of every navigation state: no listener is listed twice, and
    /// every listed handle has been handed out.
    pub open spec fn valid(self) -> bool {
        &&& self.listeners.no_duplicates()
        &&& forall|i: int| 0 <= i < self.listeners.len() ==> self.listeners[i] < self.issued
        &&& self.issued <= u64::MAX
    }

    /// The state after `id` was written to it.
    pub open spec fn written(self, id: PageId) -> NavigationModel {
        NavigationModel { page: id, ..self }
    }

    /// The listeners that a write of `id` notifies: all of them where the
    /// write changes the selected page, none where it does not.
    pub open spec fn notified_by(self, id: PageId) -> Seq<u64> {
        if self.page == id {
            Seq::empty()
        } else {
            self.listeners
        }
    }

    /// The state after `handle` has left the listeners.
    pub open spec fn without(self, handle: u64) -> NavigationModel {
        if self.listeners.contains(handle) {
            NavigationModel {
                listeners: self.listeners.remove(self.listeners.index_of(handle)),
                ..self
            }
        } else {
            self
        }
    }
}

impl View for Navigation {
    type V = NavigationModel;

    closed spec fn view(&self) -> NavigationModel {
        NavigationModel {
            page: self.page,
            listeners: self.listeners@,
            issued: self.issued as nat,
        }
    }
}

impl Navigation {
    #[verifier::type_invariant]
    spec fn well_formed(&self) -> bool {
        self@.valid()
    }

    /// A fresh state: no page selected yet, nobody listening.
    pub fn new() -> (nav: Navigation)
        ensures
            nav@.page == PageId::Unknown,
            nav@.listeners == Seq::<u64>::empty(),
            nav@.issued == 0,
            nav@.valid(),
    {
        Navigation { page: PageId::Unknown, listeners: Vec::new(), issued: 0 }
    }

    /// The selected page.
    pub fn page_id(&self) -> (id: PageId)
        ensures
            id == self@.page,
    {
        self.page
    }

    /// Whether `handle` is subscribed.
    pub fn is_subscribed(&self, handle: u64) -> (yes: bool)
        ensures
            yes == self@.listeners.contains(handle),
    {
        position(&self.listeners, handle).is_some()
    }

    /// Adds a listener and returns its handle, which no listener had before.
    ///
    /// Returns `None`, and changes nothing, once every handle has been handed
    /// out.
    pub fn subscribe(&mut self) -> (handle: Option<u64>)
        ensures
            final(self)@.valid(),
            old(self)@.issued < u64::MAX ==> handle == Some(old(self)@.issued as u64)
                && final(self)@ == (NavigationModel {
                listeners: old(self)@.listeners.push(old(self)@.issued as u64),
                issued: old(self)@.issued + 1,
                ..old(self)@
            }),
            old(self)@.issued >= u64::MAX ==> handle is None && final(self)@ == old(self)@,
    {
        proof {
            use_type_invariant(&*self);
        }
        if self.issued == u64::MAX {
            return None;
        }
        let handle: u64 = self.issued;
        let mut listeners: Vec<u64> = self.listeners.clone();
        listeners.push(handle);
        // The counter moves first, so that every listed handle stays below it.
        self.issued = handle + 1;
        self.listeners = listeners;
        Some(handle)
    }

    /// Removes the listener `handle`; says whether it was subscribed.
    pub fn unsubscribe(&mut self, handle: u64) -> (removed: bool)
        ensures
            final(self)@.valid(),
            removed == old(self)@.listeners.contains(handle),
            final(self)@ == old(self)@.without(handle),
            !final(self)@.listeners.contains(handle),
    {
        proof {
            use_type_invariant(&*self);
        }
        match position(&self.listeners, handle) {
            None => false,
            Some(at) => {
                let ghost before = self.listeners@;
                assert(before.index_of(handle) == at);
                let mut listeners: Vec<u64> = self.listeners.clone();
                listeners.remove(at);
                proof {
                    lemma_remove_keeps_distinct(before, at as int);
                }
                self.listeners = listeners;
                true
            },
        }
    }
}

/// Where `handle` stands in `listeners`, if it does.
fn position(listeners: &Vec<u64>, handle: u64) -> (at: Option<usize>)
    ensures
        at is Some <==> listeners@.contains(handle),
        at matches Some(i) ==> i < listeners@.len() && listeners@[i as int] == handle,
{
    let mut i: usize = 0;
    while i < listeners.len()
        invariant
            i <= listeners@.len(),
            forall|j: int| 0 <= j < i ==> listeners@[j] != handle,
        decreases listeners.len() - i,
    {
        if listeners[i] == handle {
            return Some(i);
        }
        i = i + 1;
    }
    None
}

/// Taking one element out of a list without duplicates leaves a list without
/// duplicates, in which the element no longer occurs.
proof fn lemma_remove_keeps_distinct(s: Seq<u64>, at: int)
    requires
        s.no_duplicates(),
        0 <= at < s.len(),
    ensures
        s.remove(at).no_duplicates(),
        !s.remove(at).contains(s[at]),
{
    let r = s.remove(at);
    assert forall|j: int| 0 <= j < r.len() implies r[j] != s[at] by {
        if j < at {
            assert(r[j] == s[j]);
        } else {
            assert(r[j] == s[j + 1]);
        }
    }
    assert forall|a: int, b: int| 0 <= a < r.len() && 0 <= b < r.len() && a != b implies r[a]
        != r[b] by {
        let a0 = if a < at { a } else { a + 1 };
        let b0 = if b < at { b } else { b + 1 };
        assert(r[a] == s[a0]);
        assert(r[b] == s[b0]);
    }
}

/// Selects the page `new_page_id`.
///
/// The state changes, and the listeners are to be notified, only where the
/// new value differs from the selected one: a repeated write is a no-op. The
/// result lists the listeners to notify, oldest subscription first.
pub fn set_page_id(nav: &mut Navigation, new_page_id: PageId) -> (notified: Vec<u64>)
    ensures
        final(nav)@ == old(nav)@.written(new_page_id),
        notified@ == old(nav)@.notified_by(new_page_id),
        final(nav)@.valid(),
{
    proof {
        use_type_invariant(&*nav);
    }
    if nav.page == new_page_id {
        return Vec::new();
    }
    nav.page = new_page_id;
    nav.listeners.clone()
}

/// Writing the same value twice notifies each listener at most once: the
/// second write changes nothing and notifies nobody.
pub proof fn lemma_repeated_write_is_silent(nav: NavigationModel, id: PageId)
    requires
        nav.valid(),
    ensures
        nav.written(id).notified_by(id) == Seq::<u64>::empty(),
        nav.written(id).written(id) == nav.written(id),
        (nav.notified_by(id) + nav.written(id).notified_by(id)).no_duplicates(),
{
    assert(nav.notified_by(id) + Seq::<u64>::empty() =~= nav.notified_by(id));
}

} // verus!
