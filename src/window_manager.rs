//! The set of open application windows, keyed by logical window id, with
//! the platform window handle of each kept in lockstep.

use vstd::prelude::*;

verus! {

/// One live application window.
///
/// `N` is what the platform and the compositor own for the window and this
/// crate only carries: the native window, the UI state snapshot, the drawing
/// surface and renderer, the cursor intent and the drag-resize handler.
pub struct Window<N> {
    pub raw: N,
    pub viewport_version: u64,
    pub exit_on_close_request: bool,
    pub prev_dnd_destination_rectangles_count: usize,
    pub resize_enabled: bool,
    /// Whether a native redraw was asked for and no frame has been produced
    /// since; the render loop clears it.
    pub redraw_requested: bool,
}

/// What one redraw request does to the pending flag: the flag ends set, and a
/// native redraw is issued only when none was pending.
pub open spec fn redraw_step(pending: bool) -> (bool, bool) {
    (true, !pending)
}

/// The pending flag after `n` redraw requests in a row.
pub open spec fn pending_after(pending: bool, n: nat) -> bool
    decreases n,
{
    if n == 0 {
        pending
    } else {
        pending_after(redraw_step(pending).0, (n - 1) as nat)
    }
}

/// How many native redraws `n` redraw requests in a row issue.
pub open spec fn redraws_issued(pending: bool, n: nat) -> nat
    decreases n,
{
    if n == 0 {
        0
    } else {
        (if redraw_step(pending).1 { 1nat } else { 0nat }) + redraws_issued(
            redraw_step(pending).0,
            (n - 1) as nat,
        )
    }
}

/// A burst of one or more redraw requests with no clear in between issues
/// exactly one native redraw when none was pending, none when one was, and
/// leaves a redraw pending.
pub proof fn lemma_redraw_burst(pending: bool, n: nat)
    requires
        n >= 1,
    ensures
        redraws_issued(pending, n) == (if pending { 0nat } else { 1nat }),
        pending_after(pending, n),
    decreases n,
{
    if n > 1 {
        lemma_redraw_burst(true, (n - 1) as nat);
    } else {
        assert(redraws_issued(true, 0) == 0);
        assert(pending_after(true, 0));
    }
}

impl<N> Window<N> {
    /// Asks for a redraw. Returns whether the caller must forward one native
    /// redraw request: only when none was pending already.
    pub fn request_redraw(&mut self) -> (issued: bool)
        ensures
            (final(self).redraw_requested, issued) == redraw_step(old(self).redraw_requested),
            final(self).raw == old(self).raw,
            final(self).viewport_version == old(self).viewport_version,
            final(self).exit_on_close_request == old(self).exit_on_close_request,
            final(self).prev_dnd_destination_rectangles_count
                == old(self).prev_dnd_destination_rectangles_count,
            final(self).resize_enabled == old(self).resize_enabled,
    {
        if !self.redraw_requested {
            self.redraw_requested = true;
            true
        } else {
            false
        }
    }
}

/// The open windows, by logical id, each with its platform handle.
pub struct WindowManager<N> {
    /// (logical id, platform handle) of each window, ascending by id.
    keys: Vec<(u64, u64)>,
    /// The windows, in the order of `keys`.
    windows: Vec<Window<N>>,
}

impl<N> WindowManager<N> {
    /// The (logical id, platform handle) pairs, ascending by logical id.
    pub closed spec fn key_seq(&self) -> Seq<(u64, u64)> {
        self.keys@
    }

    /// The windows, in the order of `key_seq`.
    pub closed spec fn window_seq(&self) -> Seq<Window<N>> {
        self.windows@
    }

    /// One window per key, ids strictly ascending, handles pairwise distinct.
    pub open spec fn wf(&self) -> bool {
        &&& self.key_seq().len() == self.window_seq().len()
        &&& forall|i: int, j: int|
            0 <= i < j < self.key_seq().len() ==> #[trigger] self.key_seq()[i].0
                < #[trigger] self.key_seq()[j].0
        &&& forall|i: int, j: int|
            0 <= i < j < self.key_seq().len() ==> #[trigger] self.key_seq()[i].1
                != #[trigger] self.key_seq()[j].1
    }

    /// The logical ids, ascending.
    pub open spec fn ids_spec(&self) -> Seq<u64> {
        self.key_seq().map_values(|k: (u64, u64)| k.0)
    }

    /// Whether a window is open under `id`.
    pub open spec fn has_id(&self, id: u64) -> bool {
        exists|i: int| 0 <= i < self.key_seq().len() && #[trigger] self.key_seq()[i].0 == id
    }

    /// Whether `handle` has a reverse entry.
    pub open spec fn has_handle(&self, handle: u64) -> bool {
        exists|i: int| 0 <= i < self.key_seq().len() && #[trigger] self.key_seq()[i].1 == handle
    }

    /// Where the window of a present id stands.
    pub open spec fn index_of_id(&self, id: u64) -> int {
        choose|i: int| 0 <= i < self.key_seq().len() && #[trigger] self.key_seq()[i].0 == id
    }

    /// Where the window of a mapped handle stands.
    pub open spec fn index_of_handle(&self, handle: u64) -> int {
        choose|i: int| 0 <= i < self.key_seq().len() && #[trigger] self.key_seq()[i].1 == handle
    }

    /// The platform handle registered for a present id.
    pub open spec fn handle_of_id(&self, id: u64) -> u64 {
        self.key_seq()[self.index_of_id(id)].1
    }

    /// The logical id that a mapped handle resolves to.
    pub open spec fn id_of_handle(&self, handle: u64) -> u64 {
        self.key_seq()[self.index_of_handle(handle)].0
    }

    /// Whether every id before `p` is below `id` and every id from `p` on is above it.
    pub open spec fn splits_at(&self, id: u64, p: int) -> bool {
        &&& 0 <= p <= self.key_seq().len()
        &&& forall|j: int| 0 <= j < p ==> #[trigger] self.key_seq()[j].0 < id
        &&& forall|j: int| p <= j < self.key_seq().len() ==> #[trigger] self.key_seq()[j].0 > id
    }

    /// Where an absent id would be inserted to keep the ids ascending.
    pub open spec fn insertion_point(&self, id: u64) -> int {
        choose|p: int| #[trigger] self.splits_at(id, p)
    }

    /// The window that a newly inserted entry starts as.
    pub open spec fn fresh_window(raw: N, viewport_version: u64, exit_on_close_request: bool) -> Window<N> {
        Window {
            raw,
            viewport_version,
            exit_on_close_request,
            prev_dnd_destination_rectangles_count: 0,
            resize_enabled: false,
            redraw_requested: false,
        }
    }

    /// An empty manager.
    pub fn new() -> (r: Self)
        ensures
            r.wf(),
            r.key_seq().len() == 0,
    {
        WindowManager { keys: Vec::new(), windows: Vec::new() }
    }

    /// Binary search for `id`: its index, or where it would be inserted.
    fn position_of(&self, id: u64) -> (r: Result<usize, usize>)
        requires
            self.wf(),
        ensures
            match r {
                Ok(i) => i < self.key_seq().len() && self.key_seq()[i as int].0 == id,
                Err(p) => self.splits_at(id, p as int),
            },
    {
        let mut lo: usize = 0;
        let mut hi: usize = self.keys.len();
        while lo < hi
            invariant
                self.wf(),
                lo <= hi <= self.key_seq().len(),
                forall|j: int| 0 <= j < lo ==> #[trigger] self.key_seq()[j].0 < id,
                forall|j: int| hi <= j < self.key_seq().len() ==> #[trigger] self.key_seq()[j].0 > id,
            decreases hi - lo,
        {
            let mid: usize = lo + (hi - lo) / 2;
            let k: u64 = self.keys[mid].0;
            if k == id {
                return Ok(mid);
            } else if k < id {
                assert forall|j: int| 0 <= j < mid + 1 implies #[trigger] self.key_seq()[j].0 < id by {
                    if j < mid {
                        assert(self.key_seq()[j].0 < self.key_seq()[mid as int].0);
                    }
                }
                lo = mid + 1;
            } else {
                assert forall|j: int| mid <= j < self.key_seq().len() implies #[trigger] self.key_seq()[j].0 > id by {
                    if j > mid {
                        assert(self.key_seq()[mid as int].0 < self.key_seq()[j].0);
                    }
                }
                hi = mid;
            }
        }
        Err(lo)
    }

    /// The index of a key is the index that its id and its handle pick out.
    proof fn lemma_index_of_key(&self, i: int)
        requires
            self.wf(),
            0 <= i < self.key_seq().len(),
        ensures
            self.has_id(self.key_seq()[i].0),
            self.index_of_id(self.key_seq()[i].0) == i,
            self.has_handle(self.key_seq()[i].1),
            self.index_of_handle(self.key_seq()[i].1) == i,
    {
        let id = self.key_seq()[i].0;
        let handle = self.key_seq()[i].1;
        assert(self.has_id(id));
        assert(self.has_handle(handle));
        let a = self.index_of_id(id);
        let b = self.index_of_handle(handle);
        if a < i {
            assert(self.key_seq()[a].0 < self.key_seq()[i].0);
        } else if a > i {
            assert(self.key_seq()[i].0 < self.key_seq()[a].0);
        }
        if b < i {
            assert(self.key_seq()[b].1 != self.key_seq()[i].1);
        } else if b > i {
            assert(self.key_seq()[i].1 != self.key_seq()[b].1);
        }
    }

    /// Looks up the window of a logical id.
    pub fn get(&self, id: u64) -> (r: Option<&Window<N>>)
        requires
            self.wf(),
        ensures
            match r {
                Some(w) => self.has_id(id) && *w == self.window_seq()[self.index_of_id(id)],
                None => !self.has_id(id),
            },
    {
        match self.position_of(id) {
            Ok(i) => {
                proof {
                    self.lemma_index_of_key(i as int);
                }
                Some(&self.windows[i])
            },
            Err(_) => None,
        }
    }

    /// Looks up the window of a logical id, for change.
    pub fn get_mut(&mut self, id: u64) -> (r: Option<&mut Window<N>>)
        requires
            old(self).wf(),
        ensures
            final(self).key_seq() == old(self).key_seq(),
            match r {
                Some(w) => {
                    &&& old(self).has_id(id)
                    &&& *w == old(self).window_seq()[old(self).index_of_id(id)]
                    &&& final(self).window_seq() == old(self).window_seq().update(
                        old(self).index_of_id(id),
                        *final(w),
                    )
                },
                None => !old(self).has_id(id) && final(self).window_seq() == old(self).window_seq(),
            },
    {
        match self.position_of(id) {
            Ok(i) => {
                proof {
                    self.lemma_index_of_key(i as int);
                }
                Some(&mut self.windows[i])
            },
            Err(_) => None,
        }
    }

    /// The window with the smallest logical id.
    pub fn first(&self) -> (r: Option<&Window<N>>)
        requires
            self.wf(),
        ensures
            match r {
                Some(w) => self.key_seq().len() > 0 && *w == self.window_seq()[0],
                None => self.key_seq().len() == 0,
            },
    {
        if self.windows.len() == 0 {
            None
        } else {
            Some(&self.windows[0])
        }
    }

    /// The window with the greatest logical id, whose current monitor seeds
    /// the placement of new windows.
    pub fn last_monitor(&self) -> (r: Option<&Window<N>>)
        requires
            self.wf(),
        ensures
            match r {
                Some(w) => self.key_seq().len() > 0 && *w == self.window_seq().last(),
                None => self.key_seq().len() == 0,
            },
    {
        if self.windows.len() == 0 {
            None
        } else {
            Some(&self.windows[self.windows.len() - 1])
        }
    }

    /// The logical ids, ascending.
    pub fn ids(&self) -> (r: Vec<u64>)
        requires
            self.wf(),
        ensures
            r@ == self.ids_spec(),
    {
        let mut r: Vec<u64> = Vec::new();
        let mut i: usize = 0;
        while i < self.keys.len()
            invariant
                i <= self.key_seq().len(),
                r@ == self.ids_spec().take(i as int),
            decreases self.key_seq().len() - i,
        {
            r.push(self.keys[i].0);
            i = i + 1;
            assert(r@ =~= self.ids_spec().take(i as int));
        }
        assert(r@ =~= self.ids_spec());
        r
    }

    /// The logical ids, ascending, with the windows in the same order, for change.
    pub fn iter_mut(&mut self) -> (r: (Vec<u64>, &mut [Window<N>]))
        requires
            old(self).wf(),
        ensures
            r.0@ == old(self).ids_spec(),
            r.1@ == old(self).window_seq(),
            final(self).key_seq() == old(self).key_seq(),
            final(self).window_seq() == final(r.1)@,
    {
        let ids = self.ids();
        (ids, self.windows.as_mut_slice())
    }

    /// An index that splits the ids around an absent `id` is its insertion point.
    proof fn lemma_insertion_point(&self, id: u64, p: int)
        requires
            self.wf(),
            self.splits_at(id, p),
        ensures
            !self.has_id(id),
            self.insertion_point(id) == p,
    {
        assert(self.splits_at(id, p));
        let q = self.insertion_point(id);
        if q < p {
            assert(self.key_seq()[q].0 < id);
        } else if q > p {
            assert(self.key_seq()[p].0 > id);
        }
        if self.has_id(id) {
            let i = self.index_of_id(id);
            if i < p {
                assert(self.key_seq()[i].0 < id);
            } else {
                assert(self.key_seq()[i].0 > id);
            }
        }
    }

    /// Linear search for the key that holds `handle`.
    fn position_of_handle(&self, handle: u64) -> (r: Option<usize>)
        requires
            self.wf(),
        ensures
            match r {
                Some(i) => i < self.key_seq().len() && self.key_seq()[i as int].1 == handle,
                None => !self.has_handle(handle),
            },
    {
        let mut i: usize = 0;
        while i < self.keys.len()
            invariant
                i <= self.key_seq().len(),
                forall|j: int| 0 <= j < i ==> #[trigger] self.key_seq()[j].1 != handle,
            decreases self.key_seq().len() - i,
        {
            if self.keys[i].1 == handle {
                return Some(i);
            }
            i = i + 1;
        }
        None
    }

    /// Resolves a platform handle to its logical id and window, for change.
    pub fn get_mut_alias(&mut self, handle: u64) -> (r: Option<(u64, &mut Window<N>)>)
        requires
            old(self).wf(),
        ensures
            final(self).key_seq() == old(self).key_seq(),
            match r {
                Some((id, w)) => {
                    &&& old(self).has_handle(handle)
                    &&& id == old(self).id_of_handle(handle)
                    &&& *w == old(self).window_seq()[old(self).index_of_handle(handle)]
                    &&& final(self).window_seq() == old(self).window_seq().update(
                        old(self).index_of_handle(handle),
                        *final(w),
                    )
                },
                None => !old(self).has_handle(handle) && final(self).window_seq()
                    == old(self).window_seq(),
            },
    {
        match self.position_of_handle(handle) {
            Some(i) => {
                proof {
                    self.lemma_index_of_key(i as int);
                }
                let id: u64 = self.keys[i].0;
                Some((id, &mut self.windows[i]))
            },
            None => None,
        }
    }

    /// Removes the window of a logical id, with its handle, and hands it back.
    pub fn remove(&mut self, id: u64) -> (r: Option<Window<N>>)
        requires
            old(self).wf(),
        ensures
            final(self).wf(),
            forall|k: (u64, u64)|
                #[trigger] final(self).key_seq().contains(k) <==> (old(self).key_seq().contains(k)
                    && k.0 != id),
            match r {
                Some(w) => {
                    &&& old(self).has_id(id)
                    &&& w == old(self).window_seq()[old(self).index_of_id(id)]
                    &&& final(self).key_seq() == old(self).key_seq().remove(old(self).index_of_id(id))
                    &&& final(self).window_seq() == old(self).window_seq().remove(
                        old(self).index_of_id(id),
                    )
                },
                None => {
                    &&& !old(self).has_id(id)
                    &&& final(self).key_seq() == old(self).key_seq()
                    &&& final(self).window_seq() == old(self).window_seq()
                },
            },
    {
        match self.position_of(id) {
            Ok(i) => {
                proof {
                    self.lemma_index_of_key(i as int);
                }
                let ghost before = self.key_seq();
                let _ = self.keys.remove(i);
                let w = self.windows.remove(i);
                assert forall|a: int, b: int| 0 <= a < b < self.key_seq().len() implies #[trigger] self.key_seq()[a].0
                    < #[trigger] self.key_seq()[b].0 && self.key_seq()[a].1 != self.key_seq()[b].1 by {
                    let a0 = if a < i { a } else { a + 1 };
                    let b0 = if b < i { b } else { b + 1 };
                    assert(self.key_seq()[a] == before[a0]);
                    assert(self.key_seq()[b] == before[b0]);
                }
                assert forall|k: (u64, u64)| #[trigger] self.key_seq().contains(k) <==> (
                before.contains(k) && k.0 != id) by {
                    if self.key_seq().contains(k) {
                        let j = choose|j: int| 0 <= j < self.key_seq().len() && self.key_seq()[j] == k;
                        let j0 = if j < i { j } else { j + 1 };
                        assert(before[j0] == k);
                        if j0 < i {
                            assert(before[j0].0 < before[i as int].0);
                        } else {
                            assert(before[i as int].0 < before[j0].0);
                        }
                    }
                    if before.contains(k) && k.0 != id {
                        let j0 = choose|j: int| 0 <= j < before.len() && before[j] == k;
                        let j = if j0 < i { j0 } else { j0 - 1 };
                        assert(self.key_seq()[j] == k);
                    }
                }
                Some(w)
            },
            Err(_) => None,
        }
    }

    /// Opens a window under a logical id and the platform handle of its native
    /// window; an entry already under `id` is replaced. Returns the new entry
    /// for further setup.
    pub fn insert(
        &mut self,
        id: u64,
        handle: u64,
        raw: N,
        viewport_version: u64,
        exit_on_close_request: bool,
    ) -> (r: &mut Window<N>)
        requires
            old(self).wf(),
            old(self).key_seq().len() < usize::MAX,
            old(self).has_handle(handle) ==> old(self).id_of_handle(handle) == id,
        ensures
            *r == Self::fresh_window(raw, viewport_version, exit_on_close_request),
            final(self).wf(),
            final(self).key_seq().contains((id, handle)),
            final(self).key_seq().len() == old(self).key_seq().len() + if old(self).has_id(id) {
                0int
            } else {
                1int
            },
            forall|k: (u64, u64)|
                #[trigger] final(self).key_seq().contains(k) <==> (k == (id, handle) || (old(
                    self,
                ).key_seq().contains(k) && k.0 != id)),
            final(self).id_of_handle(handle) == id,
            final(self).handle_of_id(id) == handle,
            if old(self).has_id(id) {
                &&& final(self).key_seq() == old(self).key_seq().update(
                    old(self).index_of_id(id),
                    (id, handle),
                )
                &&& final(self).window_seq() == old(self).window_seq().update(
                    old(self).index_of_id(id),
                    *final(r),
                )
            } else {
                &&& final(self).key_seq() == old(self).key_seq().insert(
                    old(self).insertion_point(id),
                    (id, handle),
                )
                &&& final(self).window_seq() == old(self).window_seq().insert(
                    old(self).insertion_point(id),
                    *final(r),
                )
            },
    {
        let window = Window {
            raw,
            viewport_version,
            exit_on_close_request,
            prev_dnd_destination_rectangles_count: 0,
            resize_enabled: false,
            redraw_requested: false,
        };
        let ghost before = *self;
        match self.position_of(id) {
            Ok(i) => {
                proof {
                    before.lemma_index_of_key(i as int);
                    assert forall|j: int| 0 <= j < before.key_seq().len() && j != i implies #[trigger] before.key_seq()[j].1 != handle by {
                        if before.key_seq()[j].1 == handle {
                            before.lemma_index_of_key(j);
                            if j < i {
                                assert(before.key_seq()[j].0 < before.key_seq()[i as int].0);
                            } else {
                                assert(before.key_seq()[i as int].0 < before.key_seq()[j].0);
                            }
                        }
                    }
                }
                self.keys.set(i, (id, handle));
                self.windows.set(i, window);
                assert(self.key_seq() == before.key_seq().update(i as int, (id, handle)));
                assert forall|k: (u64, u64)| #[trigger] self.key_seq().contains(k) <==> (k == (id, handle)
                    || (before.key_seq().contains(k) && k.0 != id)) by {
                    if self.key_seq().contains(k) {
                        let j = choose|j: int| 0 <= j < self.key_seq().len() && self.key_seq()[j] == k;
                        if j != i {
                            assert(before.key_seq()[j] == k);
                            if j < i {
                                assert(before.key_seq()[j].0 < before.key_seq()[i as int].0);
                            } else {
                                assert(before.key_seq()[i as int].0 < before.key_seq()[j].0);
                            }
                        }
                    }
                    if k == (id, handle) {
                        assert(self.key_seq()[i as int] == k);
                    }
                    if before.key_seq().contains(k) && k.0 != id {
                        let j = choose|j: int| 0 <= j < before.key_seq().len() && before.key_seq()[j] == k;
                        assert(self.key_seq()[j] == k);
                    }
                }
                proof {
                    self.lemma_index_of_key(i as int);
                }
                assert(self.key_seq()[i as int] == (id, handle));
                assert(self.has_id(id) && self.has_handle(handle));
                &mut self.windows[i]
            },
            Err(p) => {
                proof {
                    before.lemma_insertion_point(id, p as int);
                    assert forall|j: int| 0 <= j < before.key_seq().len() implies #[trigger] before.key_seq()[j].1 != handle by {
                        if before.key_seq()[j].1 == handle {
                            before.lemma_index_of_key(j);
                        }
                    }
                }
                self.keys.insert(p, (id, handle));
                self.windows.insert(p, window);
                assert forall|a: int, b: int| 0 <= a < b < self.key_seq().len() implies #[trigger] self.key_seq()[a].0
                    < #[trigger] self.key_seq()[b].0 && self.key_seq()[a].1 != self.key_seq()[b].1 by {
                    if a < p && b < p {
                        assert(self.key_seq()[a] == before.key_seq()[a]);
                        assert(self.key_seq()[b] == before.key_seq()[b]);
                    } else if a < p && b == p {
                        assert(self.key_seq()[a] == before.key_seq()[a]);
                    } else if a < p {
                        assert(self.key_seq()[a] == before.key_seq()[a]);
                        assert(self.key_seq()[b] == before.key_seq()[b - 1]);
                    } else if a == p {
                        assert(self.key_seq()[b] == before.key_seq()[b - 1]);
                    } else {
                        assert(self.key_seq()[a] == before.key_seq()[a - 1]);
                        assert(self.key_seq()[b] == before.key_seq()[b - 1]);
                    }
                }
                assert forall|k: (u64, u64)| #[trigger] self.key_seq().contains(k) <==> (k == (id, handle)
                    || (before.key_seq().contains(k) && k.0 != id)) by {
                    if self.key_seq().contains(k) {
                        let j = choose|j: int| 0 <= j < self.key_seq().len() && self.key_seq()[j] == k;
                        if j < p {
                            assert(before.key_seq()[j] == k);
                        } else if j > p {
                            assert(before.key_seq()[j - 1] == k);
                        }
                    }
                    if k == (id, handle) {
                        assert(self.key_seq()[p as int] == k);
                    }
                    if before.key_seq().contains(k) && k.0 != id {
                        let j0 = choose|j: int| 0 <= j < before.key_seq().len() && before.key_seq()[j] == k;
                        if j0 < p {
                            assert(self.key_seq()[j0] == k);
                        } else {
                            assert(self.key_seq()[j0 + 1] == k);
                        }
                    }
                }
                proof {
                    self.lemma_index_of_key(p as int);
                }
                assert(self.key_seq()[p as int] == (id, handle));
                assert(self.has_id(id) && self.has_handle(handle));
                &mut self.windows[p]
            },
        }
    }

    /// Whether no window is open.
    pub fn is_empty(&self) -> (r: bool)
        requires
            self.wf(),
        ensures
            r == (self.key_seq().len() == 0),
    {
        self.keys.len() == 0
    }
}

impl<N> Default for WindowManager<N> {
    fn default() -> (r: Self)
        ensures
            r.wf(),
            r.key_seq().len() == 0,
    {
        Self::new()
    }
}

/// The forward and reverse indices are in lockstep: every registered
/// (id, handle) pair is found from either side, the handle of every id with a
/// window resolves back to that id, and every mapped handle resolves to an id
/// whose handle it is.
pub proof fn lemma_ids_and_handles_in_lockstep<N>(m: WindowManager<N>)
    requires
        m.wf(),
    ensures
        forall|k: (u64, u64)|
            #[trigger] m.key_seq().contains(k) ==> m.has_id(k.0) && m.has_handle(k.1)
                && m.id_of_handle(k.1) == k.0 && m.handle_of_id(k.0) == k.1,
        forall|id: u64|
            #[trigger] m.has_id(id) ==> m.has_handle(m.handle_of_id(id)) && m.id_of_handle(
                m.handle_of_id(id),
            ) == id,
        forall|h: u64|
            #[trigger] m.has_handle(h) ==> m.has_id(m.id_of_handle(h)) && m.handle_of_id(
                m.id_of_handle(h),
            ) == h,
{
    assert forall|k: (u64, u64)| #[trigger] m.key_seq().contains(k) implies m.has_id(k.0)
        && m.has_handle(k.1) && m.id_of_handle(k.1) == k.0 && m.handle_of_id(k.0) == k.1 by {
        let i = choose|i: int| 0 <= i < m.key_seq().len() && m.key_seq()[i] == k;
        m.lemma_index_of_key(i);
    }
    assert forall|id: u64| #[trigger] m.has_id(id) implies m.has_handle(m.handle_of_id(id))
        && m.id_of_handle(m.handle_of_id(id)) == id by {
        m.lemma_index_of_key(m.index_of_id(id));
    }
    assert forall|h: u64| #[trigger] m.has_handle(h) implies m.has_id(m.id_of_handle(h))
        && m.handle_of_id(m.id_of_handle(h)) == h by {
        m.lemma_index_of_key(m.index_of_handle(h));
    }
}

/// After a window is removed, its old platform handle no longer resolves.
pub proof fn lemma_removed_handle_unresolved<N>(
    before: WindowManager<N>,
    after: WindowManager<N>,
    id: u64,
)
    requires
        before.wf(),
        before.has_id(id),
        after.key_seq() == before.key_seq().remove(before.index_of_id(id)),
    ensures
        !after.has_handle(before.handle_of_id(id)),
{
    let i = before.index_of_id(id);
    let h = before.handle_of_id(id);
    if after.has_handle(h) {
        let j = after.index_of_handle(h);
        let j0 = if j < i { j } else { j + 1 };
        assert(after.key_seq()[j] == before.key_seq()[j0]);
        if j0 < i {
            assert(before.key_seq()[j0].1 != before.key_seq()[i].1);
        } else {
            assert(before.key_seq()[i].1 != before.key_seq()[j0].1);
        }
    }
}

/// The logical ids are handed out strictly ascending.
pub proof fn lemma_ids_ascending<N>(m: WindowManager<N>)
    requires
        m.wf(),
    ensures
        forall|i: int, j: int|
            0 <= i < j < m.ids_spec().len() ==> #[trigger] m.ids_spec()[i] < #[trigger] m.ids_spec()[j],
{
    assert forall|i: int, j: int| 0 <= i < j < m.ids_spec().len() implies #[trigger] m.ids_spec()[i]
        < #[trigger] m.ids_spec()[j] by {
        assert(m.key_seq()[i].0 < m.key_seq()[j].0);
    }
}

} // verus!
