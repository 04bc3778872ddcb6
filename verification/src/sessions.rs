//! The session registry: which live connections are attached to which
//! room.  A connection is known here by a numeric handle that the
//! registry itself hands out, so a handle is never registered twice and
//! never under two rooms at once.

use vstd::prelude::*;
use vstd::pervasive::VecAdditionalExecFns;

verus! {

/// The handles attached to one room, in attach order.  An entry stays
/// once created, even when its last handle detaches, exactly as a map
/// entry would.
pub struct RoomSessions {
    pub room_id: u128,
    pub handles: Vec<u64>,
}

/// Mathematical image of a [`RoomSessions`].
#[verifier::ext_equal]
pub struct RoomSessionsView {
    pub room_id: u128,
    pub handles: Seq<u64>,
}

impl View for RoomSessions {
    type V = RoomSessionsView;

    open spec fn view(&self) -> RoomSessionsView {
        RoomSessionsView { room_id: self.room_id, handles: self.handles@ }
    }
}

impl Clone for RoomSessions {
    fn clone(&self) -> (res: Self)
        ensures
            res@ == self@,
    {
        let res = RoomSessions { room_id: self.room_id, handles: self.handles.clone() };
        proof {
            assert(res.handles@ =~= self.handles@);
        }
        res
    }
}

/// Whether some entry in `entries` is for the room with id `room_id`.
pub open spec fn has_entry(entries: Seq<RoomSessionsView>, room_id: u128) -> bool {
    exists|i: int| 0 <= i < entries.len() && entries[i].room_id == room_id
}

/// The index of the entry for `room_id`; meaningful only under
/// [`has_entry`] and, when room ids are distinct, unique.
pub open spec fn entry_at(entries: Seq<RoomSessionsView>, room_id: u128) -> int {
    choose|i: int| 0 <= i < entries.len() && entries[i].room_id == room_id
}

/// The handles currently attached to `room_id`: the room's entry, or
/// empty when the room never had one.
pub open spec fn handles_of(entries: Seq<RoomSessionsView>, room_id: u128) -> Seq<u64> {
    if has_entry(entries, room_id) {
        entries[entry_at(entries, room_id)].handles
    } else {
        Seq::<u64>::empty()
    }
}

/// Whether `handle` is attached to any room at all.
pub open spec fn registered(entries: Seq<RoomSessionsView>, handle: u64) -> bool {
    exists|i: int, j: int|
        0 <= i < entries.len() && 0 <= j < entries[i].handles.len() && entries[i].handles[j]
            == handle
}

/// The registry of live sessions, plus the counter that the next handle
/// is drawn from.
pub struct SessionRegistry {
    pub entries: Vec<RoomSessions>,
    pub next_handle: u64,
}

impl View for SessionRegistry {
    type V = Seq<RoomSessionsView>;

    open spec fn view(&self) -> Seq<RoomSessionsView> {
        self.entries@.map_values(|e: RoomSessions| e@)
    }
}

/// Internal invariant of the registry: one entry per room, every handle
/// attached in one place only, and every handle drawn before `next`.
pub open spec fn entries_wf(entries: Seq<RoomSessionsView>, next: u64) -> bool {
    &&& forall|i: int, j: int|
        0 <= i < j < entries.len() ==> #[trigger] entries[i].room_id != #[trigger] entries[j].room_id
    &&& forall|i1: int, j1: int, i2: int, j2: int|
        0 <= i1 < entries.len() && 0 <= j1 < entries[i1].handles.len() && 0 <= i2 < entries.len()
            && 0 <= j2 < entries[i2].handles.len() && (i1 != i2 || j1 != j2)
            ==> #[trigger] entries[i1].handles[j1] != #[trigger] entries[i2].handles[j2]
    &&& forall|i: int, j: int|
        0 <= i < entries.len() && 0 <= j < entries[i].handles.len()
            ==> #[trigger] entries[i].handles[j] < next
}

impl SessionRegistry {
    /// Internal invariant, stated over the registry's view.
    pub open spec fn wf(self) -> bool {
        entries_wf(self@, self.next_handle)
    }

    /// An empty registry: no entries, and handles start at zero.
    pub fn new() -> (r: SessionRegistry)
        ensures
            r.wf(),
            r@ =~= Seq::<RoomSessionsView>::empty(),
            r.next_handle == 0,
    {
        SessionRegistry { entries: Vec::new(), next_handle: 0 }
    }

    /// The index of the entry for `room_id`, if any.
    fn find_entry(&self, room_id: u128) -> (r: Option<usize>)
        ensures
            match r {
                Some(i) => i < self@.len() && self@[i as int].room_id == room_id,
                None => !has_entry(self@, room_id),
            },
    {
        let n = self.entries.len();
        let mut i: usize = 0;
        while i < n
            invariant
                i <= n,
                n == self@.len(),
                forall|k: int| 0 <= k < i ==> #[trigger] self@[k].room_id != room_id,
            decreases n - i,
        {
            if self.entries[i].room_id == room_id {
                return Some(i);
            }
            i += 1;
        }
        None
    }

    /// Draws a handle that no session has ever carried: handles only
    /// ever come from here, counting upwards.
    pub fn fresh_handle(&mut self) -> (h: u64)
        requires
            old(self).wf(),
            old(self).next_handle < u64::MAX,
        ensures
            final(self).wf(),
            final(self)@ == old(self)@,
            h == old(self).next_handle,
            final(self).next_handle == old(self).next_handle + 1,
            !registered(final(self)@, h),
            h < final(self).next_handle,
    {
        let h = self.next_handle;
        self.next_handle = self.next_handle + 1;
        proof {
            assert(self@ == old(self)@);
            assert forall|i: int, j: int|
                0 <= i < self@.len() && 0 <= j < self@[i].handles.len() implies #[trigger] self@[i].handles[j]
                < self.next_handle by {
                assert(old(self)@[i].handles[j] < old(self).next_handle);
            }
            if registered(self@, h) {
                let (i, j) = choose|i: int, j: int|
                    0 <= i < self@.len() && 0 <= j < self@[i].handles.len()
                        && self@[i].handles[j] == h;
                assert(old(self)@[i].handles[j] < old(self).next_handle);
            }
        }
        h
    }
    /// Registers `handle` under `room_id`, creating the room's entry if
    /// it never had one.  The handle must be one this registry handed
    /// out ([`SessionRegistry::fresh_handle`]) and not registered yet,
    /// which is what keeps a handle in at most one room.
    pub fn attach(&mut self, room_id: u128, handle: u64)
        requires
            old(self).wf(),
            !registered(old(self)@, handle),
            handle < old(self).next_handle,
        ensures
            final(self).wf(),
            final(self).next_handle == old(self).next_handle,
            forall|r: u128|
                #[trigger] has_entry(final(self)@, r) <==> (has_entry(old(self)@, r) || r
                    == room_id),
            handles_of(final(self)@, room_id) == handles_of(old(self)@, room_id).push(handle),
            forall|r: u128|
                r != room_id ==> #[trigger] handles_of(final(self)@, r) == handles_of(
                    old(self)@,
                    r,
                ),
            registered(final(self)@, handle),
    {
        let ghost pre = self@;
        match self.find_entry(room_id) {
            Some(i) => {
                proof {
                    lemma_entry_at_is(pre, room_id, i as int);
                }
                let mut entry = self.entries[i].clone();
                entry.handles.push(handle);
                proof {
                    assert(entry@.handles =~= pre[i as int].handles.push(handle));
                }
                self.entries.set(i, entry);
                proof {
                    lemma_attach_existing(pre, self@, room_id, handle, i as int, self.next_handle);
                }
            },
            None => {
                let mut hs: Vec<u64> = Vec::new();
                hs.push(handle);
                self.entries.push(RoomSessions { room_id, handles: hs });
                proof {
                    assert(self@ =~= pre.push(RoomSessionsView { room_id, handles: seq![handle] }));
                    lemma_attach_new(pre, self@, room_id, handle, self.next_handle);
                }
            },
        }
    }

    /// Removes `handle` from the entry of `room_id`.  Removing a handle
    /// that is not there (or a room that has no entry) is a no-op, so a
    /// double close is harmless.  Afterwards the room's handles are
    /// those of before with every occurrence of `handle` gone.
    pub fn detach(&mut self, room_id: u128, handle: u64)
        requires
            old(self).wf(),
        ensures
            final(self).wf(),
            final(self).next_handle == old(self).next_handle,
            forall|r: u128|
                #[trigger] has_entry(final(self)@, r) <==> has_entry(old(self)@, r),
            handles_of(final(self)@, room_id) == remove_handle(
                handles_of(old(self)@, room_id),
                handle,
            ),
            !handles_of(final(self)@, room_id).contains(handle),
            forall|r: u128|
                r != room_id ==> #[trigger] handles_of(final(self)@, r) == handles_of(
                    old(self)@,
                    r,
                ),
    {
        let ghost pre = self@;
        match self.find_entry(room_id) {
            Some(i) => {
                proof {
                    lemma_entry_at_is(pre, room_id, i as int);
                }
                match find_handle(&self.entries[i].handles, handle) {
                    Some(j) => {
                        let mut entry = self.entries[i].clone();
                        entry.handles.remove(j);
                        self.entries.set(i, entry);
                        proof {
                            lemma_detach_at(pre, self@, room_id, handle, i as int, j as int, self.next_handle);
                        }
                    },
                    None => {
                        proof {
                            assert(handles_of(pre, room_id) == pre[i as int].handles);
                        }
                    },
                }
            },
            None => {
                proof {
                    assert(handles_of(pre, room_id) =~= Seq::<u64>::empty());
                    assert(remove_handle(Seq::<u64>::empty(), handle) =~= Seq::<u64>::empty());
                }
            },
        }
    }

    /// A copy of the handles attached to `room_id` right now, for the
    /// broadcast fan-out to walk without holding the registry.
    pub fn snapshot(&self, room_id: u128) -> (r: Vec<u64>)
        requires
            self.wf(),
        ensures
            r@ == handles_of(self@, room_id),
    {
        match self.find_entry(room_id) {
            Some(i) => {
                proof {
                    lemma_entry_at_is(self@, room_id, i as int);
                }
                let r = self.entries[i].handles.clone();
                proof {
                    assert(r@ =~= self@[i as int].handles);
                }
                r
            },
            None => {
                let r: Vec<u64> = Vec::new();
                proof {
                    assert(r@ =~= handles_of(self@, room_id));
                }
                r
            },
        }
    }

    /// Whether `room_id` ever had a session attach: the broadcast
    /// fan-out sends and records nothing for a room without an entry.
    pub fn has_room_entry(&self, room_id: u128) -> (b: bool)
        ensures
            b == has_entry(self@, room_id),
    {
        match self.find_entry(room_id) {
            Some(i) => {
                proof {
                    assert(has_entry(self@, room_id));
                }
                true
            },
            None => false,
        }
    }
}

/// `hs` with `handle` taken out, order kept: the slot [`Seq::index_of`]
/// names is dropped.  The registry keeps its handles distinct, so this
/// is every occurrence.
pub open spec fn remove_handle(hs: Seq<u64>, handle: u64) -> Seq<u64> {
    if hs.contains(handle) {
        hs.remove(hs.index_of(handle))
    } else {
        hs
    }
}

/// The position of `handle` in `hs`, if it is there.
fn find_handle(hs: &Vec<u64>, handle: u64) -> (r: Option<usize>)
    ensures
        match r {
            Some(j) => j < hs@.len() && hs@[j as int] == handle,
            None => !hs@.contains(handle),
        },
{
    let n = hs.len();
    let mut j: usize = 0;
    while j < n
        invariant
            j <= n,
            n == hs@.len(),
            forall|k: int| 0 <= k < j ==> #[trigger] hs@[k] != handle,
        decreases n - j,
    {
        if hs[j] == handle {
            return Some(j);
        }
        j += 1;
    }
    None
}

/// With distinct room ids, [`entry_at`] is exactly the index a linear
/// scan finds: there is only one candidate.
pub proof fn lemma_entry_at_is(entries: Seq<RoomSessionsView>, room_id: u128, i: int)
    requires
        forall|p: int, q: int|
            0 <= p < q < entries.len() ==> #[trigger] entries[p].room_id != #[trigger] entries[q].room_id,
        0 <= i < entries.len(),
        entries[i].room_id == room_id,
    ensures
        has_entry(entries, room_id),
        entry_at(entries, room_id) == i,
{
    assert(has_entry(entries, room_id));
    let j = entry_at(entries, room_id);
    if i < j {
        assert(entries[i].room_id != entries[j].room_id);
    } else if j < i {
        assert(entries[j].room_id != entries[i].room_id);
    }
}

/// Pushing a fresh handle onto the entry at `i` keeps the invariant and
/// changes exactly that room's handle list.
proof fn lemma_attach_existing(
    pre: Seq<RoomSessionsView>,
    post: Seq<RoomSessionsView>,
    room_id: u128,
    handle: u64,
    i: int,
    next: u64,
)
    requires
        entries_wf(pre, next),
        !registered(pre, handle),
        handle < next,
        0 <= i < pre.len(),
        pre[i].room_id == room_id,
        post =~= pre.update(
            i,
            RoomSessionsView { room_id: pre[i].room_id, handles: pre[i].handles.push(handle) },
        ),
    ensures
        entries_wf(post, next),
        forall|r: u128| #[trigger] has_entry(post, r) <==> (has_entry(pre, r) || r == room_id),
        handles_of(post, room_id) == handles_of(pre, room_id).push(handle),
        forall|r: u128| r != room_id ==> #[trigger] handles_of(post, r) == handles_of(pre, r),
        registered(post, handle),
{
    let m = pre[i].handles.len() as int;
    assert(forall|k: int| 0 <= k < post.len() ==> #[trigger] post[k].room_id == pre[k].room_id);
    assert forall|p: int, q: int| 0 <= p < q < post.len() implies #[trigger] post[p].room_id
        != #[trigger] post[q].room_id by {
        assert(pre[p].room_id != pre[q].room_id);
    }
    assert forall|i1: int, j1: int, i2: int, j2: int|
        0 <= i1 < post.len() && 0 <= j1 < post[i1].handles.len() && 0 <= i2 < post.len() && 0 <= j2
            < post[i2].handles.len() && (i1 != i2 || j1 != j2) implies #[trigger] post[i1].handles[j1]
        != #[trigger] post[i2].handles[j2] by {
        let a_new = i1 == i && j1 == m;
        let b_new = i2 == i && j2 == m;
        if a_new && b_new {
            assert(false);
        } else if a_new {
            assert(post[i2].handles[j2] == pre[i2].handles[j2]);
            lemma_unregistered_elem(pre, handle, i2, j2);
        } else if b_new {
            assert(post[i1].handles[j1] == pre[i1].handles[j1]);
            lemma_unregistered_elem(pre, handle, i1, j1);
        } else {
            assert(post[i1].handles[j1] == pre[i1].handles[j1]);
            assert(post[i2].handles[j2] == pre[i2].handles[j2]);
            assert(pre[i1].handles[j1] != pre[i2].handles[j2]);
        }
    }
    assert forall|k: int, j: int| 0 <= k < post.len() && 0 <= j < post[k].handles.len() implies #[trigger] post[k].handles[j]
        < next by {
        if k == i && j == m {
        } else {
            assert(post[k].handles[j] == pre[k].handles[j]);
            assert(pre[k].handles[j] < next);
        }
    }
    assert forall|r: u128| #[trigger] has_entry(post, r) <==> (has_entry(pre, r) || r
        == room_id) by {
        if has_entry(post, r) {
            let w = choose|w: int| 0 <= w < post.len() && post[w].room_id == r;
            assert(pre[w].room_id == r);
            assert(has_entry(pre, r));
        }
        if has_entry(pre, r) {
            let w = choose|w: int| 0 <= w < pre.len() && pre[w].room_id == r;
            assert(post[w].room_id == r);
            assert(has_entry(post, r));
        }
        if r == room_id {
            assert(post[i].room_id == r);
            assert(has_entry(post, r));
        }
    }
    lemma_entry_at_is(pre, room_id, i);
    lemma_entry_at_is(post, room_id, i);
    assert(handles_of(post, room_id) == handles_of(pre, room_id).push(handle));
    assert forall|r: u128| r != room_id implies #[trigger] handles_of(post, r) == handles_of(
        pre,
        r,
    ) by {
        if has_entry(pre, r) {
            let w = choose|w: int| 0 <= w < pre.len() && pre[w].room_id == r;
            lemma_entry_at_is(pre, r, w);
            lemma_entry_at_is(post, r, w);
            assert(post[w] == pre[w]);
        } else {
            assert(!has_entry(post, r));
        }
    }
    assert(post[i].handles[m] == handle);
    assert(registered(post, handle));
}

/// A first handle for a room that never had an entry: the new entry
/// keeps the invariant and other rooms see nothing.
proof fn lemma_attach_new(
    pre: Seq<RoomSessionsView>,
    post: Seq<RoomSessionsView>,
    room_id: u128,
    handle: u64,
    next: u64,
)
    requires
        entries_wf(pre, next),
        !registered(pre, handle),
        handle < next,
        !has_entry(pre, room_id),
        post =~= pre.push(RoomSessionsView { room_id, handles: seq![handle] }),
    ensures
        entries_wf(post, next),
        forall|r: u128| #[trigger] has_entry(post, r) <==> (has_entry(pre, r) || r == room_id),
        handles_of(post, room_id) == handles_of(pre, room_id).push(handle),
        forall|r: u128| r != room_id ==> #[trigger] handles_of(post, r) == handles_of(pre, r),
        registered(post, handle),
{
    let n = pre.len() as int;
    assert(forall|k: int| 0 <= k < n ==> #[trigger] post[k] == pre[k]);
    assert(post[n].room_id == room_id);
    assert(post[n].handles =~= seq![handle]);
    assert forall|p: int, q: int| 0 <= p < q < post.len() implies #[trigger] post[p].room_id
        != #[trigger] post[q].room_id by {
        if q < n {
            assert(pre[p].room_id != pre[q].room_id);
        } else {
            if pre[p].room_id == room_id {
                assert(has_entry(pre, room_id));
            }
        }
    }
    assert forall|i1: int, j1: int, i2: int, j2: int|
        0 <= i1 < post.len() && 0 <= j1 < post[i1].handles.len() && 0 <= i2 < post.len() && 0 <= j2
            < post[i2].handles.len() && (i1 != i2 || j1 != j2) implies #[trigger] post[i1].handles[j1]
        != #[trigger] post[i2].handles[j2] by {
        if i1 == n && i2 == n {
            assert(false);
        } else if i1 == n {
            assert(post[i2].handles[j2] == pre[i2].handles[j2]);
            lemma_unregistered_elem(pre, handle, i2, j2);
        } else if i2 == n {
            assert(post[i1].handles[j1] == pre[i1].handles[j1]);
            lemma_unregistered_elem(pre, handle, i1, j1);
        } else {
            assert(pre[i1].handles[j1] != pre[i2].handles[j2]);
        }
    }
    assert forall|k: int, j: int| 0 <= k < post.len() && 0 <= j < post[k].handles.len() implies #[trigger] post[k].handles[j]
        < next by {
        if k < n {
            assert(pre[k].handles[j] < next);
        }
    }
    assert forall|r: u128| #[trigger] has_entry(post, r) <==> (has_entry(pre, r) || r
        == room_id) by {
        if has_entry(post, r) && r != room_id {
            let w = choose|w: int| 0 <= w < post.len() && post[w].room_id == r;
            assert(w < n);
            assert(has_entry(pre, r));
        }
        if has_entry(pre, r) {
            let w = choose|w: int| 0 <= w < pre.len() && pre[w].room_id == r;
            assert(post[w].room_id == r);
            assert(has_entry(post, r));
        }
        assert(post[n].room_id == room_id);
        assert(has_entry(post, room_id));
    }
    lemma_entry_at_is(post, room_id, n);
    assert(handles_of(post, room_id) =~= handles_of(pre, room_id).push(handle));
    assert forall|r: u128| r != room_id implies #[trigger] handles_of(post, r) == handles_of(
        pre,
        r,
    ) by {
        if has_entry(pre, r) {
            let w = choose|w: int| 0 <= w < pre.len() && pre[w].room_id == r;
            lemma_entry_at_is(pre, r, w);
            lemma_entry_at_is(post, r, w);
            assert(post[w] == pre[w]);
        } else {
            assert(!has_entry(post, r));
        }
    }
    assert(post[n].handles[0] == handle);
    assert(registered(post, handle));
}

/// Dropping the handle at slot `(i, j)` keeps the invariant, removes
/// the handle for good (handles are distinct) and changes nothing else.
proof fn lemma_detach_at(
    pre: Seq<RoomSessionsView>,
    post: Seq<RoomSessionsView>,
    room_id: u128,
    handle: u64,
    i: int,
    j: int,
    next: u64,
)
    requires
        entries_wf(pre, next),
        0 <= i < pre.len(),
        pre[i].room_id == room_id,
        0 <= j < pre[i].handles.len(),
        pre[i].handles[j] == handle,
        post =~= pre.update(
            i,
            RoomSessionsView { room_id: pre[i].room_id, handles: pre[i].handles.remove(j) },
        ),
    ensures
        entries_wf(post, next),
        forall|r: u128| #[trigger] has_entry(post, r) <==> has_entry(pre, r),
        handles_of(post, room_id) == remove_handle(handles_of(pre, room_id), handle),
        !handles_of(post, room_id).contains(handle),
        forall|r: u128| r != room_id ==> #[trigger] handles_of(post, r) == handles_of(pre, r),
{
    let hs = pre[i].handles;
    let hs2 = hs.remove(j);
    assert(hs2.len() == hs.len() - 1);
    assert(forall|k: int| 0 <= k < j ==> #[trigger] hs2[k] == hs[k]);
    assert(forall|k: int| j <= k < hs2.len() ==> #[trigger] hs2[k] == hs[k + 1]);
    assert(forall|k: int| 0 <= k < post.len() ==> #[trigger] post[k].room_id == pre[k].room_id);
    assert forall|p: int, q: int| 0 <= p < q < post.len() implies #[trigger] post[p].room_id
        != #[trigger] post[q].room_id by {
        assert(pre[p].room_id != pre[q].room_id);
    }
    assert forall|i1: int, j1: int, i2: int, j2: int|
        0 <= i1 < post.len() && 0 <= j1 < post[i1].handles.len() && 0 <= i2 < post.len() && 0 <= j2
            < post[i2].handles.len() && (i1 != i2 || j1 != j2) implies #[trigger] post[i1].handles[j1]
        != #[trigger] post[i2].handles[j2] by {
        let p1: int = if i1 == i && j1 >= j { j1 + 1 } else { j1 };
        let p2: int = if i2 == i && j2 >= j { j2 + 1 } else { j2 };
        assert(post[i1].handles[j1] == pre[i1].handles[p1]);
        assert(post[i2].handles[j2] == pre[i2].handles[p2]);
        assert(i1 != i2 || p1 != p2);
        assert(pre[i1].handles[p1] != pre[i2].handles[p2]);
    }
    assert forall|k: int, q: int| 0 <= k < post.len() && 0 <= q < post[k].handles.len() implies #[trigger] post[k].handles[q]
        < next by {
        let p: int = if k == i && q >= j { q + 1 } else { q };
        assert(post[k].handles[q] == pre[k].handles[p]);
        assert(pre[k].handles[p] < next);
    }
    assert forall|r: u128| #[trigger] has_entry(post, r) <==> has_entry(pre, r) by {
        if has_entry(post, r) {
            let w = choose|w: int| 0 <= w < post.len() && post[w].room_id == r;
            assert(pre[w].room_id == r);
            assert(has_entry(pre, r));
        }
        if has_entry(pre, r) {
            let w = choose|w: int| 0 <= w < pre.len() && pre[w].room_id == r;
            assert(post[w].room_id == r);
            assert(has_entry(post, r));
        }
    }
    lemma_entry_at_is(pre, room_id, i);
    lemma_entry_at_is(post, room_id, i);
    assert(hs.contains(handle));
    let w = hs.index_of(handle);
    assert(hs[w] == handle);
    assert(w == j) by {
        if w != j {
            assert(pre[i].handles[w] != pre[i].handles[j]);
        }
    }
    assert(handles_of(post, room_id) == remove_handle(handles_of(pre, room_id), handle));
    assert forall|k: int| 0 <= k < hs2.len() implies #[trigger] hs2[k] != handle by {
        if k < j {
            assert(hs2[k] == pre[i].handles[k]);
            assert(pre[i].handles[k] != pre[i].handles[j]);
        } else {
            assert(hs2[k] == pre[i].handles[k + 1]);
            assert(pre[i].handles[k + 1] != pre[i].handles[j]);
        }
    }
    assert(!hs2.contains(handle));
    assert forall|r: u128| r != room_id implies #[trigger] handles_of(post, r) == handles_of(
        pre,
        r,
    ) by {
        if has_entry(pre, r) {
            let w2 = choose|w2: int| 0 <= w2 < pre.len() && pre[w2].room_id == r;
            lemma_entry_at_is(pre, r, w2);
            lemma_entry_at_is(post, r, w2);
            assert(post[w2] == pre[w2]);
        } else {
            assert(!has_entry(post, r));
        }
    }
}

/// A handle that is registered nowhere is in particular not at slot
/// `(i, j)`.
proof fn lemma_unregistered_elem(entries: Seq<RoomSessionsView>, handle: u64, i: int, j: int)
    requires
        !registered(entries, handle),
        0 <= i < entries.len(),
        0 <= j < entries[i].handles.len(),
    ensures
        entries[i].handles[j] != handle,
{
    if entries[i].handles[j] == handle {
        assert(registered(entries, handle));
    }
}

} // verus!
