//! The state that a grouping stream and its groups share.
//!
//! The grouping stream hands out one group per key. The inner stream is polled
//! for one item at a time; its key is computed, and the item is held as the
//! current item until the group of that key takes it. While it is held, no
//! other item is pulled, and every other poller is told to wait. Every poller
//! told to wait leaves its waker, and is woken when an item of its key is
//! pulled, or (for the grouping stream) when an item of a key with no group is
//! pulled or the inner stream ends.
use vstd::prelude::*;
use vstd::std_specs::cmp::PartialEqSpec;
use crate::poll::{
    all_empty, clone_slot, clone_then, held, into_vec, registered, take_all, take_slot, Polled, Step,
};

verus! {

/// The shared state of a grouping of a stream `S` of items `T` by the key
/// function `F`, with keys `K`; `W` is the waker type of the polling tasks.
pub struct Groups<K, T, S, F, W> {
    stream: S,
    current: Option<(K, T)>,
    key_fn: F,
    keys: Vec<K>,
    wakers: Vec<Option<W>>,
    group_by: Option<W>,
    /// Every item pulled from the inner stream, in order, with the key the key
    /// function gave it.
    pulled: Ghost<Seq<(K, T)>>,
    /// Every item handed to a group, in order, with the key of that group.
    taken: Ghost<Seq<(K, T)>>,
}

/// What the shared state holds, seen as values.
pub struct GroupsView<K, T, F, W> {
    /// The item pulled from the inner stream that no group has taken yet,
    /// with its key.
    pub current: Option<(K, T)>,
    /// The key of each group handed out, in the order they were handed out.
    pub keys: Seq<K>,
    /// The waker each group left when it was told to wait.
    pub wakers: Seq<Option<W>>,
    /// The waker the grouping stream left when it was told to wait.
    pub group_by: Option<W>,
    /// The function that gives an item its key.
    pub key_fn: F,
    /// Every item pulled from the inner stream, in order, with its key.
    pub pulled: Seq<(K, T)>,
    /// Every item handed to a group, in order, with the key of that group.
    pub taken: Seq<(K, T)>,
}

/// The index of the first key that `p` holds of, if any.
pub open spec fn first_index<K>(keys: Seq<K>, p: spec_fn(K) -> bool) -> Option<int>
    decreases keys.len(),
{
    if keys.len() == 0 {
        None
    } else if p(keys[0]) {
        Some(0)
    } else {
        match first_index(keys.drop_first(), p) {
            Some(i) => Some(i + 1),
            None => None,
        }
    }
}

/// A key `g` for which `k == g`.
pub open spec fn lhs_eq<K: PartialEq>(k: K) -> spec_fn(K) -> bool {
    |g: K| k.eq_spec(&g)
}

/// A key `g` for which `g == k`.
pub open spec fn rhs_eq<K: PartialEq>(k: K) -> spec_fn(K) -> bool {
    |g: K| g.eq_spec(&k)
}

/// An index seen as an integer.
pub open spec fn as_index(r: Option<usize>) -> Option<int> {
    match r {
        Some(i) => Some(i as int),
        None => None,
    }
}

/// `first_index` is the first index that `p` holds of.
pub proof fn lemma_first_index<K>(keys: Seq<K>, p: spec_fn(K) -> bool)
    ensures
        match first_index(keys, p) {
            Some(i) => {
                &&& 0 <= i < keys.len()
                &&& p(keys[i])
                &&& forall|j: int| 0 <= j < i ==> !p(#[trigger] keys[j])
            },
            None => forall|j: int| 0 <= j < keys.len() ==> !p(#[trigger] keys[j]),
        },
    decreases keys.len(),
{
    if keys.len() > 0 && !p(keys[0]) {
        let rest = keys.drop_first();
        lemma_first_index(rest, p);
        assert forall|j: int| 1 <= j < keys.len() implies keys[j] == rest[j - 1] by {}
        match first_index(rest, p) {
            Some(i) => {
                assert forall|j: int| 0 <= j < i + 1 implies !p(#[trigger] keys[j]) by {
                    if j > 0 {
                        assert(keys[j] == rest[j - 1]);
                    }
                }
            },
            None => {
                assert forall|j: int| 0 <= j < keys.len() implies !p(#[trigger] keys[j]) by {
                    if j > 0 {
                        assert(keys[j] == rest[j - 1]);
                    }
                }
            },
        }
    }
}

/// The waker slots after the group of key `gk`, if there is one, has its slot
/// set to `slot`.
pub open spec fn set_own<K: PartialEq, W>(
    keys: Seq<K>,
    wakers: Seq<Option<W>>,
    gk: K,
    slot: Option<W>,
) -> Seq<Option<W>> {
    match first_index(keys, rhs_eq(gk)) {
        Some(i) => wakers.update(i, slot),
        None => wakers,
    }
}

/// The slot of the first group whose key equals `k`, or an empty one.
pub open spec fn slot_of<K: PartialEq, W>(keys: Seq<K>, wakers: Seq<Option<W>>, k: K) -> Option<W> {
    match first_index(keys, rhs_eq(k)) {
        Some(i) => wakers[i],
        None => None,
    }
}

/// `f` can be called on every item.
#[verifier::opaque]
pub open spec fn callable_on_all<K, T, F: Fn(&T) -> K>(f: F) -> bool {
    forall|x: &T| #[trigger] f.requires((x,))
}

impl<K, T, F: Fn(&T) -> K, W> GroupsView<K, T, F, W> {
    /// One waker slot per group, and a key function that can be called on
    /// every item.
    pub open spec fn wf(self) -> bool {
        &&& self.keys.len() == self.wakers.len()
        &&& callable_on_all(self.key_fn)
    }
}

/// `post` is `pre` with a new group of key `k` (a clone of it), and the item
/// `v` held as the current item under another clone of `k`.
pub open spec fn new_group_rel<K: Clone, T, F, W>(
    pre: GroupsView<K, T, F, W>,
    k: K,
    v: T,
    post: GroupsView<K, T, F, W>,
) -> bool {
    &&& post.current matches Some((k2, v2)) && cloned(k, k2) && v2 == v
    &&& post.keys.len() == pre.keys.len() + 1
    &&& post.keys.drop_last() == pre.keys
    &&& cloned(k, post.keys.last())
    &&& post.wakers == pre.wakers.push(None)
    &&& post.group_by == pre.group_by
    &&& post.key_fn == pre.key_fn
}

/// `post` keeps every part of `pre` that a step leaves alone when it only
/// changes the waker slots and the grouping stream's waker.
pub open spec fn same_items<K, T, F, W>(pre: GroupsView<K, T, F, W>, post: GroupsView<K, T, F, W>) -> bool {
    &&& post.current == pre.current
    &&& post.keys == pre.keys
    &&& post.key_fn == pre.key_fn
    &&& post.pulled == pre.pulled
    &&& post.taken == pre.taken
}

/// What the grouping stream decides when polled, before the inner stream is
/// asked. If an item is held and a group has its key, that group's waker is
/// taken to be woken and the grouping stream waits, leaving its waker; if no
/// group has its key, a new group of that key is handed out. With no item
/// held, the inner stream is to be polled.
pub open spec fn group_by_start_rel<K: PartialEq + Clone, T, F, W>(
    pre: GroupsView<K, T, F, W>,
    waker: W,
    post: GroupsView<K, T, F, W>,
    r: Step<K, W>,
) -> bool {
    match pre.current {
        None => r is PollInner && post == pre,
        Some((k, v)) => match first_index(pre.keys, lhs_eq(k)) {
            Some(i) => {
                &&& r matches Step::Done(p, ws) && p is Pending && ws@ == held(pre.wakers[i])
                &&& same_items(pre, post)
                &&& post.wakers == pre.wakers.update(i, None)
                &&& post.group_by == Some(waker)
            },
            None => {
                &&& r matches Step::Done(p, ws) && p == Polled::Ready(Some(k)) && ws@.len() == 0
                &&& new_group_rel(pre, k, v, post)
                &&& post.pulled == pre.pulled
                &&& post.taken == pre.taken
            },
        },
    }
}

/// What the grouping stream does with an item `v` of key `key` that it pulled:
/// if a group has that key, the item is held for it, a clone of that group's
/// waker is to be woken, and the grouping stream waits, leaving `waker`; else
/// a new group of that key is handed out and the item is held for it.
pub open spec fn group_by_deliver_rel<K: PartialEq + Clone, T, F, W: Clone>(
    pre: GroupsView<K, T, F, W>,
    v: T,
    key: K,
    waker: W,
    post: GroupsView<K, T, F, W>,
    r: (Polled<K>, Vec<W>),
) -> bool {
    &&& post.pulled == pre.pulled.push((key, v))
    &&& post.taken == pre.taken
    &&& match first_index(pre.keys, rhs_eq(key)) {
        Some(i) => {
            &&& r.0 is Pending
            &&& clone_then(pre.wakers[i], Seq::empty(), r.1@)
            &&& post.current == Some((key, v))
            &&& post.keys == pre.keys
            &&& post.wakers == pre.wakers
            &&& post.group_by == Some(waker)
            &&& post.key_fn == pre.key_fn
        },
        None => {
            &&& r.0 == Polled::Ready(Some(key))
            &&& r.1@.len() == 0
            &&& new_group_rel(pre, key, v, post)
        },
    }
}

/// What the grouping stream does when the inner stream has ended: it drops
/// its own waker, wakes every group, and ends.
pub open spec fn group_by_end_rel<K, T, F, W>(
    pre: GroupsView<K, T, F, W>,
    post: GroupsView<K, T, F, W>,
    r: (Polled<K>, Vec<W>),
) -> bool {
    &&& r.0 == Polled::<K>::Ready(None)
    &&& r.1@ == registered(pre.wakers)
    &&& same_items(pre, post)
    &&& post.wakers.len() == pre.wakers.len()
    &&& all_empty(post.wakers)
    &&& post.group_by is None
}

/// What the grouping stream does when the inner stream is not ready: it waits
/// and leaves its waker.
pub open spec fn group_by_wait_rel<K, T, F, W>(
    pre: GroupsView<K, T, F, W>,
    waker: W,
    post: GroupsView<K, T, F, W>,
    r: (Polled<K>, Vec<W>),
) -> bool {
    &&& r.0 is Pending
    &&& r.1@.len() == 0
    &&& same_items(pre, post)
    &&& post.wakers == pre.wakers
    &&& post.group_by == Some(waker)
}

/// What follows when the grouping stream has polled the inner stream and got
/// `ev`. An item is given its key by the key function and handled as
/// `group_by_deliver_rel` says.
pub open spec fn group_by_finish_rel<K: PartialEq + Clone, T, F: Fn(&T) -> K, W: Clone>(
    pre: GroupsView<K, T, F, W>,
    ev: Polled<T>,
    waker: W,
    post: GroupsView<K, T, F, W>,
    r: (Polled<K>, Vec<W>),
) -> bool {
    match ev {
        Polled::Ready(Some(v)) => exists|key: K|
            #[trigger] pre.key_fn.ensures((&v,), key) && group_by_deliver_rel(
                pre,
                v,
                key,
                waker,
                post,
                r,
            ),
        Polled::Ready(None) => group_by_end_rel(pre, post, r),
        Polled::Pending => group_by_wait_rel(pre, waker, post, r),
    }
}

/// What the group of key `gk` decides when polled, before the inner stream is
/// asked. It takes the held item if the item has its key; else it leaves its
/// waker, a clone of the waker of the group the item belongs to is to be
/// woken, and it waits. With no item held, the inner stream is to be polled.
pub open spec fn group_start_rel<K: PartialEq, T, F, W: Clone>(
    pre: GroupsView<K, T, F, W>,
    gk: K,
    waker: W,
    post: GroupsView<K, T, F, W>,
    r: Step<T, W>,
) -> bool {
    match pre.current {
        None => r is PollInner && post == pre,
        Some((k, v)) => if gk.eq_spec(&k) {
            &&& r matches Step::Done(p, ws) && p == Polled::Ready(Some(v)) && ws@.len() == 0
            &&& post.current is None
            &&& post.keys == pre.keys
            &&& post.wakers == pre.wakers
            &&& post.group_by == pre.group_by
            &&& post.key_fn == pre.key_fn
            &&& post.pulled == pre.pulled
            &&& post.taken == pre.taken.push((gk, v))
        } else {
            &&& r matches Step::Done(p, ws) && p is Pending && clone_then(
                slot_of(pre.keys, pre.wakers, k),
                Seq::empty(),
                ws@,
            )
            &&& same_items(pre, post)
            &&& post.wakers == set_own(pre.keys, pre.wakers, gk, Some(waker))
            &&& post.group_by == pre.group_by
        },
    }
}

/// What the group of key `gk` does with an item `v` of key `key` that it
/// pulled: it keeps the item if the key is its own; else it leaves its waker,
/// holds the item, and a clone of the waker of the group of that key and the
/// grouping stream's waker are to be woken.
pub open spec fn group_deliver_rel<K: PartialEq, T, F, W: Clone>(
    pre: GroupsView<K, T, F, W>,
    gk: K,
    v: T,
    key: K,
    waker: W,
    post: GroupsView<K, T, F, W>,
    r: (Polled<T>, Vec<W>),
) -> bool {
    &&& post.pulled == pre.pulled.push((key, v))
    &&& post.keys == pre.keys
    &&& post.key_fn == pre.key_fn
    &&& if gk.eq_spec(&key) {
        &&& r.0 == Polled::Ready(Some(v))
        &&& r.1@.len() == 0
        &&& post.current == pre.current
        &&& post.wakers == pre.wakers
        &&& post.group_by == pre.group_by
        &&& post.taken == pre.taken.push((gk, v))
    } else {
        let mid = set_own(pre.keys, pre.wakers, gk, Some(waker));
        &&& r.0 is Pending
        &&& clone_then(slot_of(pre.keys, mid, key), held(pre.group_by), r.1@)
        &&& post.current == Some((key, v))
        &&& post.wakers == mid
        &&& post.group_by is None
        &&& post.taken == pre.taken
    }
}

/// What the group of key `gk` does when the inner stream has ended: it
/// empties its waker slot, wakes the grouping stream, and ends.
pub open spec fn group_end_rel<K: PartialEq, T, F, W>(
    pre: GroupsView<K, T, F, W>,
    gk: K,
    post: GroupsView<K, T, F, W>,
    r: (Polled<T>, Vec<W>),
) -> bool {
    &&& r.0 == Polled::<T>::Ready(None)
    &&& r.1@ == held(pre.group_by)
    &&& same_items(pre, post)
    &&& post.wakers == set_own(pre.keys, pre.wakers, gk, None)
    &&& post.group_by is None
}

/// What the group of key `gk` does when the inner stream is not ready: it
/// waits and leaves its waker.
pub open spec fn group_wait_rel<K: PartialEq, T, F, W>(
    pre: GroupsView<K, T, F, W>,
    gk: K,
    waker: W,
    post: GroupsView<K, T, F, W>,
    r: (Polled<T>, Vec<W>),
) -> bool {
    &&& r.0 is Pending
    &&& r.1@.len() == 0
    &&& same_items(pre, post)
    &&& post.wakers == set_own(pre.keys, pre.wakers, gk, Some(waker))
    &&& post.group_by == pre.group_by
}

/// What follows when the group of key `gk` has polled the inner stream and got
/// `ev`. An item is given its key by the key function and handled as
/// `group_deliver_rel` says.
pub open spec fn group_finish_rel<K: PartialEq, T, F: Fn(&T) -> K, W: Clone>(
    pre: GroupsView<K, T, F, W>,
    gk: K,
    ev: Polled<T>,
    waker: W,
    post: GroupsView<K, T, F, W>,
    r: (Polled<T>, Vec<W>),
) -> bool {
    match ev {
        Polled::Ready(Some(v)) => exists|key: K|
            #[trigger] pre.key_fn.ensures((&v,), key) && group_deliver_rel(
                pre,
                gk,
                v,
                key,
                waker,
                post,
                r,
            ),
        Polled::Ready(None) => group_end_rel(pre, gk, post, r),
        Polled::Pending => group_wait_rel(pre, gk, waker, post, r),
    }
}

impl<K, T, S, F, W> View for Groups<K, T, S, F, W> {
    type V = GroupsView<K, T, F, W>;

    closed spec fn view(&self) -> GroupsView<K, T, F, W> {
        GroupsView {
            current: self.current,
            keys: self.keys@,
            wakers: self.wakers@,
            group_by: self.group_by,
            key_fn: self.key_fn,
            pulled: self.pulled@,
            taken: self.taken@,
        }
    }
}

impl<K, T, S, F: Fn(&T) -> K, W> Groups<K, T, S, F, W> {
    /// The shared state of a grouping of `stream` by `key_fn`: no item held,
    /// no group handed out, no task waiting.
    pub fn new(stream: S, key_fn: F) -> (r: Self)
        requires
            forall|x: &T| #[trigger] key_fn.requires((x,)),
        ensures
            r@.current is None,
            r@.keys.len() == 0,
            r@.wakers.len() == 0,
            r@.group_by is None,
            r@.key_fn == key_fn,
            r.inner() == stream,
            r@.pulled.len() == 0,
            r@.taken.len() == 0,
            r@.wf(),
    {
        proof {
            reveal(callable_on_all);
        }
        Groups {
            stream,
            current: None,
            key_fn,
            keys: Vec::new(),
            wakers: Vec::new(),
            group_by: None,
            pulled: Ghost(Seq::empty()),
            taken: Ghost(Seq::empty()),
        }
    }

    /// The inner stream.
    pub closed spec fn inner(&self) -> S {
        self.stream
    }

    /// The inner stream, to be polled.
    pub fn stream_mut(&mut self) -> (s: &mut S)
        ensures
            *s == old(self).inner(),
            final(self).inner() == *final(s),
            final(self)@ == old(self)@,
    {
        &mut self.stream
    }

    /// An item pulled from the inner stream is held.
    pub fn has_current(&self) -> (r: bool)
        ensures
            r == self@.current is Some,
    {
        self.current.is_some()
    }

    /// The number of groups handed out.
    pub fn group_count(&self) -> (r: usize)
        ensures
            r == self@.keys.len(),
    {
        self.keys.len()
    }

    /// The key the key function gives `v`.
    fn key_of(&self, v: &T) -> (r: K)
        requires
            self@.wf(),
        ensures
            self@.key_fn.ensures((v,), r),
    {
        proof {
            reveal(callable_on_all);
        }
        assert(self@.key_fn.requires((v,)));
        (self.key_fn)(v)
    }
}

impl<K: PartialEq, T, S, F: Fn(&T) -> K, W: Clone> Groups<K, T, S, F, W> {
    /// The first group whose key `g` has `k == g`.
    fn find_lhs(&self, k: &K) -> (r: Option<usize>)
        ensures
            r matches Some(i) ==> i < self@.keys.len(),
            K::obeys_eq_spec() ==> as_index(r) == first_index(self@.keys, lhs_eq(*k)),
    {
        let mut i: usize = 0;
        while i < self.keys.len()
            invariant
                i <= self.keys@.len(),
                K::obeys_eq_spec() ==> forall|j: int|
                    0 <= j < i ==> !k.eq_spec(#[trigger] &self.keys@[j]),
            decreases self.keys@.len() - i,
        {
            if *k == self.keys[i] {
                proof {
                    lemma_first_index(self@.keys, lhs_eq(*k));
                }
                return Some(i);
            }
            i = i + 1;
        }
        proof {
            lemma_first_index(self@.keys, lhs_eq(*k));
        }
        None
    }

    /// The first group whose key `g` has `g == k`.
    fn find_rhs(&self, k: &K) -> (r: Option<usize>)
        ensures
            r matches Some(i) ==> i < self@.keys.len(),
            K::obeys_eq_spec() ==> as_index(r) == first_index(self@.keys, rhs_eq(*k)),
    {
        let mut i: usize = 0;
        while i < self.keys.len()
            invariant
                i <= self.keys@.len(),
                K::obeys_eq_spec() ==> forall|j: int|
                    0 <= j < i ==> !(#[trigger] self.keys@[j]).eq_spec(k),
            decreases self.keys@.len() - i,
        {
            if self.keys[i] == *k {
                proof {
                    lemma_first_index(self@.keys, rhs_eq(*k));
                }
                return Some(i);
            }
            i = i + 1;
        }
        proof {
            lemma_first_index(self@.keys, rhs_eq(*k));
        }
        None
    }


    /// Sets the waker slot of the first group whose key equals `gk`, if any.
    fn set_own_slot(&mut self, gk: &K, slot: Option<W>)
        requires
            old(self)@.wf(),
        ensures
            final(self).inner() == old(self).inner(),
            final(self)@.wf(),
            same_items(old(self)@, final(self)@),
            final(self)@.group_by == old(self)@.group_by,
            K::obeys_eq_spec() ==> final(self)@.wakers == set_own(
                old(self)@.keys,
                old(self)@.wakers,
                *gk,
                slot,
            ),
    {
        match self.find_rhs(gk) {
            Some(i) => {
                self.wakers.set(i, slot);
            },
            None => {},
        }
    }

    /// A clone of the waker of the first group whose key equals `k`, if any.
    fn clone_waker_of(&self, k: &K) -> (r: Vec<W>)
        requires
            self@.wf(),
        ensures
            K::obeys_eq_spec() ==> clone_then(
                slot_of(self@.keys, self@.wakers, *k),
                Seq::empty(),
                r@,
            ),
    {
        match self.find_rhs(k) {
            Some(i) => clone_slot(&self.wakers, i),
            None => {
                let out: Vec<W> = Vec::new();
                proof {
                    assert(out@ =~= Seq::<W>::empty());
                }
                out
            },
        }
    }

    /// What the group of key `gk` decides when polled, before the inner
    /// stream is asked; `waker` is kept when it is told to wait.
    pub fn group_start(&mut self, gk: &K, waker: W) -> (r: Step<T, W>)
        requires
            old(self)@.wf(),
        ensures
            final(self).inner() == old(self).inner(),
            final(self)@.wf(),
            old(self)@.current is None ==> r is PollInner && final(self)@ == old(self)@,
            r is PollInner ==> old(self)@.current is None,
            K::obeys_eq_spec() ==> group_start_rel(old(self)@, *gk, waker, final(self)@, r),
    {
        let cur = self.current.take();
        match cur {
            None => Step::PollInner,
            Some((k, v)) => {
                if *gk == k {
                    self.taken = Ghost(self.taken@.push((*gk, v)));
                    Step::Done(Polled::Ready(Some(v)), Vec::new())
                } else {
                    let ws = self.clone_waker_of(&k);
                    self.set_own_slot(gk, Some(waker));
                    self.current = Some((k, v));
                    Step::Done(Polled::Pending, ws)
                }
            },
        }
    }

    /// What the group of key `gk` does with an item `v` of key `key` that it
    /// pulled from the inner stream; the wakers returned are to be woken.
    pub fn group_deliver(&mut self, gk: &K, v: T, key: K, waker: W) -> (r: (Polled<T>, Vec<W>))
        requires
            old(self)@.wf(),
            old(self)@.current is None,
        ensures
            final(self).inner() == old(self).inner(),
            final(self)@.wf(),
            final(self)@.pulled == old(self)@.pulled.push((key, v)),
            final(self)@.keys == old(self)@.keys,
            final(self)@.key_fn == old(self)@.key_fn,
            K::obeys_eq_spec() ==> group_deliver_rel(old(self)@, *gk, v, key, waker, final(self)@, r),
    {
        self.pulled = Ghost(self.pulled@.push((key, v)));
        if *gk == key {
            self.taken = Ghost(self.taken@.push((*gk, v)));
            (Polled::Ready(Some(v)), Vec::new())
        } else {
            self.set_own_slot(gk, Some(waker));
            let mut ws = self.clone_waker_of(&key);
            let gb = self.group_by.take();
            let ghost first = ws@;
            let mut rest = into_vec(gb);
            ws.append(&mut rest);
            proof {
                if first.len() > 0 {
                    assert(ws@.drop_first() =~= first.drop_first() + held(old(self)@.group_by));
                    assert(ws@[0] == first[0]);
                } else {
                    assert(ws@ =~= held(old(self)@.group_by));
                }
            }
            self.current = Some((key, v));
            (Polled::Pending, ws)
        }
    }

    /// What follows when the group of key `gk` has polled the inner stream
    /// and got `ev`; the wakers returned are to be woken.
    pub fn group_finish(&mut self, gk: &K, ev: Polled<T>, waker: W) -> (r: (Polled<T>, Vec<W>))
        requires
            old(self)@.wf(),
            old(self)@.current is None,
        ensures
            final(self).inner() == old(self).inner(),
            final(self)@.wf(),
            ev matches Polled::Ready(None) ==> {
                &&& r.0 == Polled::<T>::Ready(None)
                &&& r.1@ == held(old(self)@.group_by)
                &&& same_items(old(self)@, final(self)@)
                &&& final(self)@.group_by is None
            },
            ev is Pending ==> {
                &&& r.0 is Pending
                &&& r.1@.len() == 0
                &&& same_items(old(self)@, final(self)@)
                &&& final(self)@.group_by == old(self)@.group_by
            },
            K::obeys_eq_spec() ==> group_finish_rel(old(self)@, *gk, ev, waker, final(self)@, r),
    {
        match ev {
            Polled::Ready(Some(v)) => {
                let key = self.key_of(&v);
                self.group_deliver(gk, v, key, waker)
            },
            Polled::Ready(None) => {
                self.set_own_slot(gk, None);
                let gb = self.group_by.take();
                (Polled::Ready(None), into_vec(gb))
            },
            Polled::Pending => {
                self.set_own_slot(gk, Some(waker));
                (Polled::Pending, Vec::new())
            },
        }
    }
}

impl<K: PartialEq + Clone, T, S, F: Fn(&T) -> K, W: Clone> Groups<K, T, S, F, W> {
    /// What the grouping stream decides when polled, before the inner stream
    /// is asked; `waker` is kept when it is told to wait. A new group's key is
    /// returned as the ready item.
    pub fn group_by_start(&mut self, waker: W) -> (r: Step<K, W>)
        requires
            old(self)@.wf(),
        ensures
            final(self).inner() == old(self).inner(),
            final(self)@.wf(),
            old(self)@.current is None ==> r is PollInner && final(self)@ == old(self)@,
            r is PollInner ==> old(self)@.current is None,
            K::obeys_eq_spec() ==> group_by_start_rel(old(self)@, waker, final(self)@, r),
    {
        let cur = self.current.take();
        match cur {
            None => Step::PollInner,
            Some((k, v)) => {
                match self.find_lhs(&k) {
                    Some(i) => {
                        let w = take_slot(&mut self.wakers, i);
                        self.current = Some((k, v));
                        self.group_by = Some(waker);
                        Step::Done(Polled::Pending, into_vec(w))
                    },
                    None => {
                        self.current = Some((k.clone(), v));
                        self.keys.push(k.clone());
                        self.wakers.push(None);
                        proof {
                            assert(self@.keys.drop_last() =~= old(self)@.keys);
                        }
                        Step::Done(Polled::Ready(Some(k)), Vec::new())
                    },
                }
            },
        }
    }

    /// What the grouping stream does with an item `v` of key `key` that it
    /// pulled from the inner stream; `waker` is kept when it is told to wait.
    /// A new group's key is returned as the ready item; the wakers returned
    /// are to be woken.
    pub fn group_by_deliver(&mut self, v: T, key: K, waker: W) -> (r: (Polled<K>, Vec<W>))
        requires
            old(self)@.wf(),
            old(self)@.current is None,
        ensures
            final(self).inner() == old(self).inner(),
            final(self)@.wf(),
            final(self)@.pulled == old(self)@.pulled.push((key, v)),
            final(self)@.taken == old(self)@.taken,
            final(self)@.key_fn == old(self)@.key_fn,
            K::obeys_eq_spec() ==> group_by_deliver_rel(old(self)@, v, key, waker, final(self)@, r),
    {
        self.pulled = Ghost(self.pulled@.push((key, v)));
        match self.find_rhs(&key) {
            Some(i) => {
                let ws = clone_slot(&self.wakers, i);
                self.current = Some((key, v));
                self.group_by = Some(waker);
                (Polled::Pending, ws)
            },
            None => {
                self.current = Some((key.clone(), v));
                self.keys.push(key.clone());
                self.wakers.push(None);
                proof {
                    assert(self@.keys.drop_last() =~= old(self)@.keys);
                }
                (Polled::Ready(Some(key)), Vec::new())
            },
        }
    }

    /// What follows when the grouping stream has polled the inner stream and
    /// got `ev`; `waker` is kept when it is told to wait; the wakers returned
    /// are to be woken.
    pub fn group_by_finish(&mut self, ev: Polled<T>, waker: W) -> (r: (Polled<K>, Vec<W>))
        requires
            old(self)@.wf(),
            old(self)@.current is None,
        ensures
            final(self).inner() == old(self).inner(),
            final(self)@.wf(),
            ev matches Polled::Ready(None) ==> group_by_end_rel(old(self)@, final(self)@, r),
            ev is Pending ==> group_by_wait_rel(old(self)@, waker, final(self)@, r),
            K::obeys_eq_spec() ==> group_by_finish_rel(old(self)@, ev, waker, final(self)@, r),
    {
        match ev {
            Polled::Ready(Some(v)) => {
                let key = self.key_of(&v);
                self.group_by_deliver(v, key, waker)
            },
            Polled::Ready(None) => {
                self.group_by = None;
                let ws = take_all(&mut self.wakers);
                (Polled::Ready(None), ws)
            },
            Polled::Pending => {
                self.group_by = Some(waker);
                (Polled::Pending, Vec::new())
            },
        }
    }
}

} // verus!
