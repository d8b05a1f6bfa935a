//! What holds of a grouping across polls, for keys whose `==` is an
//! equivalence: one group per key, the held item's key is the one the key
//! function gave it, and items reach the group of their key in order.
use vstd::prelude::*;
use vstd::std_specs::cmp::PartialEqSpec;
use crate::group_by::{
    first_index, group_by_deliver_rel, group_by_end_rel, group_by_finish_rel, group_by_start_rel,
    group_deliver_rel, group_end_rel, group_finish_rel, group_start_rel, lemma_first_index, lhs_eq,
    new_group_rel, rhs_eq, set_own, slot_of, GroupsView,
};
use crate::poll::{held, lemma_registered_contains, registered, Polled, Step};

verus! {

/// `==` on keys has a specification, that specification is an equivalence,
/// and a clone of a key is `==` to it.
pub open spec fn keys_equivalence<K: PartialEq + Clone>() -> bool {
    &&& K::obeys_eq_spec()
    &&& forall|a: K| #[trigger] a.eq_spec(&a)
    &&& forall|a: K, b: K| #[trigger] a.eq_spec(&b) ==> b.eq_spec(&a)
    &&& forall|a: K, b: K, c: K| #[trigger] a.eq_spec(&b) && #[trigger] b.eq_spec(&c) ==> a.eq_spec(&c)
    &&& forall|a: K, b: K| #[trigger] cloned(a, b) ==> a.eq_spec(&b)
}

/// Integer and `bool` keys are such keys.
pub proof fn lemma_integer_and_bool_keys()
    ensures
        keys_equivalence::<u64>(),
        keys_equivalence::<u32>(),
        keys_equivalence::<usize>(),
        keys_equivalence::<i64>(),
        keys_equivalence::<bool>(),
{
}

/// No two groups have `==` keys.
pub open spec fn keys_distinct<K: PartialEq>(keys: Seq<K>) -> bool {
    forall|i: int, j: int| 0 <= i < j < keys.len() ==> !keys[i].eq_spec(&keys[j])
}

/// Every item pulled is recorded with a key the key function gives it.
pub open spec fn pulled_keys_from_fn<K, T, F: Fn(&T) -> K, W>(s: GroupsView<K, T, F, W>) -> bool {
    forall|n: int| 0 <= n < s.pulled.len() ==> s.key_fn.ensures((&(#[trigger] s.pulled[n]).1,), s.pulled[n].0)
}

/// The items pulled that have been handed to a group: all of them but the
/// held one, which is the last one pulled.
pub open spec fn handed<K, T, F, W>(s: GroupsView<K, T, F, W>) -> Seq<(K, T)> {
    if s.current is Some {
        s.pulled.drop_last()
    } else {
        s.pulled
    }
}

/// The held item is the last one pulled, under a key `==` to its own; and the
/// items handed to groups are the other items pulled, in the same order, each
/// handed to a group whose key is `==` to the item's.
pub open spec fn history_ok<K: PartialEq, T, F, W>(s: GroupsView<K, T, F, W>) -> bool {
    &&& s.current matches Some((k, v)) ==> s.pulled.len() > 0 && s.pulled.last().1 == v
        && k.eq_spec(&s.pulled.last().0)
    &&& s.taken.len() == handed(s).len()
    &&& forall|n: int|
        0 <= n < s.taken.len() ==> (#[trigger] s.taken[n]).1 == handed(s)[n].1
            && s.taken[n].0.eq_spec(&handed(s)[n].0)
}

/// What holds of the shared state between any two polls.
pub open spec fn groups_inv<K: PartialEq, T, F: Fn(&T) -> K, W>(s: GroupsView<K, T, F, W>) -> bool {
    &&& keys_distinct(s.keys)
    &&& pulled_keys_from_fn(s)
    &&& history_ok(s)
}

/// The items in `h` whose key is `==` to `k`, in order.
pub open spec fn items_eq<K: PartialEq, T>(h: Seq<(K, T)>, k: K) -> Seq<T>
    decreases h.len(),
{
    if h.len() == 0 {
        Seq::empty()
    } else {
        let rest = items_eq(h.drop_last(), k);
        if h.last().0.eq_spec(&k) {
            rest.push(h.last().1)
        } else {
            rest
        }
    }
}

/// Two histories with the same items, under pairwise `==` keys, have the same
/// items of every key.
proof fn lemma_items_eq_pointwise<K: PartialEq + Clone, T>(a: Seq<(K, T)>, b: Seq<(K, T)>, k: K)
    requires
        keys_equivalence::<K>(),
        a.len() == b.len(),
        forall|n: int| 0 <= n < a.len() ==> (#[trigger] a[n]).1 == b[n].1 && a[n].0.eq_spec(&b[n].0),
    ensures
        items_eq(a, k) == items_eq(b, k),
    decreases a.len(),
{
    if a.len() > 0 {
        let a2 = a.drop_last();
        let b2 = b.drop_last();
        assert forall|n: int| 0 <= n < a2.len() implies (#[trigger] a2[n]).1 == b2[n].1
            && a2[n].0.eq_spec(&b2[n].0) by {
            assert(a2[n] == a[n]);
            assert(b2[n] == b[n]);
        }
        lemma_items_eq_pointwise(a2, b2, k);
        let x = a.last().0;
        let y = b.last().0;
        assert(a[a.len() - 1].0.eq_spec(&b[a.len() - 1].0));
        if x.eq_spec(&k) {
            assert(y.eq_spec(&x));
        }
        if y.eq_spec(&k) {
            assert(x.eq_spec(&y));
        }
    }
}

/// With an equivalence, a key that no group's key is `==` to, in either
/// order, is `==` to none of them.
proof fn lemma_no_match<K: PartialEq + Clone>(keys: Seq<K>, k: K)
    requires
        keys_equivalence::<K>(),
    ensures
        first_index(keys, lhs_eq(k)) is None ==> forall|i: int| 0 <= i < keys.len() ==> !keys[i].eq_spec(&k),
        first_index(keys, rhs_eq(k)) is None ==> forall|i: int| 0 <= i < keys.len() ==> !keys[i].eq_spec(&k),
{
    lemma_first_index(keys, lhs_eq(k));
    lemma_first_index(keys, rhs_eq(k));
    assert forall|i: int| 0 <= i < keys.len() && first_index(keys, lhs_eq(k)) is None implies !keys[i].eq_spec(&k) by {
        assert(!lhs_eq(k)(keys[i]));
    }
    assert forall|i: int| 0 <= i < keys.len() && first_index(keys, rhs_eq(k)) is None implies !keys[i].eq_spec(&k) by {
        assert(!rhs_eq(k)(keys[i]));
    }
}

/// A new group, whose key no group's key is `==` to, keeps the keys distinct.
proof fn lemma_new_group_keeps_keys_distinct<K: PartialEq + Clone, T, F, W>(
    pre: GroupsView<K, T, F, W>,
    k: K,
    v: T,
    post: GroupsView<K, T, F, W>,
)
    requires
        keys_equivalence::<K>(),
        keys_distinct(pre.keys),
        forall|i: int| 0 <= i < pre.keys.len() ==> !pre.keys[i].eq_spec(&k),
        new_group_rel(pre, k, v, post),
    ensures
        keys_distinct(post.keys),
        post.keys.len() == pre.keys.len() + 1,
        post.keys.last().eq_spec(&k),
{
    let k2 = post.keys.last();
    assert(k.eq_spec(&k2));
    assert forall|i: int, j: int| 0 <= i < j < post.keys.len() implies !post.keys[i].eq_spec(
        &post.keys[j],
    ) by {
        assert(post.keys[i] == pre.keys[i]) by {
            assert(post.keys.drop_last()[i] == post.keys[i]);
        }
        if j < pre.keys.len() {
            assert(post.keys[j] == pre.keys[j]) by {
                assert(post.keys.drop_last()[j] == post.keys[j]);
            }
        } else {
            if pre.keys[i].eq_spec(&k2) {
                assert(k2.eq_spec(&k));
            }
        }
    }
}

/// One group per key: a poll of the grouping stream (its start, and its
/// finish when the inner stream was polled) hands out a group only for a key
/// that no group's key is `==` to, and keeps the groups' keys distinct.
pub proof fn lemma_group_by_poll_keeps_keys_distinct<
    K: PartialEq + Clone,
    T,
    F: Fn(&T) -> K,
    W: Clone,
>(
    pre: GroupsView<K, T, F, W>,
    waker: W,
    mid: GroupsView<K, T, F, W>,
    r1: Step<K, W>,
    ev: Polled<T>,
    waker2: W,
    post: GroupsView<K, T, F, W>,
    r2: (Polled<K>, Vec<W>),
)
    requires
        keys_equivalence::<K>(),
        keys_distinct(pre.keys),
        group_by_start_rel(pre, waker, mid, r1),
        r1 is PollInner ==> group_by_finish_rel(mid, ev, waker2, post, r2),
    ensures
        keys_distinct(mid.keys),
        r1 matches Step::Done(Polled::Ready(Some(k)), _) ==> {
            &&& forall|i: int| 0 <= i < pre.keys.len() ==> !pre.keys[i].eq_spec(&k)
            &&& mid.keys.len() == pre.keys.len() + 1
            &&& mid.keys.last().eq_spec(&k)
        },
        r1 is PollInner ==> keys_distinct(post.keys),
        r1 is PollInner ==> (r2.0 matches Polled::Ready(Some(k)) ==> {
            &&& forall|i: int| 0 <= i < mid.keys.len() ==> !mid.keys[i].eq_spec(&k)
            &&& post.keys.len() == mid.keys.len() + 1
            &&& post.keys.last().eq_spec(&k)
        }),
{
    if let Some((k, v)) = pre.current {
        lemma_no_match(pre.keys, k);
        if first_index(pre.keys, lhs_eq(k)) is None {
            lemma_new_group_keeps_keys_distinct(pre, k, v, mid);
        }
    }
    if r1 is PollInner {
        if let Polled::Ready(Some(v)) = ev {
            let key = choose|key: K|
                #[trigger] mid.key_fn.ensures((&v,), key) && group_by_deliver_rel(
                    mid,
                    v,
                    key,
                    waker2,
                    post,
                    r2,
                );
            lemma_no_match(mid.keys, key);
            if first_index(mid.keys, rhs_eq(key)) is None {
                lemma_new_group_keeps_keys_distinct(mid, key, v, post);
            }
        }
    }
}

/// Every poll of the grouping stream keeps the invariant: its start, and its
/// finish when the inner stream was polled.
pub proof fn lemma_group_by_poll_keeps_inv<
    K: PartialEq + Clone,
    T,
    F: Fn(&T) -> K,
    W: Clone,
>(
    pre: GroupsView<K, T, F, W>,
    waker: W,
    mid: GroupsView<K, T, F, W>,
    r1: Step<K, W>,
    ev: Polled<T>,
    waker2: W,
    post: GroupsView<K, T, F, W>,
    r2: (Polled<K>, Vec<W>),
)
    requires
        keys_equivalence::<K>(),
        groups_inv(pre),
        group_by_start_rel(pre, waker, mid, r1),
        r1 is PollInner ==> group_by_finish_rel(mid, ev, waker2, post, r2),
    ensures
        groups_inv(mid),
        r1 is PollInner ==> groups_inv(post),
{
    lemma_group_by_poll_keeps_keys_distinct(pre, waker, mid, r1, ev, waker2, post, r2);
    if let Some((k, v)) = pre.current {
        if first_index(pre.keys, lhs_eq(k)) is None {
            let k2 = mid.current.unwrap().0;
            assert(k.eq_spec(&k2));
            assert(k2.eq_spec(&k));
        }
        assert(handed(mid) == handed(pre));
    }
    if r1 is PollInner {
        assert(mid == pre);
        if let Polled::Ready(Some(v)) = ev {
            let key = choose|key: K|
                #[trigger] mid.key_fn.ensures((&v,), key) && group_by_deliver_rel(
                    mid,
                    v,
                    key,
                    waker2,
                    post,
                    r2,
                );
            assert(post.pulled.drop_last() =~= mid.pulled);
            assert(handed(post) == handed(mid));
            assert(post.current is Some);
            let k2 = post.current.unwrap().0;
            assert(k2.eq_spec(&key)) by {
                if first_index(mid.keys, rhs_eq(key)) is None {
                    assert(key.eq_spec(&k2));
                }
            }
            assert forall|n: int| 0 <= n < post.pulled.len() implies post.key_fn.ensures(
                (&(#[trigger] post.pulled[n]).1,),
                post.pulled[n].0,
            ) by {
                if n < mid.pulled.len() {
                    assert(post.pulled[n] == mid.pulled[n]);
                }
            }
        }
    }
}

/// Every poll of a group keeps the invariant too: its start, and its finish
/// when the inner stream was polled; and it never changes the groups' keys.
pub proof fn lemma_group_poll_keeps_inv<
    K: PartialEq + Clone,
    T,
    F: Fn(&T) -> K,
    W: Clone,
>(
    pre: GroupsView<K, T, F, W>,
    gk: K,
    waker: W,
    mid: GroupsView<K, T, F, W>,
    r1: Step<T, W>,
    ev: Polled<T>,
    waker2: W,
    post: GroupsView<K, T, F, W>,
    r2: (Polled<T>, Vec<W>),
)
    requires
        keys_equivalence::<K>(),
        groups_inv(pre),
        group_start_rel(pre, gk, waker, mid, r1),
        r1 is PollInner ==> group_finish_rel(mid, gk, ev, waker2, post, r2),
    ensures
        groups_inv(mid),
        r1 is PollInner ==> groups_inv(post),
        mid.keys == pre.keys,
        r1 is PollInner ==> post.keys == pre.keys,
{
    if let Some((k, v)) = pre.current {
        if gk.eq_spec(&k) {
            let p0 = pre.pulled.last().0;
            assert(gk.eq_spec(&p0));
            assert(pre.pulled.drop_last().push(pre.pulled.last()) =~= pre.pulled);
            assert forall|n: int| 0 <= n < mid.taken.len() implies (#[trigger] mid.taken[n]).1
                == handed(mid)[n].1 && mid.taken[n].0.eq_spec(&handed(mid)[n].0) by {
                if n < pre.taken.len() {
                    assert(mid.taken[n] == pre.taken[n]);
                    assert(handed(mid)[n] == handed(pre)[n]);
                }
            }
        }
    }
    if r1 is PollInner {
        assert(mid == pre);
        if let Polled::Ready(Some(v)) = ev {
            let key = choose|key: K|
                #[trigger] mid.key_fn.ensures((&v,), key) && group_deliver_rel(
                    mid,
                    gk,
                    v,
                    key,
                    waker2,
                    post,
                    r2,
                );
            assert(post.pulled.drop_last() =~= mid.pulled);
            assert forall|n: int| 0 <= n < post.pulled.len() implies post.key_fn.ensures(
                (&(#[trigger] post.pulled[n]).1,),
                post.pulled[n].0,
            ) by {
                if n < mid.pulled.len() {
                    assert(post.pulled[n] == mid.pulled[n]);
                }
            }
            if gk.eq_spec(&key) {
                assert forall|n: int| 0 <= n < post.taken.len() implies (#[trigger] post.taken[n]).1
                    == handed(post)[n].1 && post.taken[n].0.eq_spec(&handed(post)[n].0) by {
                    if n < mid.taken.len() {
                        assert(post.taken[n] == mid.taken[n]);
                        assert(handed(post)[n] == handed(mid)[n]);
                    }
                }
            } else {
                assert(handed(post) == handed(mid));
            }
        }
    }
}

/// Items reach the group of their key, in the order they were pulled, each
/// exactly once: the items handed to groups whose key is `==` to `k` are the
/// items pulled whose key is `==` to `k`, in order, but for the held one.
pub proof fn lemma_items_reach_their_groups_in_order<
    K: PartialEq + Clone,
    T,
    F: Fn(&T) -> K,
    W,
>(s: GroupsView<K, T, F, W>, k: K)
    requires
        keys_equivalence::<K>(),
        groups_inv(s),
    ensures
        items_eq(s.taken, k) == items_eq(handed(s), k),
        s.current is None ==> items_eq(s.taken, k) == items_eq(s.pulled, k),
{
    lemma_items_eq_pointwise(s.taken, handed(s), k);
}

/// Items are forwarded to the group of their key: every item a group yields,
/// whether it was held or just pulled, is one to which the key function gave
/// a key `==` to the group's.
pub proof fn lemma_group_gets_only_its_items<
    K: PartialEq + Clone,
    T,
    F: Fn(&T) -> K,
    W: Clone,
>(
    pre: GroupsView<K, T, F, W>,
    gk: K,
    waker: W,
    mid: GroupsView<K, T, F, W>,
    r1: Step<T, W>,
    ev: Polled<T>,
    waker2: W,
    post: GroupsView<K, T, F, W>,
    r2: (Polled<T>, Vec<W>),
)
    requires
        keys_equivalence::<K>(),
        groups_inv(pre),
        group_start_rel(pre, gk, waker, mid, r1),
        r1 is PollInner ==> group_finish_rel(mid, gk, ev, waker2, post, r2),
    ensures
        r1 matches Step::Done(Polled::Ready(Some(v)), _) ==> exists|k0: K|
            #[trigger] pre.key_fn.ensures((&v,), k0) && gk.eq_spec(&k0),
        r1 is PollInner ==> (r2.0 matches Polled::Ready(Some(v)) ==> exists|k0: K|
            #[trigger] pre.key_fn.ensures((&v,), k0) && gk.eq_spec(&k0)),
{
    if let Some((k, v)) = pre.current {
        if gk.eq_spec(&k) {
            let p0 = pre.pulled.last().0;
            assert(pre.key_fn.ensures((&pre.pulled[pre.pulled.len() - 1].1,), pre.pulled[pre.pulled.len() - 1].0));
            assert(gk.eq_spec(&p0));
            assert(pre.key_fn.ensures((&v,), p0));
            assert(exists|k0: K| #[trigger] pre.key_fn.ensures((&v,), k0) && gk.eq_spec(&k0));
            assert(r1 matches Step::Done(Polled::Ready(Some(v2)), _) && v2 == v);
        }
    }
    if r1 is PollInner {
        if let Polled::Ready(Some(v)) = ev {
            let key = choose|key: K|
                #[trigger] mid.key_fn.ensures((&v,), key) && group_deliver_rel(
                    mid,
                    gk,
                    v,
                    key,
                    waker2,
                    post,
                    r2,
                );
            assert(mid.key_fn.ensures((&v,), key));
        }
    }
}

/// One item at a time: the inner stream is polled only when no item is held,
/// and a group whose key is not `==` to the held item's waits, leaves its
/// waker in its own slot, and leaves the item held.
pub proof fn lemma_one_item_at_a_time<K: PartialEq + Clone, T, F, W: Clone>(
    pre: GroupsView<K, T, F, W>,
    gk: K,
    waker: W,
    post: GroupsView<K, T, F, W>,
    r: Step<T, W>,
)
    requires
        keys_equivalence::<K>(),
        keys_distinct(pre.keys),
        pre.keys.len() == pre.wakers.len(),
        group_start_rel(pre, gk, waker, post, r),
    ensures
        r is PollInner ==> pre.current is None,
        pre.current matches Some((k, _)) && !gk.eq_spec(&k) ==> {
            &&& r matches Step::Done(p, _) && p is Pending
            &&& post.current == pre.current
            &&& forall|i: int|
                0 <= i < pre.keys.len() && pre.keys[i].eq_spec(&gk) ==> post.wakers[i] == Some(
                    waker,
                )
        },
{
    lemma_first_index(pre.keys, rhs_eq(gk));
    if let Some((k, _)) = pre.current {
        if !gk.eq_spec(&k) {
            if let Some(i0) = first_index(pre.keys, rhs_eq(gk)) {
                assert(pre.keys[i0].eq_spec(&gk));
                assert forall|i: int|
                    0 <= i < pre.keys.len() && pre.keys[i].eq_spec(&gk) implies post.wakers[i]
                    == Some(waker) by {
                    if i != i0 {
                        assert(gk.eq_spec(&pre.keys[i0]));
                        assert(pre.keys[i].eq_spec(&pre.keys[i0]));
                        assert(pre.keys[i0].eq_spec(&pre.keys[i]));
                    }
                }
            } else {
                assert forall|i: int| 0 <= i < pre.keys.len() implies !pre.keys[i].eq_spec(&gk) by {
                    assert(!rhs_eq(gk)(pre.keys[i]));
                }
            }
        }
    }
}

/// A fresh shared state satisfies the invariant.
pub proof fn lemma_fresh_groups_inv<K: PartialEq, T, F: Fn(&T) -> K, W>(s: GroupsView<K, T, F, W>)
    requires
        s.current is None,
        s.keys.len() == 0,
        s.pulled.len() == 0,
        s.taken.len() == 0,
    ensures
        groups_inv(s),
{
}

/// With distinct keys, the group whose key is `==` to `k` is the first match
/// for `k`, whichever side of `==` `k` stands on.
proof fn lemma_match_is_first<K: PartialEq + Clone>(keys: Seq<K>, k: K, i: int)
    requires
        keys_equivalence::<K>(),
        keys_distinct(keys),
        0 <= i < keys.len(),
        keys[i].eq_spec(&k),
    ensures
        first_index(keys, rhs_eq(k)) == Some(i),
        first_index(keys, lhs_eq(k)) == Some(i),
{
    lemma_first_index(keys, rhs_eq(k));
    lemma_first_index(keys, lhs_eq(k));
    assert(rhs_eq(k)(keys[i]));
    assert(k.eq_spec(&keys[i]));
    assert(lhs_eq(k)(keys[i]));
    let i1 = first_index(keys, rhs_eq(k))->0;
    if i1 != i {
        assert(keys[i1].eq_spec(&k));
        assert(k.eq_spec(&keys[i]));
        assert(keys[i1].eq_spec(&keys[i]));
    }
    let i2 = first_index(keys, lhs_eq(k))->0;
    if i2 != i {
        assert(k.eq_spec(&keys[i2]));
        assert(keys[i2].eq_spec(&k));
        assert(keys[i2].eq_spec(&keys[i]));
    }
}

/// The grouping stream, told to wait, leaves its waker: whether it waits for a
/// held item's group, for the group of an item it pulled, or for the inner
/// stream.
pub proof fn lemma_group_by_wait_leaves_waker<
    K: PartialEq + Clone,
    T,
    F: Fn(&T) -> K,
    W: Clone,
>(
    pre: GroupsView<K, T, F, W>,
    waker: W,
    mid: GroupsView<K, T, F, W>,
    r1: Step<K, W>,
    ev: Polled<T>,
    waker2: W,
    post: GroupsView<K, T, F, W>,
    r2: (Polled<K>, Vec<W>),
)
    requires
        group_by_start_rel(pre, waker, mid, r1),
        r1 is PollInner ==> group_by_finish_rel(mid, ev, waker2, post, r2),
    ensures
        r1 matches Step::Done(p, _) && p is Pending ==> mid.group_by == Some(waker),
        r1 is PollInner ==> (r2.0 is Pending ==> post.group_by == Some(waker2)),
{
    if r1 is PollInner {
        if let Polled::Ready(Some(v)) = ev {
            let key = choose|key: K|
                #[trigger] mid.key_fn.ensures((&v,), key) && group_by_deliver_rel(
                    mid,
                    v,
                    key,
                    waker2,
                    post,
                    r2,
                );
        }
    }
}

/// A group, told to wait, leaves its waker in the slot of its key: whether it
/// waits for the held item's group, for the group of an item it pulled, or
/// for the inner stream.
pub proof fn lemma_group_wait_leaves_waker<
    K: PartialEq + Clone,
    T,
    F: Fn(&T) -> K,
    W: Clone,
>(
    pre: GroupsView<K, T, F, W>,
    gk: K,
    i: int,
    waker: W,
    mid: GroupsView<K, T, F, W>,
    r1: Step<T, W>,
    ev: Polled<T>,
    waker2: W,
    post: GroupsView<K, T, F, W>,
    r2: (Polled<T>, Vec<W>),
)
    requires
        keys_equivalence::<K>(),
        keys_distinct(pre.keys),
        pre.keys.len() == pre.wakers.len(),
        0 <= i < pre.keys.len(),
        pre.keys[i].eq_spec(&gk),
        group_start_rel(pre, gk, waker, mid, r1),
        r1 is PollInner ==> group_finish_rel(mid, gk, ev, waker2, post, r2),
    ensures
        r1 matches Step::Done(p, _) && p is Pending ==> mid.wakers[i] == Some(waker),
        r1 is PollInner ==> (r2.0 is Pending ==> post.wakers[i] == Some(waker2)),
{
    lemma_match_is_first(pre.keys, gk, i);
    if r1 is PollInner {
        if let Polled::Ready(Some(v)) = ev {
            let key = choose|key: K|
                #[trigger] mid.key_fn.ensures((&v,), key) && group_deliver_rel(
                    mid,
                    gk,
                    v,
                    key,
                    waker2,
                    post,
                    r2,
                );
        }
    }
}

/// A waiting group is woken by the grouping stream's poll that holds an item
/// for it: the group's waker is returned when the grouping stream finds the
/// held item is the group's, and a clone of it when the grouping stream pulls
/// an item of the group's key.
pub proof fn lemma_group_by_wakes_owner<
    K: PartialEq + Clone,
    T,
    F: Fn(&T) -> K,
    W: Clone,
>(
    pre: GroupsView<K, T, F, W>,
    i: int,
    w: W,
    waker: W,
    mid: GroupsView<K, T, F, W>,
    r1: Step<K, W>,
    ev: Polled<T>,
    waker2: W,
    post: GroupsView<K, T, F, W>,
    r2: (Polled<K>, Vec<W>),
)
    requires
        keys_equivalence::<K>(),
        keys_distinct(pre.keys),
        pre.keys.len() == pre.wakers.len(),
        0 <= i < pre.keys.len(),
        pre.wakers[i] == Some(w),
        group_by_start_rel(pre, waker, mid, r1),
        r1 is PollInner ==> group_by_finish_rel(mid, ev, waker2, post, r2),
    ensures
        pre.current matches Some((k, _)) && pre.keys[i].eq_spec(&k) ==> {
            &&& r1 matches Step::Done(_, ws) && ws@ == seq![w]
            &&& mid.wakers[i] is None
        },
        r1 is PollInner ==> (post.current matches Some((k, _)) && pre.keys[i].eq_spec(&k) ==> {
            &&& r2.1@.len() == 1
            &&& cloned(w, r2.1@[0])
        }),
{
    if let Some((k, v)) = pre.current {
        if pre.keys[i].eq_spec(&k) {
            lemma_match_is_first(pre.keys, k, i);
            assert(held(pre.wakers[i]) =~= seq![w]);
        }
    }
    if r1 is PollInner {
        assert(mid == pre);
        if let Polled::Ready(Some(v)) = ev {
            let key = choose|key: K|
                #[trigger] mid.key_fn.ensures((&v,), key) && group_by_deliver_rel(
                    mid,
                    v,
                    key,
                    waker2,
                    post,
                    r2,
                );
            if let Some((k, _)) = post.current {
                if mid.keys[i].eq_spec(&k) {
                    if first_index(mid.keys, rhs_eq(key)) is None {
                        assert(key.eq_spec(&k));
                        assert(k.eq_spec(&key));
                        assert(mid.keys[i].eq_spec(&key));
                        lemma_match_is_first(mid.keys, key, i);
                    } else {
                        assert(k == key);
                        lemma_match_is_first(mid.keys, key, i);
                    }
                }
            }
        }
    }
}

/// A waiting group is woken by another group's poll that holds an item for
/// it: a clone of its waker is returned, first, when a group meets the held
/// item or pulls an item of the waiting group's key.
pub proof fn lemma_group_wakes_owner<
    K: PartialEq + Clone,
    T,
    F: Fn(&T) -> K,
    W: Clone,
>(
    pre: GroupsView<K, T, F, W>,
    gk: K,
    i: int,
    w: W,
    waker: W,
    mid: GroupsView<K, T, F, W>,
    r1: Step<T, W>,
    ev: Polled<T>,
    waker2: W,
    post: GroupsView<K, T, F, W>,
    r2: (Polled<T>, Vec<W>),
)
    requires
        keys_equivalence::<K>(),
        keys_distinct(pre.keys),
        pre.keys.len() == pre.wakers.len(),
        0 <= i < pre.keys.len(),
        pre.wakers[i] == Some(w),
        !pre.keys[i].eq_spec(&gk),
        group_start_rel(pre, gk, waker, mid, r1),
        r1 is PollInner ==> group_finish_rel(mid, gk, ev, waker2, post, r2),
    ensures
        pre.current matches Some((k, _)) && pre.keys[i].eq_spec(&k) ==> {
            &&& r1 matches Step::Done(_, ws) && ws@.len() == 1 && cloned(w, ws@[0])
        },
        r1 is PollInner ==> (post.current matches Some((k, _)) && pre.keys[i].eq_spec(&k) ==> {
            &&& r2.1@.len() >= 1
            &&& cloned(w, r2.1@[0])
        }),
{
    lemma_first_index(pre.keys, rhs_eq(gk));
    if let Some(i0) = first_index(pre.keys, rhs_eq(gk)) {
        if i0 == i {
            assert(rhs_eq(gk)(pre.keys[i]));
        }
    }
    if let Some((k, v)) = pre.current {
        if pre.keys[i].eq_spec(&k) {
            lemma_match_is_first(pre.keys, k, i);
            if gk.eq_spec(&k) {
                assert(k.eq_spec(&gk));
                assert(pre.keys[i].eq_spec(&gk));
            }
        }
    }
    if r1 is PollInner {
        assert(mid == pre);
        if let Polled::Ready(Some(v)) = ev {
            let key = choose|key: K|
                #[trigger] mid.key_fn.ensures((&v,), key) && group_deliver_rel(
                    mid,
                    gk,
                    v,
                    key,
                    waker2,
                    post,
                    r2,
                );
            if let Some((k, _)) = post.current {
                if mid.keys[i].eq_spec(&k) {
                    lemma_match_is_first(mid.keys, key, i);
                    let mw = set_own(mid.keys, mid.wakers, gk, Some(waker2));
                    assert(mw[i] == mid.wakers[i]);
                    assert(slot_of(mid.keys, mw, key) == Some(w));
                }
            }
        }
    }
}

/// The end of the inner stream, met by the grouping stream, wakes every
/// waiting group and empties its slot.
pub proof fn lemma_end_wakes_every_group<K, T, F, W>(
    pre: GroupsView<K, T, F, W>,
    i: int,
    w: W,
    post: GroupsView<K, T, F, W>,
    r: (Polled<K>, Vec<W>),
)
    requires
        0 <= i < pre.wakers.len(),
        pre.wakers[i] == Some(w),
        group_by_end_rel(pre, post, r),
    ensures
        r.1@.contains(w),
        post.wakers[i] is None,
{
    lemma_registered_contains(pre.wakers, i);
}

/// The waiting grouping stream is woken by a group's poll that lets it go on:
/// when a group pulls an item of another key (which may need a new group), and
/// when a group meets the end of the inner stream.
pub proof fn lemma_group_wakes_group_by<K: PartialEq, T, F, W: Clone>(
    pre: GroupsView<K, T, F, W>,
    w: W,
    gk: K,
    v: T,
    key: K,
    waker: W,
    post: GroupsView<K, T, F, W>,
    r: (Polled<T>, Vec<W>),
    post2: GroupsView<K, T, F, W>,
    r2: (Polled<T>, Vec<W>),
)
    requires
        pre.group_by == Some(w),
    ensures
        group_deliver_rel(pre, gk, v, key, waker, post, r) && !gk.eq_spec(&key) ==> {
            &&& r.1@.len() >= 1
            &&& r.1@.last() == w
            &&& post.group_by is None
        },
        group_end_rel(pre, gk, post2, r2) ==> r2.1@ == seq![w] && post2.group_by is None,
{
    if group_deliver_rel(pre, gk, v, key, waker, post, r) && !gk.eq_spec(&key) {
        let mid = set_own(pre.keys, pre.wakers, gk, Some(waker));
        let out = r.1@;
        if slot_of(pre.keys, mid, key) is Some {
            assert(out.drop_first() == held(pre.group_by));
            assert(out.last() == out.drop_first().last());
        }
    }
    assert(held(pre.group_by) =~= seq![w]);
}

/// A group polled while an item of its key is held is handed that item, and
/// the item is no longer held.
pub proof fn lemma_group_takes_held_item_of_its_key<K: PartialEq, T, F, W: Clone>(
    pre: GroupsView<K, T, F, W>,
    gk: K,
    k: K,
    v: T,
    w: W,
    post: GroupsView<K, T, F, W>,
    r: Step<T, W>,
)
    requires
        pre.current == Some((k, v)),
        gk.eq_spec(&k),
        group_start_rel(pre, gk, w, post, r),
    ensures
        r matches Step::Done(p, ws) && p == Polled::Ready(Some(v)) && ws@.len() == 0,
        post.current is None,
{
}

/// A group that pulls an item of its own key is handed it; an item of another
/// key is held, and the group waits. Either way the item is not lost.
pub proof fn lemma_group_deliver_yields_or_holds<K: PartialEq, T, F, W: Clone>(
    pre: GroupsView<K, T, F, W>,
    gk: K,
    v: T,
    key: K,
    w: W,
    post: GroupsView<K, T, F, W>,
    r: (Polled<T>, Vec<W>),
)
    requires
        pre.current is None,
        group_deliver_rel(pre, gk, v, key, w, post, r),
    ensures
        gk.eq_spec(&key) ==> r.0 == Polled::Ready(Some(v)) && post.current is None,
        !gk.eq_spec(&key) ==> r.0 is Pending && post.current == Some((key, v)),
{
}

/// The same, through the key function: a group that pulls an item to which
/// the key function can only give keys `==` to the group's is handed it; an
/// item to which it can only give other keys is held.
pub proof fn lemma_group_finish_yields_or_holds<K: PartialEq, T, F: Fn(&T) -> K, W: Clone>(
    pre: GroupsView<K, T, F, W>,
    gk: K,
    v: T,
    w: W,
    post: GroupsView<K, T, F, W>,
    r: (Polled<T>, Vec<W>),
)
    requires
        pre.current is None,
        group_finish_rel(pre, gk, Polled::Ready(Some(v)), w, post, r),
    ensures
        (forall|key: K| #[trigger] pre.key_fn.ensures((&v,), key) ==> gk.eq_spec(&key)) ==> r.0
            == Polled::Ready(Some(v)) && post.current is None,
        (forall|key: K| #[trigger] pre.key_fn.ensures((&v,), key) ==> !gk.eq_spec(&key)) ==> (
        r.0 is Pending && (post.current matches Some((_, v2)) && v2 == v)),
{
    let key = choose|key: K|
        #[trigger] pre.key_fn.ensures((&v,), key) && group_deliver_rel(pre, gk, v, key, w, post, r);
    assert(pre.key_fn.ensures((&v,), key));
}

/// A group's poll never drops the held item: it is either handed to that
/// group, whose key is `==` to the item's, or it stays held.
pub proof fn lemma_group_start_keeps_or_yields<K: PartialEq, T, F, W: Clone>(
    pre: GroupsView<K, T, F, W>,
    gk: K,
    k: K,
    v: T,
    w: W,
    post: GroupsView<K, T, F, W>,
    r: Step<T, W>,
)
    requires
        pre.current == Some((k, v)),
        group_start_rel(pre, gk, w, post, r),
    ensures
        post.current == pre.current || (gk.eq_spec(&k) && post.current is None && (
        r matches Step::Done(Polled::Ready(Some(v2)), _) && v2 == v)),
        !gk.eq_spec(&k) ==> post.current == pre.current && (r matches Step::Done(p, _) && p is Pending),
{
}

/// The grouping stream hands out a group for a held item whose key is `==` to
/// no group's key: it answers with that key, adds one group (of a clone of
/// the key), and keeps the item held for it.
pub proof fn lemma_group_by_start_new_key<K: PartialEq + Clone, T, F, W>(
    pre: GroupsView<K, T, F, W>,
    k: K,
    v: T,
    w: W,
    post: GroupsView<K, T, F, W>,
    r: Step<K, W>,
)
    requires
        pre.current == Some((k, v)),
        forall|i: int| 0 <= i < pre.keys.len() ==> !k.eq_spec(&pre.keys[i]),
        group_by_start_rel(pre, w, post, r),
    ensures
        r matches Step::Done(p, ws) && p == Polled::Ready(Some(k)) && ws@.len() == 0,
        post.keys.len() == pre.keys.len() + 1,
        post.keys.drop_last() == pre.keys,
        cloned(k, post.keys.last()),
        post.current matches Some((_, v2)) && v2 == v,
{
    lemma_first_index(pre.keys, lhs_eq(k));
    if let Some(i) = first_index(pre.keys, lhs_eq(k)) {
        assert(lhs_eq(k)(pre.keys[i]));
    }
}

/// The grouping stream never drops the held item: whatever it answers, the
/// item stays held, and it waits only when a group's key is `==` to the
/// item's.
pub proof fn lemma_group_by_start_keeps_item<K: PartialEq + Clone, T, F, W>(
    pre: GroupsView<K, T, F, W>,
    k: K,
    v: T,
    w: W,
    post: GroupsView<K, T, F, W>,
    r: Step<K, W>,
)
    requires
        pre.current == Some((k, v)),
        group_by_start_rel(pre, w, post, r),
    ensures
        post.current matches Some((_, v2)) && v2 == v,
        (r matches Step::Done(p, _) && p is Pending) ==> post.current == pre.current && exists|i: int|
            0 <= i < pre.keys.len() && k.eq_spec(#[trigger] &pre.keys[i]),
        !(r is PollInner),
{
    lemma_first_index(pre.keys, lhs_eq(k));
    if let Some(i) = first_index(pre.keys, lhs_eq(k)) {
        assert(k.eq_spec(&pre.keys[i]));
    }
}

/// The grouping stream, handing on an item it pulled, answers with a new group
/// of the item's key when no group's key is `==` to it, and otherwise waits;
/// either way the item is held.
pub proof fn lemma_group_by_deliver_new_or_held<K: PartialEq + Clone, T, F, W: Clone>(
    pre: GroupsView<K, T, F, W>,
    v: T,
    key: K,
    w: W,
    post: GroupsView<K, T, F, W>,
    r: (Polled<K>, Vec<W>),
)
    requires
        group_by_deliver_rel(pre, v, key, w, post, r),
    ensures
        post.current matches Some((_, v2)) && v2 == v,
        (forall|i: int| 0 <= i < pre.keys.len() ==> !pre.keys[i].eq_spec(&key)) ==> {
            &&& r.0 == Polled::Ready(Some(key))
            &&& post.keys.len() == pre.keys.len() + 1
            &&& post.keys.drop_last() == pre.keys
            &&& cloned(key, post.keys.last())
        },
        (exists|i: int| 0 <= i < pre.keys.len() && (#[trigger] pre.keys[i]).eq_spec(&key)) ==> {
            &&& r.0 is Pending
            &&& post.keys == pre.keys
            &&& post.current == Some((key, v))
        },
{
    lemma_first_index(pre.keys, rhs_eq(key));
    if let Some(i) = first_index(pre.keys, rhs_eq(key)) {
        assert(pre.keys[i].eq_spec(&key));
    } else {
        if exists|i: int| 0 <= i < pre.keys.len() && (#[trigger] pre.keys[i]).eq_spec(&key) {
            let i = choose|i: int| 0 <= i < pre.keys.len() && (#[trigger] pre.keys[i]).eq_spec(&key);
            assert(!rhs_eq(key)(pre.keys[i]));
        }
    }
}

/// A group handed out by the grouping stream for a held item is handed that
/// item on its first poll.
pub proof fn lemma_new_group_gets_its_item<K: PartialEq + Clone, T, F, W: Clone>(
    pre: GroupsView<K, T, F, W>,
    w1: W,
    mid: GroupsView<K, T, F, W>,
    r1: Step<K, W>,
    gk: K,
    w2: W,
    post: GroupsView<K, T, F, W>,
    r2: Step<T, W>,
)
    requires
        keys_equivalence::<K>(),
        group_by_start_rel(pre, w1, mid, r1),
        r1 matches Step::Done(Polled::Ready(Some(k)), _) && gk == k,
        group_start_rel(mid, gk, w2, post, r2),
    ensures
        pre.current matches Some((_, v)) && (r2 matches Step::Done(p, ws) && p == Polled::Ready(
            Some(v),
        ) && ws@.len() == 0),
        post.current is None,
{
    if let Some((k, v)) = pre.current {
        if let Some((k2, _)) = mid.current {
            assert(k.eq_spec(&k2));
        }
    }
}

/// The same for a group handed out for an item the grouping stream pulled.
pub proof fn lemma_new_group_gets_pulled_item<K: PartialEq + Clone, T, F, W: Clone>(
    pre: GroupsView<K, T, F, W>,
    v: T,
    key: K,
    w1: W,
    mid: GroupsView<K, T, F, W>,
    r1: (Polled<K>, Vec<W>),
    gk: K,
    w2: W,
    post: GroupsView<K, T, F, W>,
    r2: Step<T, W>,
)
    requires
        keys_equivalence::<K>(),
        group_by_deliver_rel(pre, v, key, w1, mid, r1),
        r1.0 matches Polled::Ready(Some(k)) && gk == k,
        group_start_rel(mid, gk, w2, post, r2),
    ensures
        r2 matches Step::Done(p, ws) && p == Polled::Ready(Some(v)) && ws@.len() == 0,
        post.current is None,
{
    if let Some((k2, _)) = mid.current {
        assert(key.eq_spec(&k2));
    }
}

/// With no item held, every poll (of the grouping stream or of a group) asks
/// for the inner stream and changes nothing.
pub proof fn lemma_nothing_held_polls_inner<K: PartialEq + Clone, T, F, W: Clone>(
    pre: GroupsView<K, T, F, W>,
    gk: K,
    w: W,
    post1: GroupsView<K, T, F, W>,
    r1: Step<K, W>,
    post2: GroupsView<K, T, F, W>,
    r2: Step<T, W>,
)
    requires
        pre.current is None,
    ensures
        group_by_start_rel(pre, w, post1, r1) ==> r1 is PollInner && post1 == pre,
        group_start_rel(pre, gk, w, post2, r2) ==> r2 is PollInner && post2 == pre,
{
}

/// The inner stream's end and its "not yet" are passed on: the end ends the
/// grouping stream (and wakes every group) and ends a group; "not yet" makes
/// the poller wait. Neither touches the held item or the groups' keys.
pub proof fn lemma_finish_passes_on_end_and_wait<K: PartialEq + Clone, T, F: Fn(&T) -> K, W: Clone>(
    pre: GroupsView<K, T, F, W>,
    gk: K,
    ev: Polled<T>,
    w: W,
    post1: GroupsView<K, T, F, W>,
    r1: (Polled<K>, Vec<W>),
    post2: GroupsView<K, T, F, W>,
    r2: (Polled<T>, Vec<W>),
)
    requires
        ev is Pending || ev == Polled::<T>::Ready(None),
    ensures
        group_by_finish_rel(pre, ev, w, post1, r1) ==> {
            &&& (ev is Pending ==> r1.0 is Pending && post1.group_by == Some(w))
            &&& (ev == Polled::<T>::Ready(None) ==> r1.0 == Polled::<K>::Ready(None)
                && r1.1@ == registered(pre.wakers) && post1.group_by is None)
            &&& post1.current == pre.current
            &&& post1.keys == pre.keys
        },
        group_finish_rel(pre, gk, ev, w, post2, r2) ==> {
            &&& (ev is Pending ==> r2.0 is Pending)
            &&& (ev == Polled::<T>::Ready(None) ==> r2.0 == Polled::<T>::Ready(None)
                && r2.1@ == held(pre.group_by))
            &&& post2.current == pre.current
            &&& post2.keys == pre.keys
        },
{
}

} // verus!
