//! What the shared states answer to a task that polls them, and the waker
//! slots they keep.
use vstd::prelude::*;

verus! {

/// What a stream answers to one poll: an item, its end, or "not yet".
pub enum Polled<T> {
    Ready(Option<T>),
    Pending,
}

/// What a shared state decides when one of its streams is polled.
pub enum Step<T, W> {
    /// The poll is answered; the wakers in the vector are to be woken.
    Done(Polled<T>, Vec<W>),
    /// The answer depends on the inner stream: poll it and hand its answer back.
    PollInner,
}

/// The wakers held by a sequence of slots, in slot order.
pub open spec fn registered<W>(slots: Seq<Option<W>>) -> Seq<W>
    decreases slots.len(),
{
    if slots.len() == 0 {
        Seq::empty()
    } else {
        let rest = registered(slots.drop_last());
        match slots.last() {
            Some(w) => rest.push(w),
            None => rest,
        }
    }
}

/// The waker a single slot holds, as a sequence of zero or one.
pub open spec fn held<W>(slot: Option<W>) -> Seq<W> {
    match slot {
        Some(w) => seq![w],
        None => Seq::empty(),
    }
}

/// `out` is a clone of the waker in `slot`, if there is one, followed by `rest`.
pub open spec fn clone_then<W: Clone>(slot: Option<W>, rest: Seq<W>, out: Seq<W>) -> bool {
    match slot {
        Some(w) => out.len() == rest.len() + 1 && cloned(w, out[0]) && out.drop_first() == rest,
        None => out == rest,
    }
}

/// Every slot is empty.
pub open spec fn all_empty<W>(slots: Seq<Option<W>>) -> bool {
    forall|j: int| 0 <= j < slots.len() ==> (#[trigger] slots[j]) is None
}

/// Every waker a slot holds is among the registered wakers.
pub proof fn lemma_registered_contains<W>(slots: Seq<Option<W>>, j: int)
    requires
        0 <= j < slots.len(),
        slots[j] is Some,
    ensures
        registered(slots).contains(slots[j]->0),
    decreases slots.len(),
{
    let rest = slots.drop_last();
    if j == slots.len() - 1 {
        assert(registered(slots).last() == slots[j]->0);
    } else {
        assert(rest[j] == slots[j]);
        lemma_registered_contains(rest, j);
        let k = registered(rest).index_of(slots[j]->0);
        if slots.last() is Some {
            assert(registered(slots)[k] == registered(rest)[k]);
        }
    }
}

/// Takes what slot `i` holds and leaves it empty.
pub fn take_slot<W>(slots: &mut Vec<Option<W>>, i: usize) -> (r: Option<W>)
    requires
        i < old(slots)@.len(),
    ensures
        r == old(slots)@[i as int],
        final(slots)@ == old(slots)@.update(i as int, None),
{
    let mut tmp: Option<W> = None;
    slots.set_and_swap(i, &mut tmp);
    tmp
}

/// The waker a slot held, as a vector of zero or one.
pub fn into_vec<W>(slot: Option<W>) -> (r: Vec<W>)
    ensures
        r@ == held(slot),
{
    let mut out: Vec<W> = Vec::new();
    if let Some(w) = slot {
        out.push(w);
    }
    proof {
        assert(out@ =~= held(slot));
    }
    out
}

/// A clone of the waker in slot `i`, which stays where it is.
pub fn clone_slot<W: Clone>(slots: &Vec<Option<W>>, i: usize) -> (r: Vec<W>)
    requires
        i < slots@.len(),
    ensures
        clone_then(slots@[i as int], Seq::empty(), r@),
{
    let mut out: Vec<W> = Vec::new();
    match &slots[i] {
        Some(w) => {
            out.push(w.clone());
            assert(out@.drop_first() =~= Seq::<W>::empty());
        },
        None => {
            assert(out@ =~= Seq::<W>::empty());
        },
    }
    out
}

/// Empties every slot and returns the wakers they held, in slot order.
pub fn take_all<W>(slots: &mut Vec<Option<W>>) -> (r: Vec<W>)
    ensures
        r@ == registered(old(slots)@),
        final(slots)@.len() == old(slots)@.len(),
        all_empty(final(slots)@),
{
    let ghost orig = slots@;
    let mut out: Vec<W> = Vec::new();
    let mut i: usize = 0;
    while i < slots.len()
        invariant
            slots@.len() == orig.len(),
            i <= orig.len(),
            out@ == registered(orig.take(i as int)),
            forall|j: int| 0 <= j < i ==> (#[trigger] slots@[j]) is None,
            forall|j: int| i <= j < orig.len() ==> (#[trigger] slots@[j]) == orig[j],
        decreases orig.len() - i,
    {
        let w = take_slot(slots, i);
        proof {
            assert(orig.take(i + 1).drop_last() =~= orig.take(i as int));
        }
        match w {
            Some(w) => {
                out.push(w);
            },
            None => {},
        }
        i = i + 1;
    }
    proof {
        assert(orig.take(orig.len() as int) =~= orig);
    }
    out
}

} // verus!
