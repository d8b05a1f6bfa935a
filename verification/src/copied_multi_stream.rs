//! The state that the copies of one stream share.
//!
//! Each copy has a position. The inner stream is polled for one item, which is
//! cloned into a cache slot of every position; the next item is pulled only
//! when every position has taken its copy. A position that has taken its copy
//! while others have not is told to wait, and its waker is kept until the last
//! copy is taken or the inner stream ends.
use vstd::prelude::*;
use crate::poll::{all_empty, lemma_registered_contains, registered, take_all, take_slot, Polled, Step};

verus! {

/// The shared state of the copies of a stream `S` of items `T`; `W` is the
/// waker type of the tasks that poll them.
pub struct CopiedMultiStreamState<S, T, W> {
    cache: Vec<Option<T>>,
    wakers: Vec<Option<W>>,
    stream: Option<S>,
    /// Every item the inner stream has yielded, in order.
    pulled: Ghost<Seq<T>>,
    /// The items each position has been handed, in order.
    delivered: Ghost<Seq<Seq<T>>>,
}

/// What the shared state holds, seen as values.
pub struct CopiedView<T, W> {
    /// The copy each position has not taken yet.
    pub cache: Seq<Option<T>>,
    /// The waker each position left when it was told to wait.
    pub wakers: Seq<Option<W>>,
    /// The inner stream has not ended.
    pub live: bool,
    /// Every item the inner stream has yielded, in order.
    pub pulled: Seq<T>,
    /// The items each position has been handed, in order.
    pub delivered: Seq<Seq<T>>,
}

impl<T, W> CopiedView<T, W> {
    /// The number of positions.
    pub open spec fn positions(self) -> nat {
        self.cache.len()
    }

    /// Some position has not taken its copy of the current item.
    pub open spec fn any_cached(self) -> bool {
        exists|j: int| 0 <= j < self.cache.len() && (#[trigger] self.cache[j]) is Some
    }

    /// Every waker slot is empty.
    pub open spec fn no_waiters(self) -> bool {
        all_empty(self.wakers)
    }
}

impl<T: Clone, W> CopiedView<T, W> {
    /// One waker slot and one history per position; every copy still in the
    /// cache is a clone of the last item the inner stream yielded; and each
    /// position has been handed, in order, a clone of every item the inner
    /// stream yielded, but for the last one while its copy is still cached.
    pub open spec fn wf(self) -> bool {
        &&& self.cache.len() == self.wakers.len()
        &&& self.delivered.len() == self.cache.len()
        &&& forall|j: int|
            0 <= j < self.cache.len() ==> if (#[trigger] self.cache[j]) is Some {
                &&& self.pulled.len() > 0
                &&& cloned(self.pulled.last(), self.cache[j]->0)
                &&& self.delivered[j].len() == self.pulled.len() - 1
            } else {
                self.delivered[j].len() == self.pulled.len()
            }
        &&& forall|j: int, n: int|
            0 <= j < self.delivered.len() && 0 <= n < self.delivered[j].len() ==> cloned(
                self.pulled[n],
                #[trigger] self.delivered[j][n],
            )
    }
}

/// What a poll by position `pos` decides before the inner stream is asked:
/// the position's own copy if it has one; else, while another position has
/// not taken its copy, wait; else poll the inner stream if it has not ended;
/// else the end.
pub open spec fn start_rel<T, W>(
    pre: CopiedView<T, W>,
    pos: int,
    waker: W,
    post: CopiedView<T, W>,
    r: Step<T, W>,
) -> bool {
    if pre.cache[pos] is Some {
        &&& r matches Step::Done(p, ws) && p == Polled::Ready(Some(pre.cache[pos]->0))
            && ws@.len() == 0
        &&& post.cache == pre.cache.update(pos, None)
        &&& post.wakers == pre.wakers
        &&& post.live == pre.live
        &&& post.pulled == pre.pulled
        &&& post.delivered == pre.delivered.update(pos, pre.delivered[pos].push(pre.cache[pos]->0))
    } else if pre.any_cached() {
        &&& r matches Step::Done(p, ws) && p is Pending && ws@.len() == 0
        &&& post.cache == pre.cache
        &&& post.wakers == pre.wakers.update(pos, Some(waker))
        &&& post.live == pre.live
        &&& post.pulled == pre.pulled
        &&& post.delivered == pre.delivered
    } else if pre.live {
        &&& r is PollInner
        &&& post == pre
    } else {
        &&& r matches Step::Done(p, ws) && p == Polled::<T>::Ready(None) && ws@.len() == 0
        &&& post == pre
    }
}

/// What follows when position `pos` has polled the inner stream and got `ev`:
/// an item is cloned into every position's slot, `pos` takes its copy at once,
/// and every waiting task is woken; the end of the inner stream is final, and
/// wakes every waiting task; "not yet" leaves the waker of `pos`.
pub open spec fn finish_rel<T: Clone, W>(
    pre: CopiedView<T, W>,
    pos: int,
    ev: Polled<T>,
    waker: W,
    post: CopiedView<T, W>,
    r: (Polled<T>, Vec<W>),
) -> bool {
    match ev {
        Polled::Ready(Some(v)) => {
            &&& r.0 matches Polled::Ready(Some(c)) && cloned(v, c)
            &&& r.1@ == registered(pre.wakers)
            &&& post.cache.len() == pre.cache.len()
            &&& post.cache[pos] is None
            &&& forall|j: int|
                0 <= j < post.cache.len() && j != pos ==> {
                    &&& (#[trigger] post.cache[j]) is Some
                    &&& cloned(v, post.cache[j]->0)
                }
            &&& post.wakers.len() == pre.wakers.len()
            &&& post.no_waiters()
            &&& post.live == pre.live
            &&& post.pulled == pre.pulled.push(v)
            &&& r.0 matches Polled::Ready(Some(c)) && post.delivered == pre.delivered.update(
                pos,
                pre.delivered[pos].push(c),
            )
        },
        Polled::Ready(None) => {
            &&& r.0 == Polled::<T>::Ready(None)
            &&& r.1@ == registered(pre.wakers)
            &&& post.cache == pre.cache
            &&& post.wakers.len() == pre.wakers.len()
            &&& post.no_waiters()
            &&& !post.live
            &&& post.pulled == pre.pulled
            &&& post.delivered == pre.delivered
        },
        Polled::Pending => {
            &&& r.0 is Pending
            &&& r.1@.len() == 0
            &&& post.cache == pre.cache
            &&& post.wakers == pre.wakers.update(pos, Some(waker))
            &&& post.live == pre.live
            &&& post.pulled == pre.pulled
            &&& post.delivered == pre.delivered
        },
    }
}

impl<S, T, W> View for CopiedMultiStreamState<S, T, W> {
    type V = CopiedView<T, W>;

    closed spec fn view(&self) -> CopiedView<T, W> {
        CopiedView {
            cache: self.cache@,
            wakers: self.wakers@,
            live: self.stream is Some,
            pulled: self.pulled@,
            delivered: self.delivered@,
        }
    }
}

impl<S, T, W> CopiedMultiStreamState<S, T, W> {
    /// The shared state of `i` copies of `stream`: no copy cached, no task
    /// waiting, the inner stream not ended.
    pub fn new(stream: S, i: usize) -> (r: Self)
        ensures
            r@.cache == Seq::new(i as nat, |j: int| None::<T>),
            r@.wakers == Seq::new(i as nat, |j: int| None::<W>),
            r@.live,
            r.inner() == Some(stream),
            r@.pulled.len() == 0,
            r@.delivered == Seq::new(i as nat, |j: int| Seq::<T>::empty()),
    {
        let mut cache: Vec<Option<T>> = Vec::new();
        let mut wakers: Vec<Option<W>> = Vec::new();
        let mut j: usize = 0;
        while j < i
            invariant
                j <= i,
                cache@ == Seq::new(j as nat, |k: int| None::<T>),
                wakers@ == Seq::new(j as nat, |k: int| None::<W>),
            decreases i - j,
        {
            cache.push(None);
            wakers.push(None);
            j = j + 1;
            proof {
                assert(cache@ =~= Seq::new(j as nat, |k: int| None::<T>));
                assert(wakers@ =~= Seq::new(j as nat, |k: int| None::<W>));
            }
        }
        CopiedMultiStreamState {
            cache,
            wakers,
            stream: Some(stream),
            pulled: Ghost(Seq::empty()),
            delivered: Ghost(Seq::new(i as nat, |j: int| Seq::<T>::empty())),
        }
    }

    /// The number of positions.
    pub fn positions(&self) -> (r: usize)
        ensures
            r == self@.positions(),
    {
        self.cache.len()
    }

    /// The inner stream has not ended.
    pub fn is_live(&self) -> (r: bool)
        ensures
            r == self@.live,
    {
        self.stream.is_some()
    }

    /// Some position has not taken its copy of the current item.
    pub fn copies_outstanding(&self) -> (r: bool)
        ensures
            r == self@.any_cached(),
    {
        let mut j: usize = 0;
        while j < self.cache.len()
            invariant
                j <= self.cache@.len(),
                forall|k: int| 0 <= k < j ==> (#[trigger] self.cache@[k]) is None,
            decreases self.cache@.len() - j,
        {
            if self.cache[j].is_some() {
                return true;
            }
            j = j + 1;
        }
        false
    }

    /// The inner stream, while it has not ended.
    pub closed spec fn inner(&self) -> Option<S> {
        self.stream
    }

    /// The inner stream, to be polled.
    pub fn stream_mut(&mut self) -> (s: &mut S)
        requires
            old(self)@.live,
        ensures
            old(self).inner() == Some(*s),
            final(self).inner() == Some(*final(s)),
            final(self)@ == old(self)@,
    {
        self.stream.as_mut().unwrap()
    }

}

impl<S, T: Clone, W> CopiedMultiStreamState<S, T, W> {
    /// What a poll by position `pos` decides before the inner stream is
    /// asked; `waker` is kept when the position is told to wait.
    pub fn poll_start(&mut self, pos: usize, waker: W) -> (r: Step<T, W>)
        requires
            old(self)@.wf(),
            pos < old(self)@.positions(),
        ensures
            final(self).inner() == old(self).inner(),
            final(self)@.wf(),
            start_rel(old(self)@, pos as int, waker, final(self)@, r),
    {
        let own = take_slot(&mut self.cache, pos);
        if let Some(v) = own {
            self.delivered = Ghost(self.delivered@.update(pos as int, self.delivered@[pos as int].push(v)));
            return Step::Done(Polled::Ready(Some(v)), Vec::new());
        }
        proof {
            assert(self.cache@ =~= old(self).cache@);
        }
        if self.copies_outstanding() {
            self.wakers.set(pos, Some(waker));
            Step::Done(Polled::Pending, Vec::new())
        } else if self.stream.is_some() {
            Step::PollInner
        } else {
            Step::Done(Polled::Ready(None), Vec::new())
        }
    }

    /// What follows when position `pos` has polled the inner stream and got
    /// `ev`; the wakers returned are to be woken.
    pub fn poll_finish(&mut self, pos: usize, ev: Polled<T>, waker: W) -> (r: (Polled<T>, Vec<W>))
        requires
            old(self)@.wf(),
            pos < old(self)@.positions(),
            old(self)@.live,
            !old(self)@.any_cached(),
        ensures
            final(self).inner() == if ev matches Polled::Ready(None) {
                None
            } else {
                old(self).inner()
            },
            final(self)@.wf(),
            finish_rel(old(self)@, pos as int, ev, waker, final(self)@, r),
    {
        match ev {
            Polled::Ready(Some(v)) => {
                let ghost pre_cache = self.cache@;
                let mut j: usize = 0;
                while j < self.cache.len()
                    invariant
                        self.cache@.len() == pre_cache.len(),
                        pre_cache == old(self)@.cache,
                        self.wakers@ == old(self)@.wakers,
                        self.stream == old(self).stream,
                        self.pulled == old(self).pulled,
                        self.delivered == old(self).delivered,
                        pos < pre_cache.len(),
                        j <= pre_cache.len(),
                        forall|k: int|
                            0 <= k < j ==> {
                                &&& (#[trigger] self.cache@[k]) is Some
                                &&& cloned(v, self.cache@[k]->0)
                            },
                    decreases pre_cache.len() - j,
                {
                    self.cache.set(j, Some(v.clone()));
                    j = j + 1;
                }
                self.pulled = Ghost(self.pulled@.push(v));
                let wake = take_all(&mut self.wakers);
                let own = take_slot(&mut self.cache, pos);
                self.delivered = Ghost(self.delivered@.update(pos as int, self.delivered@[pos as int].push(own->0)));
                proof {
                    let pre = old(self)@;
                    let post = self@;
                    assert forall|j: int| 0 <= j < pre.cache.len() implies (#[trigger] pre.delivered[j]).len()
                        == pre.pulled.len() by {
                        assert(pre.cache[j] is None);
                    }
                    assert forall|j: int, n: int|
                        0 <= j < post.delivered.len() && 0 <= n < post.delivered[j].len() implies cloned(
                        post.pulled[n],
                        #[trigger] post.delivered[j][n],
                    ) by {
                        if n < pre.pulled.len() {
                            assert(post.pulled[n] == pre.pulled[n]);
                            if j != pos {
                                assert(post.delivered[j] == pre.delivered[j]);
                            } else {
                                assert(post.delivered[j][n] == pre.delivered[j][n]);
                            }
                        }
                    }
                }
                (Polled::Ready(own), wake)
            },
            Polled::Ready(None) => {
                self.stream = None;
                let wake = take_all(&mut self.wakers);
                (Polled::Ready(None), wake)
            },
            Polled::Pending => {
                self.wakers.set(pos, Some(waker));
                (Polled::Pending, Vec::new())
            },
        }
    }
}

/// A fresh shared state (no copy cached, nothing pulled, nothing handed
/// out, one waker slot per position) is well formed.
pub proof fn lemma_fresh_state_is_wf<T: Clone, W>(s: CopiedView<T, W>)
    requires
        s.cache == Seq::new(s.cache.len(), |j: int| None::<T>),
        s.wakers.len() == s.cache.len(),
        s.pulled.len() == 0,
        s.delivered == Seq::new(s.cache.len(), |j: int| Seq::<T>::empty()),
    ensures
        s.wf(),
{
}

/// An item the inner stream yields reaches every position: after position
/// `pos` has pulled `v`, the next poll of any other position `j` answers with
/// a clone of `v`.
pub proof fn lemma_item_reaches_every_position<T: Clone, W>(
    pre: CopiedView<T, W>,
    pos: int,
    v: T,
    w1: W,
    mid: CopiedView<T, W>,
    r1: (Polled<T>, Vec<W>),
    j: int,
    w2: W,
    post: CopiedView<T, W>,
    r2: Step<T, W>,
)
    requires
        pre.wf(),
        0 <= pos < pre.positions(),
        0 <= j < pre.positions(),
        j != pos,
        finish_rel(pre, pos, Polled::Ready(Some(v)), w1, mid, r1),
        start_rel(mid, j, w2, post, r2),
    ensures
        r2 matches Step::Done(Polled::Ready(Some(c)), _) && cloned(v, c),
{
}

/// Every item a position is handed from the cache is a clone of the last item
/// the inner stream yielded.
pub proof fn lemma_cached_item_is_copy_of_last_pulled<T: Clone, W>(
    pre: CopiedView<T, W>,
    pos: int,
    w: W,
    post: CopiedView<T, W>,
    r: Step<T, W>,
)
    requires
        pre.wf(),
        0 <= pos < pre.positions(),
        start_rel(pre, pos, w, post, r),
        r matches Step::Done(Polled::Ready(Some(_)), _),
    ensures
        pre.pulled.len() > 0,
        r matches Step::Done(Polled::Ready(Some(c)), _) && cloned(pre.pulled.last(), c),
        post.pulled == pre.pulled,
{
}

/// The inner stream is polled only when every position has taken its copy of
/// the previous item, and only while it has not ended.
pub proof fn lemma_inner_polled_only_when_all_copies_taken<T, W>(
    pre: CopiedView<T, W>,
    pos: int,
    w: W,
    post: CopiedView<T, W>,
    r: Step<T, W>,
)
    requires
        0 <= pos < pre.positions(),
        start_rel(pre, pos, w, post, r),
        r is PollInner,
    ensures
        !pre.any_cached(),
        pre.live,
        post == pre,
{
}

/// A position gets one copy of each item: once it has taken its copy, it is
/// told to wait, and its waker is kept, for as long as another position has
/// not taken its own.
pub proof fn lemma_one_copy_per_item<T: Clone, W>(
    pre: CopiedView<T, W>,
    pos: int,
    w: W,
    post: CopiedView<T, W>,
    r: Step<T, W>,
)
    requires
        pre.wf(),
        0 <= pos < pre.positions(),
        pre.cache[pos] is None,
        pre.any_cached(),
        start_rel(pre, pos, w, post, r),
    ensures
        r matches Step::Done(p, _) && p is Pending,
        post.cache == pre.cache,
        post.wakers[pos] == Some(w),
{
}

/// The end of the inner stream is final: once it has ended and every copy has
/// been taken, every poll of every position answers with the end and changes
/// nothing.
pub proof fn lemma_end_is_final<T, W>(
    pre: CopiedView<T, W>,
    pos: int,
    w: W,
    post: CopiedView<T, W>,
    r: Step<T, W>,
)
    requires
        0 <= pos < pre.positions(),
        !pre.live,
        !pre.any_cached(),
        start_rel(pre, pos, w, post, r),
    ensures
        r matches Step::Done(p, _) && p == Polled::<T>::Ready(None),
        post == pre,
{
}

/// The end of the inner stream reaches every position: after position `pos`
/// has seen it, the next poll of any position answers with the end.
pub proof fn lemma_end_reaches_every_position<T: Clone, W>(
    pre: CopiedView<T, W>,
    pos: int,
    w1: W,
    mid: CopiedView<T, W>,
    r1: (Polled<T>, Vec<W>),
    j: int,
    w2: W,
    post: CopiedView<T, W>,
    r2: Step<T, W>,
)
    requires
        pre.wf(),
        0 <= pos < pre.positions(),
        0 <= j < pre.positions(),
        !pre.any_cached(),
        finish_rel(pre, pos, Polled::Ready(None), w1, mid, r1),
        start_rel(mid, j, w2, post, r2),
    ensures
        r1.0 == Polled::<T>::Ready(None),
        r2 matches Step::Done(p, _) && p == Polled::<T>::Ready(None),
        post == mid,
{
}

/// Every position is handed every item, in order: whenever no copy is left in
/// the cache (in particular once the inner stream has ended and every
/// position has seen the end), each position has been handed, in the order
/// the inner stream yielded them, one clone of each item.
pub proof fn lemma_every_position_gets_every_item<T: Clone, W>(s: CopiedView<T, W>)
    requires
        s.wf(),
        !s.any_cached(),
    ensures
        forall|j: int|
            0 <= j < s.positions() ==> {
                &&& (#[trigger] s.delivered[j]).len() == s.pulled.len()
                &&& forall|n: int| 0 <= n < s.pulled.len() ==> cloned(s.pulled[n], s.delivered[j][n])
            },
{
    assert forall|j: int| 0 <= j < s.positions() implies (#[trigger] s.delivered[j]).len()
        == s.pulled.len() by {
        assert(s.cache[j] is None);
    }
}

/// A position told to wait leaves its waker in its own slot: when another
/// position still has a copy to take, and when the inner stream is not ready.
pub proof fn lemma_wait_leaves_waker<T: Clone, W>(
    pre: CopiedView<T, W>,
    pos: int,
    w1: W,
    mid: CopiedView<T, W>,
    r1: Step<T, W>,
    ev: Polled<T>,
    w2: W,
    post: CopiedView<T, W>,
    r2: (Polled<T>, Vec<W>),
)
    requires
        pre.wf(),
        0 <= pos < pre.positions(),
        start_rel(pre, pos, w1, mid, r1),
        r1 is PollInner ==> finish_rel(mid, pos, ev, w2, post, r2),
    ensures
        r1 matches Step::Done(p, _) && p is Pending ==> mid.wakers[pos] == Some(w1),
        r1 is PollInner ==> (r2.0 is Pending ==> post.wakers[pos] == Some(w2)),
{
}

/// A waiting position is woken by the step that lets it go on: when the inner
/// stream yields its next item or ends, every kept waker is returned to be
/// woken, and its slot is emptied.
pub proof fn lemma_waiting_position_is_woken<T: Clone, W>(
    pre: CopiedView<T, W>,
    j: int,
    w: W,
    pos: int,
    ev: Polled<T>,
    waker: W,
    post: CopiedView<T, W>,
    r: (Polled<T>, Vec<W>),
)
    requires
        pre.wf(),
        0 <= j < pre.positions(),
        0 <= pos < pre.positions(),
        pre.wakers[j] == Some(w),
        ev is Ready,
        finish_rel(pre, pos, ev, waker, post, r),
    ensures
        r.1@.contains(w),
        post.wakers[j] is None,
{
    lemma_registered_contains(pre.wakers, j);
}

/// What a poll decides before the inner stream is asked, stated outright: a
/// position with a copy waiting is handed exactly that copy and its slot is
/// emptied, leaving every other slot; a poll is answered with the end only
/// once the inner stream has ended and no copy is left; and while the inner
/// stream is live and no copy is left, the poll asks for the inner stream.
pub proof fn lemma_start_answers<T, W>(
    pre: CopiedView<T, W>,
    pos: int,
    w: W,
    post: CopiedView<T, W>,
    r: Step<T, W>,
)
    requires
        0 <= pos < pre.positions(),
        start_rel(pre, pos, w, post, r),
    ensures
        pre.cache[pos] is Some ==> {
            &&& r matches Step::Done(Polled::Ready(Some(c)), _) && c == pre.cache[pos]->0
            &&& post.cache[pos] is None
            &&& forall|j: int| 0 <= j < pre.cache.len() && j != pos ==> post.cache[j] == pre.cache[j]
        },
        (r matches Step::Done(p, _) && p == Polled::<T>::Ready(None)) ==> !pre.live
            && !pre.any_cached(),
        pre.live && !pre.any_cached() ==> r is PollInner,
        r is PollInner ==> pre.live && !pre.any_cached() && post == pre,
{
    if pre.cache[pos] is Some {
        assert(pre.any_cached());
    }
}

/// What a poll that pulled an item does, stated outright: the polling position
/// is handed a clone of the item and keeps none in its slot, and every other
/// position gets a clone of it in its slot.
pub proof fn lemma_pulled_item_copied_to_all<T: Clone, W>(
    pre: CopiedView<T, W>,
    pos: int,
    v: T,
    w: W,
    post: CopiedView<T, W>,
    r: (Polled<T>, Vec<W>),
)
    requires
        0 <= pos < pre.positions(),
        pre.live,
        finish_rel(pre, pos, Polled::Ready(Some(v)), w, post, r),
    ensures
        r.0 matches Polled::Ready(Some(c)) && cloned(v, c),
        post.cache.len() == pre.cache.len(),
        post.cache[pos] is None,
        forall|j: int|
            0 <= j < post.cache.len() && j != pos ==> (#[trigger] post.cache[j]) is Some && cloned(
                v,
                post.cache[j]->0,
            ),
        post.live,
{
}

/// A position is never handed an item twice: after it has pulled an item and
/// been handed its copy, its next poll is not answered with an item; with
/// other positions it waits until they have taken theirs, and alone it asks
/// for the next item.
pub proof fn lemma_puller_not_handed_item_twice<T: Clone, W>(
    pre: CopiedView<T, W>,
    pos: int,
    v: T,
    w1: W,
    mid: CopiedView<T, W>,
    r1: (Polled<T>, Vec<W>),
    w2: W,
    post: CopiedView<T, W>,
    r2: Step<T, W>,
)
    requires
        pre.wf(),
        0 <= pos < pre.positions(),
        pre.live,
        finish_rel(pre, pos, Polled::Ready(Some(v)), w1, mid, r1),
        start_rel(mid, pos, w2, post, r2),
    ensures
        !(r2 matches Step::Done(Polled::Ready(_), _)),
        pre.positions() > 1 ==> (r2 matches Step::Done(p, _) && p is Pending),
        pre.positions() == 1 ==> r2 is PollInner,
{
    if pre.positions() > 1 {
        let j = if pos == 0 {
            1int
        } else {
            0int
        };
        assert(mid.cache[j] is Some);
        assert(mid.any_cached());
    } else {
        assert forall|j: int| 0 <= j < mid.cache.len() implies (#[trigger] mid.cache[j]) is None by {
            assert(j == pos);
        }
    }
}

/// The inner stream's end and its "not yet" are passed on to the poller: the
/// end ends the poll and leaves the stream ended, "not yet" makes it wait;
/// neither touches the cache.
pub proof fn lemma_finish_passes_on_end_and_wait<T: Clone, W>(
    pre: CopiedView<T, W>,
    pos: int,
    ev: Polled<T>,
    w: W,
    post: CopiedView<T, W>,
    r: (Polled<T>, Vec<W>),
)
    requires
        0 <= pos < pre.positions(),
        finish_rel(pre, pos, ev, w, post, r),
    ensures
        ev == Polled::<T>::Ready(None) ==> r.0 == Polled::<T>::Ready(None) && !post.live
            && post.cache == pre.cache,
        ev is Pending ==> r.0 is Pending && post.cache == pre.cache && post.live == pre.live,
{
}

} // verus!
