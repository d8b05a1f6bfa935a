use stream_utils::copied_multi_stream::CopiedMultiStreamState;
use stream_utils::poll::{Polled, Step};

type State<I> = CopiedMultiStreamState<I, usize, u32>;

/// Polls position `pos` once, pulling from the inner iterator when the state
/// asks for it. The waker of a position is its number.
fn poll_pos<I: Iterator<Item = usize>>(state: &mut State<I>, pos: usize) -> (Polled<usize>, Vec<u32>) {
    match state.poll_start(pos, pos as u32) {
        Step::Done(p, w) => (p, w),
        Step::PollInner => {
            assert!(state.is_live());
            assert!(!state.copies_outstanding());
            let ev = Polled::Ready(state.stream_mut().next());
            state.poll_finish(pos, ev, pos as u32)
        }
    }
}

/// Polls every position in turn until each has ended, and returns every item
/// in the order the positions received them.
fn collect_round_robin<I: Iterator<Item = usize>>(stream: I, size: usize) -> (usize, Vec<usize>) {
    let mut state = CopiedMultiStreamState::new(stream, size);
    let n = state.positions();
    let mut done = vec![false; n];
    let mut out = Vec::new();
    let mut rounds = 0;
    while done.iter().any(|d| !d) {
        rounds += 1;
        assert!(rounds < 1000);
        for pos in 0..n {
            if done[pos] {
                continue;
            }
            match poll_pos(&mut state, pos).0 {
                Polled::Ready(Some(v)) => out.push(v),
                Polled::Ready(None) => done[pos] = true,
                Polled::Pending => {}
            }
        }
    }
    (n, out)
}

/// Polls each position to its end, one position after the other, the way
/// separate tasks would when each is woken in turn.
fn collect_each<I: Iterator<Item = usize>>(stream: I, size: usize) -> Vec<Vec<usize>> {
    let mut state = CopiedMultiStreamState::new(stream, size);
    let mut outs = vec![Vec::new(); size];
    let mut done = vec![false; size];
    let mut rounds = 0;
    while done.iter().any(|d| !d) {
        rounds += 1;
        assert!(rounds < 1000);
        for pos in 0..size {
            loop {
                if done[pos] {
                    break;
                }
                match poll_pos(&mut state, pos).0 {
                    Polled::Ready(Some(v)) => outs[pos].push(v),
                    Polled::Ready(None) => done[pos] = true,
                    Polled::Pending => break,
                }
            }
        }
    }
    outs
}

#[test]
fn test_stream() {
    let size = 3;
    let (n, res) = collect_round_robin(0..3, size);
    assert_eq!(n, size);
    assert_eq!(res, vec![0, 0, 0, 1, 1, 1, 2, 2, 2]);
}

#[test]
fn test_box_stream() {
    let size = 3;
    let stream: Box<dyn Iterator<Item = usize>> = Box::new(0..3);
    let (n, res) = collect_round_robin(stream, size);
    assert_eq!(n, size);
    assert_eq!(res, vec![0, 0, 0, 1, 1, 1, 2, 2, 2]);
}

#[test]
fn test_empty_stream() {
    let size = 3;
    let (n, res) = collect_round_robin(0..0, size);
    assert_eq!(n, size);
    let exp: Vec<usize> = Vec::new();
    assert_eq!(res, exp);
}

#[test]
fn test_zero_streams() {
    let size = 0;
    let (n, res) = collect_round_robin(0..3, size);
    assert_eq!(n, size);
    let exp: Vec<usize> = Vec::new();
    assert_eq!(res, exp);
}

#[test]
fn test_future_stream() {
    let size = 3;
    let stream = (0..=2usize).map(|state| state * 2);
    let (n, res) = collect_round_robin(stream, size);
    assert_eq!(n, size);
    assert_eq!(res, vec![0, 0, 0, 2, 2, 2, 4, 4, 4]);
}

#[test]
fn test_async_pull() {
    let size = 5;
    let res = collect_each(0..3, size);
    assert_eq!(res.len(), size);
    for r in res {
        assert_eq!(r, vec![0, 1, 2]);
    }
}

#[test]
fn fresh_state_has_no_copies_and_is_live() {
    let state: State<std::ops::Range<usize>> = CopiedMultiStreamState::new(0..3, 4);
    assert_eq!(state.positions(), 4);
    assert!(state.is_live());
    assert!(!state.copies_outstanding());
}

#[test]
fn first_poll_asks_for_the_inner_stream() {
    let mut state: State<std::ops::Range<usize>> = CopiedMultiStreamState::new(0..3, 2);
    assert!(matches!(state.poll_start(1, 1), Step::PollInner));
    // Nothing changed: asking again gives the same answer.
    assert!(matches!(state.poll_start(0, 0), Step::PollInner));
}

#[test]
fn position_that_took_its_copy_waits_for_the_others() {
    let mut state = CopiedMultiStreamState::new(10..12usize, 3);
    let (p, w) = poll_pos(&mut state, 0);
    assert!(matches!(p, Polled::Ready(Some(10))));
    assert!(w.is_empty());
    assert!(state.copies_outstanding());
    // Position 0 has its copy: it waits and its waker is kept.
    let (p, w) = poll_pos(&mut state, 0);
    assert!(matches!(p, Polled::Pending));
    assert!(w.is_empty());
    // Position 2 takes its copy, then waits too.
    assert!(matches!(poll_pos(&mut state, 2).0, Polled::Ready(Some(10))));
    assert!(matches!(poll_pos(&mut state, 2).0, Polled::Pending));
    // Position 1 takes the last copy; then it pulls the next item and wakes the others.
    assert!(matches!(poll_pos(&mut state, 1).0, Polled::Ready(Some(10))));
    assert!(!state.copies_outstanding());
    let (p, w) = poll_pos(&mut state, 1);
    assert!(matches!(p, Polled::Ready(Some(11))));
    assert_eq!(w, vec![0, 2]);
}

#[test]
fn end_of_inner_stream_wakes_waiters_and_is_final() {
    let mut state = CopiedMultiStreamState::new(7..8usize, 2);
    assert!(matches!(poll_pos(&mut state, 0).0, Polled::Ready(Some(7))));
    assert!(matches!(poll_pos(&mut state, 0).0, Polled::Pending));
    assert!(matches!(poll_pos(&mut state, 1).0, Polled::Ready(Some(7))));
    // Position 1 finds the end and wakes position 0.
    let (p, w) = poll_pos(&mut state, 1);
    assert!(matches!(p, Polled::Ready(None)));
    assert_eq!(w, vec![0]);
    assert!(!state.is_live());
    for _ in 0..3 {
        for pos in 0..2 {
            let (p, w) = poll_pos(&mut state, pos);
            assert!(matches!(p, Polled::Ready(None)));
            assert!(w.is_empty());
        }
    }
}

#[test]
fn pending_inner_stream_keeps_the_pollers_waker() {
    let mut state: State<std::ops::Range<usize>> = CopiedMultiStreamState::new(0..1, 2);
    assert!(matches!(state.poll_start(1, 1), Step::PollInner));
    let (p, w) = state.poll_finish(1, Polled::Pending, 41);
    assert!(matches!(p, Polled::Pending));
    assert!(w.is_empty());
    // The next item wakes the kept waker.
    assert!(matches!(state.poll_start(0, 0), Step::PollInner));
    let (p, w) = state.poll_finish(0, Polled::Ready(Some(5)), 40);
    assert!(matches!(p, Polled::Ready(Some(5))));
    assert_eq!(w, vec![41]);
    // Position 1 gets its copy from the cache, with no inner poll.
    match state.poll_start(1, 1) {
        Step::Done(Polled::Ready(Some(v)), w) => {
            assert_eq!(v, 5);
            assert!(w.is_empty());
        }
        _ => panic!("position 1 should get its copy"),
    }
}

#[test]
fn every_position_gets_every_item_in_order() {
    let items: Vec<usize> = vec![3, 1, 4, 1, 5, 9, 2, 6];
    let outs = collect_each(items.clone().into_iter(), 4);
    for out in outs {
        assert_eq!(out, items);
    }
}
