use stream_utils::group_by::Groups;
use std::collections::VecDeque;
use stream_utils::poll::{Polled, Step};

/// The waker of the grouping stream; a group's waker is its index.
const GROUP_BY_WAKER: u32 = 1000;

/// Polls the grouping stream once, pulling from the inner iterator when the
/// state asks for it.
fn poll_group_by<K, T, I, F>(state: &mut Groups<K, T, I, F, u32>) -> (Polled<K>, Vec<u32>)
where
    K: PartialEq + Clone,
    I: Iterator<Item = T>,
    F: Fn(&T) -> K,
{
    match state.group_by_start(GROUP_BY_WAKER) {
        Step::Done(p, w) => (p, w),
        Step::PollInner => {
            assert!(!state.has_current());
            let ev = Polled::Ready(state.stream_mut().next());
            state.group_by_finish(ev, GROUP_BY_WAKER)
        }
    }
}

/// Polls the group of key `key` once.
fn poll_group<K, T, I, F>(state: &mut Groups<K, T, I, F, u32>, key: &K, waker: u32) -> (Polled<T>, Vec<u32>)
where
    K: PartialEq,
    I: Iterator<Item = T>,
    F: Fn(&T) -> K,
{
    match state.group_start(key, waker) {
        Step::Done(p, w) => (p, w),
        Step::PollInner => {
            assert!(!state.has_current());
            let ev = Polled::Ready(state.stream_mut().next());
            state.group_finish(key, ev, waker)
        }
    }
}

/// Runs the grouping stream and every group it hands out as tasks polled in
/// turn, until all have ended; returns each group's key and items, in the
/// order the groups were handed out.
fn run_all<K, T, I, F>(stream: I, f: F) -> Vec<(K, Vec<T>)>
where
    K: PartialEq + Clone,
    I: Iterator<Item = T>,
    F: Fn(&T) -> K,
{
    let mut state = Groups::new(stream, f);
    let mut groups: Vec<(K, Vec<T>, bool)> = Vec::new();
    let mut group_by_done = false;
    let mut rounds = 0;
    while !group_by_done || groups.iter().any(|g| !g.2) {
        rounds += 1;
        assert!(rounds < 10_000);
        if !group_by_done {
            match poll_group_by(&mut state).0 {
                Polled::Ready(Some(k)) => groups.push((k, Vec::new(), false)),
                Polled::Ready(None) => group_by_done = true,
                Polled::Pending => {}
            }
        }
        for (i, g) in groups.iter_mut().enumerate() {
            if g.2 {
                continue;
            }
            match poll_group(&mut state, &g.0, i as u32).0 {
                Polled::Ready(Some(v)) => g.1.push(v),
                Polled::Ready(None) => g.2 = true,
                Polled::Pending => {}
            }
        }
    }
    groups.into_iter().map(|(k, items, _)| (k, items)).collect()
}

#[test]
fn test_async_random_collect() {
    let groups = run_all(0..10usize, |k: &usize| k % 2 == 0);
    assert_eq!(groups.len(), 2);
    for (_, items) in groups {
        assert_eq!(items.len(), 5);
    }
}

#[test]
fn test_ordered_collect() {
    let mut state = Groups::new("Streaming".chars(), |k: &char| k.is_uppercase());
    let upper = match poll_group_by(&mut state).0 {
        Polled::Ready(Some(k)) => k,
        _ => panic!("a group for the first key"),
    };
    assert!(upper);
    assert!(matches!(poll_group(&mut state, &upper, 0).0, Polled::Ready(Some('S'))));
    let lower = match poll_group_by(&mut state).0 {
        Polled::Ready(Some(k)) => k,
        _ => panic!("a group for the second key"),
    };
    assert!(!lower);
    let mut collected = String::new();
    loop {
        match poll_group(&mut state, &lower, 1).0 {
            Polled::Ready(Some(c)) => collected.push(c),
            Polled::Ready(None) => break,
            Polled::Pending => panic!("the lower-case group never waits here"),
        }
    }
    assert_eq!("treaming", collected);
    assert!(matches!(poll_group(&mut state, &upper, 0).0, Polled::Ready(None)));
}

#[test]
fn test_different_stream_lengths() {
    let mut groups = run_all("abbcbcbcbba".chars(), |k: &char| *k);
    let as_string = |g: (char, Vec<char>)| g.1.into_iter().collect::<String>();
    assert_eq!("ccc", as_string(groups.pop().unwrap()));
    assert_eq!("bbbbbb", as_string(groups.pop().unwrap()));
    assert_eq!("aa", as_string(groups.pop().unwrap()));
}

#[test]
fn fresh_groups_hold_nothing() {
    let state: Groups<u8, u8, std::vec::IntoIter<u8>, fn(&u8) -> u8, u32> =
        Groups::new(vec![1u8].into_iter(), |x: &u8| *x);
    assert!(!state.has_current());
    assert_eq!(state.group_count(), 0);
}

#[test]
fn each_key_gets_one_group_and_the_group_by_waits_for_it() {
    let mut state = Groups::new(vec![1u32, 3, 2].into_iter(), |x: &u32| x % 2);
    // First item: a new group of key 1, and the item is held for it.
    assert!(matches!(poll_group_by(&mut state).0, Polled::Ready(Some(1))));
    assert_eq!(state.group_count(), 1);
    assert!(state.has_current());
    // Polled again before the group took the item: it waits and keeps its waker.
    let (p, w) = poll_group_by(&mut state);
    assert!(matches!(p, Polled::Pending));
    assert!(w.is_empty());
    // The group of key 1 takes 1, then pulls 3 (its own key) directly.
    assert!(matches!(poll_group(&mut state, &1, 7).0, Polled::Ready(Some(1))));
    assert!(matches!(poll_group(&mut state, &1, 7).0, Polled::Ready(Some(3))));
    // It pulls 2, of a key with no group: it waits, holds 2, and wakes the grouping stream.
    let (p, w) = poll_group(&mut state, &1, 7);
    assert!(matches!(p, Polled::Pending));
    assert_eq!(w, vec![GROUP_BY_WAKER]);
    assert!(state.has_current());
    assert_eq!(state.group_count(), 1);
    // The grouping stream hands out the group of key 0, which takes 2.
    assert!(matches!(poll_group_by(&mut state).0, Polled::Ready(Some(0))));
    assert_eq!(state.group_count(), 2);
    assert!(matches!(poll_group(&mut state, &0, 8).0, Polled::Ready(Some(2))));
    assert!(!state.has_current());
}

#[test]
fn group_of_another_key_waits_and_wakes_the_owner() {
    let mut state = Groups::new(vec![10u32, 11, 20].into_iter(), |x: &u32| x / 10);
    assert!(matches!(poll_group_by(&mut state).0, Polled::Ready(Some(1))));
    // Group 1 is polled with the item 10 held: it takes it.
    assert!(matches!(poll_group(&mut state, &1, 5).0, Polled::Ready(Some(10))));
    // The grouping stream pulls 11 (key 1, which has a group): it waits and
    // leaves its waker.
    let (p, w) = poll_group_by(&mut state);
    assert!(matches!(p, Polled::Pending));
    assert!(w.is_empty());
    // A group of key 2 (not yet handed out) polls: 11 is not its item; it waits.
    let (p, _) = poll_group(&mut state, &2, 6);
    assert!(matches!(p, Polled::Pending));
    // Group 1 takes 11.
    assert!(matches!(poll_group(&mut state, &1, 5).0, Polled::Ready(Some(11))));
    // Group 1 pulls 20 (key 2, no group yet): it waits and wakes the
    // grouping stream, which left its waker when it was told to wait.
    let (p, w) = poll_group(&mut state, &1, 5);
    assert!(matches!(p, Polled::Pending));
    assert_eq!(w, vec![GROUP_BY_WAKER]);
    // The grouping stream now hands out group 2.
    assert!(matches!(poll_group_by(&mut state).0, Polled::Ready(Some(2))));
    // Group 1 polled again: 20 is not its item; group 2 has no waker yet.
    let (p, w) = poll_group(&mut state, &1, 5);
    assert!(matches!(p, Polled::Pending));
    assert!(w.is_empty());
    // The grouping stream polled: the item's group has no waker to wake.
    let (p, w) = poll_group_by(&mut state);
    assert!(matches!(p, Polled::Pending));
    assert!(w.is_empty());
    // Group 2 takes 20.
    assert!(matches!(poll_group(&mut state, &2, 6).0, Polled::Ready(Some(20))));
    // Group 2 finds the end: its slot is cleared and the grouping stream is woken.
    let (p, w) = poll_group(&mut state, &2, 6);
    assert!(matches!(p, Polled::Ready(None)));
    assert_eq!(w, vec![GROUP_BY_WAKER]);
}

#[test]
fn end_of_inner_stream_wakes_every_waiting_group() {
    let mut state = Groups::new(vec![1u32, 2].into_iter(), |x: &u32| *x);
    assert!(matches!(poll_group_by(&mut state).0, Polled::Ready(Some(1))));
    // Group 2 (not handed out yet) polls while 1 is held: the owner has no waker.
    assert!(matches!(poll_group(&mut state, &2, 22).0, Polled::Pending));
    assert!(matches!(poll_group(&mut state, &1, 11).0, Polled::Ready(Some(1))));
    // Group 1 pulls 2 and waits with its waker kept.
    assert!(matches!(poll_group(&mut state, &1, 11).0, Polled::Pending));
    assert!(matches!(poll_group_by(&mut state).0, Polled::Ready(Some(2))));
    assert!(matches!(poll_group(&mut state, &2, 22).0, Polled::Ready(Some(2))));
    // The grouping stream finds the end and wakes group 1, which waits.
    let (p, w) = poll_group_by(&mut state);
    assert!(matches!(p, Polled::Ready(None)));
    assert_eq!(w, vec![11]);
}

#[test]
fn items_go_to_the_group_of_their_key_in_order() {
    let items: Vec<u32> = vec![5, 12, 7, 30, 19, 4, 8, 22, 1];
    let groups = run_all(items.clone().into_iter(), |x: &u32| x % 3);
    let mut keys: Vec<u32> = groups.iter().map(|g| g.0).collect();
    assert_eq!(keys, vec![2, 0, 1]);
    keys.dedup();
    assert_eq!(keys.len(), 3);
    for (k, got) in groups {
        let expected: Vec<u32> = items.iter().copied().filter(|x| x % 3 == k).collect();
        assert_eq!(got, expected);
    }
}

/// Runs the grouping stream and its groups as tasks that are polled only when
/// they are ready: at the start, after they yield an item, or when woken.
/// Returns each group's key and items, and whether every task ended.
fn run_woken<K, T, I, F>(stream: I, f: F) -> (Vec<(K, Vec<T>)>, bool)
where
    K: PartialEq + Clone,
    I: Iterator<Item = T>,
    F: Fn(&T) -> K,
{
    let mut state = Groups::new(stream, f);
    let mut groups: Vec<(K, Vec<T>, bool)> = Vec::new();
    let mut group_by_done = false;
    let mut ready: VecDeque<u32> = VecDeque::new();
    ready.push_back(GROUP_BY_WAKER);
    let mut steps = 0;
    while let Some(task) = ready.pop_front() {
        steps += 1;
        assert!(steps < 10_000);
        let woken = if task == GROUP_BY_WAKER {
            if group_by_done {
                continue;
            }
            let (p, w) = poll_group_by(&mut state);
            match p {
                Polled::Ready(Some(k)) => {
                    groups.push((k, Vec::new(), false));
                    ready.push_back((groups.len() - 1) as u32);
                    ready.push_back(GROUP_BY_WAKER);
                }
                Polled::Ready(None) => group_by_done = true,
                Polled::Pending => {}
            }
            w
        } else {
            let i = task as usize;
            if groups[i].2 {
                continue;
            }
            let key = groups[i].0.clone();
            let (p, w) = poll_group(&mut state, &key, task);
            match p {
                Polled::Ready(Some(v)) => {
                    groups[i].1.push(v);
                    ready.push_back(task);
                }
                Polled::Ready(None) => groups[i].2 = true,
                Polled::Pending => {}
            }
            w
        };
        for w in woken {
            ready.push_back(w);
        }
    }
    let all_ended = group_by_done && groups.iter().all(|g| g.2);
    (groups.into_iter().map(|(k, items, _)| (k, items)).collect(), all_ended)
}

#[test]
fn woken_tasks_finish_when_an_existing_group_gets_the_next_item() {
    let (groups, all_ended) = run_woken(vec![1u32, 1, 2].into_iter(), |x: &u32| *x);
    assert!(all_ended);
    assert_eq!(groups.len(), 2);
    assert_eq!(groups[0], (1, vec![1, 1]));
    assert_eq!(groups[1], (2, vec![2]));
}

#[test]
fn woken_tasks_finish_on_different_stream_lengths() {
    let (groups, all_ended) = run_woken("abbcbcbcbba".chars(), |k: &char| *k);
    assert!(all_ended);
    let got: Vec<(char, String)> = groups
        .into_iter()
        .map(|(k, items)| (k, items.into_iter().collect()))
        .collect();
    assert_eq!(
        got,
        vec![('a', "aa".to_string()), ('b', "bbbbbb".to_string()), ('c', "ccc".to_string())]
    );
}

#[test]
fn woken_tasks_finish_on_alternating_keys() {
    let (groups, all_ended) = run_woken(0..10usize, |k: &usize| k % 2 == 0);
    assert!(all_ended);
    assert_eq!(groups, vec![(true, vec![0, 2, 4, 6, 8]), (false, vec![1, 3, 5, 7, 9])]);
}

#[test]
fn grouping_stream_keeps_its_waker_when_the_inner_stream_is_not_ready() {
    let mut state: Groups<u32, u32, std::vec::IntoIter<u32>, fn(&u32) -> u32, u32> =
        Groups::new(vec![4u32].into_iter(), |x: &u32| *x);
    assert!(matches!(state.group_by_start(GROUP_BY_WAKER), Step::PollInner));
    let (p, w) = state.group_by_finish(Polled::Pending, GROUP_BY_WAKER);
    assert!(matches!(p, Polled::Pending));
    assert!(w.is_empty());
    // A group pulling an item of a key with no group wakes the kept waker.
    assert!(matches!(state.group_start(&9, 3), Step::PollInner));
    let (p, w) = state.group_finish(&9, Polled::Ready(Some(4)), 3);
    assert!(matches!(p, Polled::Pending));
    assert_eq!(w, vec![GROUP_BY_WAKER]);
}

#[test]
fn group_keeps_its_waker_when_the_inner_stream_is_not_ready() {
    let mut state: Groups<u32, u32, std::vec::IntoIter<u32>, fn(&u32) -> u32, u32> =
        Groups::new(vec![1u32].into_iter(), |x: &u32| *x);
    assert!(matches!(poll_group_by(&mut state).0, Polled::Ready(Some(1))));
    assert!(matches!(poll_group(&mut state, &1, 7).0, Polled::Ready(Some(1))));
    assert!(matches!(state.group_start(&1, 7), Step::PollInner));
    let (p, w) = state.group_finish(&1, Polled::Pending, 7);
    assert!(matches!(p, Polled::Pending));
    assert!(w.is_empty());
    // The grouping stream then finds an item of key 1 and wakes the group.
    assert!(matches!(state.group_by_start(GROUP_BY_WAKER), Step::PollInner));
    let (p, w) = state.group_by_finish(Polled::Ready(Some(1)), GROUP_BY_WAKER);
    assert!(matches!(p, Polled::Pending));
    assert_eq!(w, vec![7]);
}

#[test]
fn first_poll_of_the_grouping_stream_polls_the_inner_stream() {
    let mut state: Groups<char, char, std::vec::IntoIter<char>, fn(&char) -> char, u32> =
        Groups::new(vec!['x'].into_iter(), |c: &char| *c);
    assert!(matches!(state.group_by_start(GROUP_BY_WAKER), Step::PollInner));
    assert!(!state.has_current());
    assert_eq!(state.group_count(), 0);
}
