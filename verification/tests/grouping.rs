use instance_batch::grouping::GroupIterator;
use instance_batch::grouping::GROUP_BUFFER_CAPACITY;

/// Runs the grouper over `items` and records every call of the callback.
fn collect_groups(items: Vec<(u32, char)>) -> Vec<(u32, Vec<char>)> {
    let mut calls: Vec<(u32, Vec<char>)> = Vec::new();
    items.into_iter().for_each_group(|key: u32, buffer: &mut Vec<char>| {
        calls.push((key, buffer.clone()));
    });
    calls
}

#[test]
fn empty_input_never_calls_back() {
    let calls = collect_groups(Vec::new());
    assert!(calls.is_empty());
}

#[test]
fn single_item_is_one_group() {
    let calls = collect_groups(vec![(7, 'a')]);
    assert_eq!(calls, vec![(7, vec!['a'])]);
}

#[test]
fn single_run_is_flushed_at_the_end() {
    let calls = collect_groups(vec![(5, 'a'), (5, 'b'), (5, 'c')]);
    assert_eq!(calls.len(), 1);
    assert_eq!(calls[0].0, 5);
    assert_eq!(calls[0].1.len(), 3);
    assert_eq!(calls[0].1, vec!['a', 'b', 'c']);
}

#[test]
fn one_call_per_run_of_adjacent_keys() {
    let calls = collect_groups(vec![(1, 'a'), (1, 'b'), (2, 'c'), (3, 'd'), (3, 'e'), (3, 'f')]);
    assert_eq!(calls, vec![(1, vec!['a', 'b']), (2, vec!['c']), (3, vec!['d', 'e', 'f'])]);
}

#[test]
fn runs_with_the_same_key_that_do_not_touch_stay_apart() {
    let calls = collect_groups(vec![(1, 'a'), (1, 'b'), (2, 'c'), (1, 'd')]);
    assert_eq!(calls, vec![(1, vec!['a', 'b']), (2, vec!['c']), (1, vec!['d'])]);
}

#[test]
fn input_is_not_sorted() {
    let calls = collect_groups(vec![(3, 'a'), (1, 'b'), (2, 'c'), (1, 'd')]);
    assert_eq!(calls, vec![(3, vec!['a']), (1, vec!['b']), (2, vec!['c']), (1, vec!['d'])]);
}

#[test]
fn groups_hold_every_value_in_order() {
    let items: Vec<(u32, char)> = vec![
        (4, 'q'),
        (4, 'w'),
        (9, 'e'),
        (4, 'r'),
        (4, 't'),
        (4, 'y'),
        (2, 'u'),
    ];
    let expected: Vec<char> = items.iter().map(|item| item.1).collect();
    let calls = collect_groups(items);
    let mut total: usize = 0;
    let mut joined: Vec<char> = Vec::new();
    for (_, values) in calls.iter() {
        total += values.len();
        joined.extend(values.iter().cloned());
    }
    assert_eq!(total, 7);
    assert_eq!(joined, expected);
    assert_eq!(calls.len(), 4);
}

#[test]
fn what_the_callback_does_to_the_buffer_is_discarded() {
    let items: Vec<(u32, u8)> = vec![(1, 10), (1, 11), (2, 20), (3, 30), (3, 31)];
    let mut calls: Vec<(u32, Vec<u8>)> = Vec::new();
    let mut round: u32 = 0;
    items.into_iter().for_each_group(|key: u32, buffer: &mut Vec<u8>| {
        calls.push((key, buffer.clone()));
        if round == 0 {
            buffer.clear();
        } else {
            buffer.push(99);
            buffer.push(98);
        }
        round += 1;
    });
    assert_eq!(calls, vec![(1, vec![10, 11]), (2, vec![20]), (3, vec![30, 31])]);
}

#[test]
fn buffer_is_reserved_once_and_used_again() {
    let items: Vec<(u32, u8)> = vec![(1, 10), (2, 20), (2, 21), (3, 30)];
    let mut capacities: Vec<usize> = Vec::new();
    items.into_iter().for_each_group(|_key: u32, buffer: &mut Vec<u8>| {
        capacities.push(buffer.capacity());
    });
    assert_eq!(GROUP_BUFFER_CAPACITY, 64);
    assert_eq!(capacities.len(), 3);
    assert!(capacities[0] >= 64);
    assert_eq!(capacities[1], capacities[0]);
    assert_eq!(capacities[2], capacities[0]);
}

/// A key whose equality looks at the tens only.
#[derive(Debug)]
struct Tens(u32);

impl PartialEq for Tens {
    fn eq(&self, other: &Tens) -> bool {
        self.0 / 10 == other.0 / 10
    }
}

#[test]
fn a_group_is_handed_over_with_the_key_that_opened_it() {
    let items: Vec<(Tens, u8)> = vec![(Tens(12), 1), (Tens(15), 2), (Tens(19), 3), (Tens(20), 4), (Tens(11), 5)];
    let mut calls: Vec<(u32, Vec<u8>)> = Vec::new();
    items.into_iter().for_each_group(|key: Tens, buffer: &mut Vec<u8>| {
        calls.push((key.0, buffer.clone()));
    });
    assert_eq!(calls, vec![(12, vec![1, 2, 3]), (20, vec![4]), (11, vec![5])]);
}

#[test]
fn works_on_a_lazy_iterator() {
    let mut calls: Vec<(u32, Vec<u32>)> = Vec::new();
    (0u32..10).map(|n| (n / 4, n)).for_each_group(|key: u32, buffer: &mut Vec<u32>| {
        calls.push((key, buffer.clone()));
    });
    assert_eq!(calls, vec![(0, vec![0, 1, 2, 3]), (1, vec![4, 5, 6, 7]), (2, vec![8, 9])]);
}
