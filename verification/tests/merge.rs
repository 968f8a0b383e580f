use instance_batch::batch::BatchData;
use instance_batch::merge::find_slot;
use instance_batch::merge::BatchPrimitives;
use instance_batch::merge::SCAN_WINDOW;
use instance_batch::store::TwoLevelBatch;
use std::collections::HashMap;

type Store = TwoLevelBatch<u32, char, Vec<u8>>;

fn shell_of(keys: &[char]) -> Vec<BatchData<char, Vec<u8>>> {
    keys.iter().map(|key| BatchData { key: *key, collection: Vec::new() }).collect()
}

fn keys_and_items(shell: &Vec<BatchData<char, Vec<u8>>>) -> Vec<(char, Vec<u8>)> {
    shell.iter().map(|batch| (batch.key, batch.collection.clone())).collect()
}

#[test]
fn scan_window_is_eight() {
    assert_eq!(SCAN_WINDOW, 8);
}

#[test]
fn find_slot_in_an_empty_shell() {
    let shell = shell_of(&[]);
    assert_eq!(find_slot(&shell, &'a'), None);
}

#[test]
fn find_slot_gives_the_first_match() {
    let shell = shell_of(&['a', 'b', 'c', 'b']);
    assert_eq!(find_slot(&shell, &'a'), Some(0));
    assert_eq!(find_slot(&shell, &'b'), Some(1));
    assert_eq!(find_slot(&shell, &'c'), Some(2));
    assert_eq!(find_slot(&shell, &'z'), None);
}

#[test]
fn find_slot_stops_at_the_window() {
    let shell = shell_of(&['a', 'b', 'c', 'd', 'e', 'f', 'g', 'h', 'i', 'j']);
    assert_eq!(find_slot(&shell, &'h'), Some(7));
    assert_eq!(find_slot(&shell, &'i'), None);
    assert_eq!(find_slot(&shell, &'j'), None);
}

#[test]
fn wrap_push_and_batches_mut() {
    let mut shell = Store::wrap_batch(BatchData { key: 'a', collection: vec![1u8] });
    assert_eq!(keys_and_items(&shell), vec![('a', vec![1])]);
    Store::push(&mut shell, BatchData { key: 'b', collection: vec![2u8, 3] });
    assert_eq!(keys_and_items(&shell), vec![('a', vec![1]), ('b', vec![2, 3])]);
    {
        let batches = Store::batches_mut(&mut shell);
        assert_eq!(batches.len(), 2);
        batches[0].collection.push(9);
    }
    assert_eq!(keys_and_items(&shell), vec![('a', vec![1, 9]), ('b', vec![2, 3])]);
}

#[test]
fn insert_batch_fills_a_vacant_entry_with_one_batch() {
    let mut map: HashMap<&str, Vec<BatchData<char, Vec<u8>>>> = HashMap::new();
    Store::insert_batch(map.entry("pipeline"), 'a', vec![1u8, 2].into_iter());
    assert_eq!(map.len(), 1);
    assert_eq!(keys_and_items(&map["pipeline"]), vec![('a', vec![1, 2])]);
}

#[test]
fn insert_batch_merges_into_the_matching_batch() {
    let mut map: HashMap<&str, Vec<BatchData<char, Vec<u8>>>> = HashMap::new();
    Store::insert_batch(map.entry("pipeline"), 'a', vec![1u8].into_iter());
    Store::insert_batch(map.entry("pipeline"), 'b', vec![2u8].into_iter());
    Store::insert_batch(map.entry("pipeline"), 'a', vec![3u8, 4].into_iter());
    assert_eq!(map.len(), 1);
    assert_eq!(keys_and_items(&map["pipeline"]), vec![('a', vec![1, 3, 4]), ('b', vec![2])]);
}

#[test]
fn insert_batch_merges_into_the_first_of_two_matching_batches() {
    let mut map: HashMap<u8, Vec<BatchData<char, Vec<u8>>>> = HashMap::new();
    map.insert(0, shell_of(&['a', 'b', 'b']));
    Store::insert_batch(map.entry(0), 'b', vec![5u8].into_iter());
    assert_eq!(keys_and_items(&map[&0]), vec![('a', vec![]), ('b', vec![5]), ('b', vec![])]);
}

#[test]
fn insert_batch_does_not_look_past_the_window() {
    let mut map: HashMap<u8, Vec<BatchData<char, Vec<u8>>>> = HashMap::new();
    map.insert(0, shell_of(&['a', 'b', 'c', 'd', 'e', 'f', 'g', 'h', 'i']));
    Store::insert_batch(map.entry(0), 'i', vec![5u8].into_iter());
    let shell = keys_and_items(&map[&0]);
    assert_eq!(shell.len(), 10);
    assert_eq!(shell[8], ('i', vec![]));
    assert_eq!(shell[9], ('i', vec![5]));
    Store::insert_batch(map.entry(0), 'h', vec![6u8].into_iter());
    let shell = keys_and_items(&map[&0]);
    assert_eq!(shell.len(), 10);
    assert_eq!(shell[7], ('h', vec![6]));
}

#[test]
fn insert_batch_into_an_entry_with_no_batches_appends() {
    let mut map: HashMap<u8, Vec<BatchData<char, Vec<u8>>>> = HashMap::new();
    map.insert(0, Vec::new());
    Store::insert_batch(map.entry(0), 'a', vec![5u8].into_iter());
    assert_eq!(keys_and_items(&map[&0]), vec![('a', vec![5])]);
}
