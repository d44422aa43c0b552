use linked_list::list::{from_vec, new, List};

#[test]
fn at_matches_appended_order() {
    let items = vec![10, 20, 30, 40, 50];
    let mut list: List<i32> = new();
    for x in &items {
        list.append(*x);
    }
    for (i, x) in items.iter().enumerate() {
        assert_eq!(list.at(i), Some(x));
    }
    assert_eq!(list.at(items.len()), None);
}

#[test]
fn size_tracks_appends_and_removals() {
    let mut list: List<i32> = new();
    assert_eq!(list.size(), 0);
    for x in 0..6 {
        list.append(x);
    }
    assert_eq!(list.size(), 6);
    list.remove_at(2);
    list.remove_at(0);
    assert_eq!(list.size(), 4);
    assert_eq!(list.pop(), Some(5));
    assert_eq!(list.shift(), Some(1));
    assert_eq!(list.size(), 2);
}

#[test]
fn prepend_then_shift_restores() {
    let mut list = from_vec(vec![7, 8, 9]);
    list.prepend(6);
    assert_eq!(list.shift(), Some(6));
    assert_eq!(list.into_vec(), vec![7, 8, 9]);
}

#[test]
fn pop_returns_last_and_shrinks() {
    let mut list = from_vec(vec![1, 2, 3, 4]);
    assert_eq!(list.pop(), Some(4));
    assert_eq!(list.size(), 3);
    assert_eq!(list.into_vec(), vec![1, 2, 3]);
}

#[test]
fn pop_on_empty_is_absent() {
    let mut list: List<i32> = new();
    assert_eq!(list.pop(), None);
    assert_eq!(list.shift(), None);
}

#[test]
fn pop_on_single_node_takes_head() {
    let mut list = from_vec(vec![42]);
    assert_eq!(list.pop(), Some(42));
    assert_eq!(list.size(), 0);
    assert_eq!(list.head(), None);
}

#[test]
fn drain_round_trip_reproduces_input() {
    let items = vec![3, 1, 4, 1, 5, 9, 2, 6];
    let mut list = from_vec(items.clone());
    let mut drained = Vec::new();
    while let Some(x) = list.shift() {
        drained.push(x);
    }
    assert_eq!(drained, items);
    assert_eq!(list.size(), 0);
}

#[test]
fn head_and_tail_first_and_last() {
    let list = from_vec(vec![1, 2, 3]);
    assert_eq!(list.head(), Some(&1));
    assert_eq!(list.tail(), Some(&3));
    let empty: List<i32> = new();
    assert_eq!(empty.head(), None);
    assert_eq!(empty.tail(), None);
}

#[test]
fn insert_at_zero_is_prepend() {
    let mut by_insert = from_vec(vec![2, 3]);
    let mut by_prepend = from_vec(vec![2, 3]);
    by_insert.insert_at(0, 1);
    by_prepend.prepend(1);
    assert_eq!(by_insert.into_vec(), by_prepend.into_vec());

    let mut empty_insert: List<i32> = new();
    let mut empty_prepend: List<i32> = new();
    empty_insert.insert_at(0, 1);
    empty_prepend.prepend(1);
    assert_eq!(empty_insert.into_vec(), empty_prepend.into_vec());
}

#[test]
fn insert_at_middle_and_end() {
    let mut list = from_vec(vec![1, 2, 4]);
    list.insert_at(2, 3);
    assert_eq!(list.size(), 4);
    assert_eq!(list.at(2), Some(&3));
    let mut list = from_vec(vec![1, 2]);
    list.insert_at(2, 3);
    assert_eq!(list.into_vec(), vec![1, 2, 3]);
}

#[test]
fn remove_at_middle_and_last() {
    let mut list = from_vec(vec![1, 2, 3, 4]);
    list.remove_at(1);
    assert_eq!(list.size(), 3);
    list.remove_at(2);
    assert_eq!(list.into_vec(), vec![1, 3]);
}

#[test]
fn out_of_range_positions_are_no_ops() {
    let mut list = from_vec(vec![1, 2, 3]);
    list.insert_at(4, 99);
    assert_eq!(list.size(), 3);
    list.remove_at(3);
    assert_eq!(list.size(), 3);
    list.remove_at(100);
    assert_eq!(list.into_vec(), vec![1, 2, 3]);

    let mut empty: List<i32> = new();
    empty.insert_at(1, 99);
    assert_eq!(empty.size(), 0);
    empty.remove_at(0);
    assert_eq!(empty.size(), 0);
}

#[test]
fn at_out_of_range_is_absent() {
    let list = from_vec(vec![1]);
    assert_eq!(list.at(1), None);
    assert_eq!(list.at(usize::MAX), None);
}
