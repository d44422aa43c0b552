use linked_list::list::{from_vec, new, List};
use linked_list::merge::{merge_sorted, sort_then_merge, sort_vec};

#[test]
fn front_back_split_odd_length() {
    let list = from_vec(vec![2, 3, 5, 7, 11]);
    let (front, back) = list.front_back_split();
    assert_eq!(front.into_vec(), vec![2, 3, 5]);
    assert_eq!(back.into_vec(), vec![7, 11]);
}

#[test]
fn front_back_split_even_length() {
    let list = from_vec(vec![2, 3, 5, 7]);
    let (front, back) = list.front_back_split();
    assert_eq!(front.into_vec(), vec![2, 3]);
    assert_eq!(back.into_vec(), vec![5, 7]);
}

#[test]
fn front_back_split_rejoins_to_original() {
    for items in [vec![2, 3, 5, 7, 11], vec![2, 3, 5, 7], vec![1], Vec::new()] {
        let list = from_vec(items.clone());
        let (front, back) = list.front_back_split();
        let mut rejoined = front.into_vec();
        rejoined.extend(back.into_vec());
        assert_eq!(rejoined, items);
    }
}

#[test]
fn front_back_split_leaves_source_intact() {
    let list = from_vec(vec![8, 9]);
    let _ = list.front_back_split();
    assert_eq!(list.size(), 2);
    assert_eq!(list.into_vec(), vec![8, 9]);
}

#[test]
fn sort_then_merge_exact_output() {
    let a = from_vec(vec![9, 3, 1, 5, 7]);
    let b = from_vec(vec![2, 6, 4, 10, 8]);
    let merged = sort_then_merge(a, b);
    assert_eq!(merged.size(), 10);
    let out = merged.into_vec();
    assert_eq!(out, vec![1, 2, 3, 4, 5, 6, 7, 8, 9, 10]);
    for w in out.windows(2) {
        assert!(w[0] < w[1]);
    }
}

#[test]
fn sort_then_merge_with_empty_sides() {
    let merged = sort_then_merge(new::<i32>(), from_vec(vec![3, 1, 2]));
    assert_eq!(merged.into_vec(), vec![1, 2, 3]);
    let merged = sort_then_merge(from_vec(vec![2, 1]), new::<i32>());
    assert_eq!(merged.into_vec(), vec![1, 2]);
    let merged = sort_then_merge(new::<i32>(), new::<i32>());
    assert_eq!(merged.size(), 0);
}

#[test]
fn sort_then_merge_keeps_duplicates() {
    let a = from_vec(vec![2, 2, 1]);
    let b = from_vec(vec![2, 3]);
    let merged = sort_then_merge(a, b);
    assert_eq!(merged.into_vec(), vec![1, 2, 2, 2, 3]);
}

#[test]
fn sort_vec_sorts_ascending() {
    let sorted = sort_vec(vec![5, 1, 4, 1, 3]);
    assert_eq!(sorted, vec![1, 1, 3, 4, 5]);
    let empty: Vec<i32> = sort_vec(Vec::new());
    assert!(empty.is_empty());
}

#[test]
fn merge_sorted_interleaves_two_runs() {
    let merged: linked_list::list::List<i32> = merge_sorted(vec![1, 4, 6], vec![2, 3, 5]);
    assert_eq!(merged.into_vec(), vec![1, 2, 3, 4, 5, 6]);
}
