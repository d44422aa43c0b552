use linked_list::list::{from_vec, new, List};

#[test]
fn find_and_contains_agree_on_present_element() {
    let list = from_vec(vec![1, 3, 3, 5]);
    let found = list.find(&3);
    assert_eq!(found, Some(1));
    assert_eq!(list.at(1), Some(&3));
    assert!(list.contains(&3));
}

#[test]
fn find_and_contains_agree_on_absent_element() {
    let list = from_vec(vec![1, 3, 5]);
    assert_eq!(list.find(&4), None);
    assert!(!list.contains(&4));
}

#[test]
fn find_reports_first_of_equal_elements() {
    let list = from_vec(vec![9, 7, 9, 7]);
    assert_eq!(list.find(&7), Some(1));
    assert_eq!(list.find(&9), Some(0));
}

#[test]
fn queries_on_empty_list() {
    let empty: List<i32> = new();
    assert!(!empty.contains(&1));
    assert_eq!(empty.find(&1), None);
}

#[test]
fn iter_walks_without_consuming() {
    let list = from_vec(vec![4, 5, 6]);
    let mut it = list.iter();
    assert_eq!(it.next(), Some(&4));
    assert_eq!(it.next(), Some(&5));
    assert_eq!(it.next(), Some(&6));
    assert_eq!(it.next(), None);
    assert_eq!(it.next(), None);
    assert_eq!(list.size(), 3);
    assert_eq!(list.head(), Some(&4));
}

#[test]
fn iter_on_empty_list_ends_at_once() {
    let empty: List<i32> = new();
    let mut it = empty.iter();
    assert_eq!(it.next(), None);
}

#[test]
fn render_frames_and_separates() {
    let parts = vec!["1".to_string(), "2".to_string(), "3".to_string()];
    assert_eq!(linked_list::render::render(&parts), "[1, 2, 3]");
}

#[test]
fn render_of_nothing_is_empty_brackets() {
    let parts: Vec<String> = Vec::new();
    assert_eq!(linked_list::render::render(&parts), "[]");
    let one = vec!["7".to_string()];
    assert_eq!(linked_list::render::render(&one), "[7]");
}
