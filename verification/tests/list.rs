use tile_editor::list::List;

fn values(list: &List<u32>) -> Vec<u32> {
    list.iter().into_iter().copied().collect()
}

#[test]
fn new_list_is_empty() {
    let list: List<u32> = List::new();
    assert_eq!(list.len(), 0);
    assert_eq!(list.get(0), None);
    assert!(list.iter().is_empty());
}

#[test]
fn default_list_is_empty() {
    let list: List<u32> = List::default();
    assert_eq!(list.len(), 0);
}

#[test]
fn list_from_vec_keeps_order() {
    let list = List::from(vec![3u32, 1, 2]);
    assert_eq!(list.len(), 3);
    assert_eq!(values(&list), vec![3, 1, 2]);
    assert_eq!(list.get(0), Some(&3));
    assert_eq!(list.get(2), Some(&2));
    assert_eq!(list.get(3), None);
}

#[test]
fn with_length_fills_with_defaults() {
    let list: List<u32> = List::with_length(4);
    assert_eq!(values(&list), vec![0, 0, 0, 0]);
    let none: List<Option<usize>> = List::with_length(2);
    assert_eq!(none.get(0), Some(&None));
    assert_eq!(none.get(1), Some(&None));
    let empty: List<u32> = List::with_length(0);
    assert_eq!(empty.len(), 0);
}

#[test]
fn push_front_puts_value_first() {
    let list = List::from(vec![1u32, 2]);
    let longer = list.push_front(9);
    assert_eq!(values(&longer), vec![9, 1, 2]);
    assert_eq!(values(&list), vec![1, 2]);
}

#[test]
fn push_back_puts_value_last() {
    let list = List::from(vec![1u32, 2]);
    let longer = list.push_back(9);
    assert_eq!(values(&longer), vec![1, 2, 9]);
    assert_eq!(values(&list), vec![1, 2]);
}

#[test]
fn push_on_empty_list() {
    let list: List<u32> = List::new();
    assert_eq!(values(&list.push_front(5)), vec![5]);
    assert_eq!(values(&list.push_back(6)), vec![6]);
}

#[test]
fn set_replaces_one_element() {
    let list = List::from(vec![1u32, 2, 3]);
    let changed = list.set(1, 7).unwrap();
    assert_eq!(values(&changed), vec![1, 7, 3]);
    assert_eq!(values(&list), vec![1, 2, 3]);
    assert!(!changed.same(&list));
    assert!(changed != list);
}

#[test]
fn set_at_first_and_last_index() {
    let list = List::from(vec![1u32, 2, 3]);
    assert_eq!(values(&list.set(0, 8).unwrap()), vec![8, 2, 3]);
    assert_eq!(values(&list.set(2, 9).unwrap()), vec![1, 2, 9]);
}

#[test]
fn set_out_of_range_fails() {
    let list = List::from(vec![1u32, 2, 3]);
    assert!(list.set(3, 7).is_none());
    assert!(list.set(usize::MAX, 7).is_none());
    let empty: List<u32> = List::new();
    assert!(empty.set(0, 1).is_none());
}

#[test]
fn set_of_equal_value_returns_the_list_itself() {
    let list = List::from(vec![1u32, 2, 3]);
    let kept = list.set(1, 2).unwrap();
    assert!(kept.same(&list));
    assert!(kept == list);
    assert_eq!(values(&kept), vec![1, 2, 3]);
}

#[test]
fn assign_tells_whether_it_replaced() {
    let list = List::from(vec![1u32, 2, 3]);
    let (kept, replaced) = list.assign(2, 3).unwrap();
    assert!(!replaced);
    assert!(kept.same(&list));
    let (changed, replaced) = list.assign(2, 4).unwrap();
    assert!(replaced);
    assert_eq!(values(&changed), vec![1, 2, 4]);
    assert!(list.assign(3, 4).is_none());
}

#[test]
fn clone_is_the_same_list() {
    let list = List::from(vec![1u32, 2, 3]);
    let clone = list.clone();
    assert!(clone.same(&list));
    assert!(list.same(&clone));
    assert!(clone == list);
    assert_eq!(values(&clone), vec![1, 2, 3]);
}

#[test]
fn lists_built_apart_are_not_the_same() {
    let a = List::from(vec![1u32, 2, 3]);
    let b = List::from(vec![1u32, 2, 3]);
    assert!(!a.same(&b));
    assert!(a != b);
    let e1: List<u32> = List::new();
    let e2: List<u32> = List::new();
    assert!(e1 != e2);
}

#[test]
fn list_is_the_same_as_itself() {
    let list = List::from(vec![1u32]);
    assert!(list.same(&list));
}

#[test]
fn nested_list_set_compares_rows_by_storage() {
    let row_a = List::from(vec![1u32, 2]);
    let row_b = List::from(vec![3u32, 4]);
    let rows = List::from(vec![row_a.clone(), row_b.clone()]);
    let kept = rows.set(0, row_a.clone()).unwrap();
    assert!(kept.same(&rows));
    let equal_content = List::from(vec![1u32, 2]);
    let changed = rows.set(0, equal_content).unwrap();
    assert!(!changed.same(&rows));
    assert!(changed.get(1).unwrap().same(&row_b));
}

#[test]
fn iter_borrows_every_element_in_order() {
    let list = List::from(vec![String::from("a"), String::from("b")]);
    let elements = list.iter();
    assert_eq!(elements.len(), 2);
    assert_eq!(elements[0], "a");
    assert_eq!(elements[1], "b");
}
