use dsa_exercises::keyed::Tagged;
use dsa_exercises::linked_list::LinkedList;

#[test]
fn test_merge_linked_list() {
    let mut list_a = LinkedList::<i32>::new();
    let mut list_b = LinkedList::<i32>::new();
    let vec_a = vec![1, 3, 5, 7];
    let vec_b = vec![2, 4, 6, 8];
    let target_vec = vec![1, 2, 3, 4, 5, 6, 7, 8];

    for &i in &vec_a {
        list_a.add(i);
    }
    for &i in &vec_b {
        list_b.add(i);
    }

    let merged_list = LinkedList::<i32>::merge(list_a, list_b);

    for (i, &target) in target_vec.iter().enumerate() {
        assert_eq!(target, *merged_list.get(i as i32).unwrap());
    }
}

#[test]
fn list_add_then_get() {
    let mut list = LinkedList::<i32>::new();
    let values = vec![10, -4, 0, 99];
    for &v in &values {
        list.add(v);
    }
    for (i, &v) in values.iter().enumerate() {
        assert_eq!(list.get(i as i32), Some(&v));
    }
    assert_eq!(list.get(-1), None);
    assert_eq!(list.get(4), None);
    assert_eq!(list.get(100), None);
}

#[test]
fn count_tracks_adds() {
    let mut list = LinkedList::<i32>::new();
    assert_eq!(list.len(), 0);
    for i in 0..25 {
        list.add(i);
        assert_eq!(list.len(), (i + 1) as usize);
    }
}

#[test]
fn fresh_list_is_empty() {
    let list = LinkedList::<i32>::new();
    assert_eq!(list.len(), 0);
    assert_eq!(list.get(0), None);
}

#[test]
fn merge_length_sums() {
    // Holds even when the inputs are not sorted.
    let mut a = LinkedList::<i32>::new();
    let mut b = LinkedList::<i32>::new();
    for &v in &[5, 1, 9] {
        a.add(v);
    }
    for &v in &[7, 7, 0, 2] {
        b.add(v);
    }
    let merged = LinkedList::merge(a, b);
    assert_eq!(merged.len(), 7);
}

#[test]
fn merge_interleaves_sorted() {
    let mut a = LinkedList::<i32>::new();
    let mut b = LinkedList::<i32>::new();
    for &v in &[-3, 4, 4, 20] {
        a.add(v);
    }
    for &v in &[-10, 4, 5] {
        b.add(v);
    }
    let merged = LinkedList::merge(a, b);
    let expected = [-10, -3, 4, 4, 4, 5, 20];
    assert_eq!(merged.len(), expected.len());
    let mut prev = i32::MIN;
    for (i, &want) in expected.iter().enumerate() {
        let got = *merged.get(i as i32).unwrap();
        assert_eq!(got, want);
        assert!(prev <= got);
        prev = got;
    }
}

#[test]
fn merge_tie_break_prefers_first() {
    // Two values with equal keys but different tags: the copy from the
    // first list must come out first.
    let mut a = LinkedList::<Tagged>::new();
    let mut b = LinkedList::<Tagged>::new();
    a.add(Tagged { key: 42, tag: 1 });
    b.add(Tagged { key: 42, tag: 2 });
    let merged = LinkedList::merge(a, b);
    assert_eq!(merged.len(), 2);
    assert_eq!(merged.get(0), Some(&Tagged { key: 42, tag: 1 }));
    assert_eq!(merged.get(1), Some(&Tagged { key: 42, tag: 2 }));
}

#[test]
fn merge_with_empty_inputs() {
    let mut a = LinkedList::<i32>::new();
    for &v in &[3, 8, 8, 11] {
        a.add(v);
    }
    let merged = LinkedList::merge(a, LinkedList::new());
    let expected = [3, 8, 8, 11];
    assert_eq!(merged.len(), expected.len());
    for (i, &want) in expected.iter().enumerate() {
        assert_eq!(merged.get(i as i32), Some(&want));
    }

    let both_empty = LinkedList::<i32>::merge(LinkedList::new(), LinkedList::new());
    assert_eq!(both_empty.len(), 0);
    assert_eq!(both_empty.get(0), None);
}

#[test]
fn render_list() {
    let mut list = LinkedList::<i32>::new();
    assert_eq!(list.render(), "");
    list.add(1);
    assert_eq!(list.render(), "1");
    list.add(2);
    list.add(3);
    assert_eq!(list.render(), "1, 2, 3");
}

#[test]
fn render_negative_values() {
    let mut list = LinkedList::<i32>::new();
    list.add(-7);
    list.add(i32::MIN);
    list.add(i32::MAX);
    list.add(0);
    assert_eq!(list.render(), "-7, -2147483648, 2147483647, 0");
}
