use heap_lib::heap::{left_child_of, parent_of, right_child_of};
use heap_lib::random::{get_random, pick, ChoiceSource, ThreadRandom};
use heap_lib::{Heap, ParentChildRelation};

fn contents<T: Ord + Clone>(heap: &Heap<T>) -> Vec<T> {
    heap.iter().cloned().collect()
}

fn assert_heap_property(heap: &Heap<i32>, min_on_top: bool) {
    let v = contents(heap);
    for i in 0..v.len() {
        for c in [2 * i + 1, 2 * i + 2] {
            if c < v.len() {
                if min_on_top {
                    assert!(v[i] <= v[c], "{:?}", v);
                } else {
                    assert!(v[i] >= v[c], "{:?}", v);
                }
            }
        }
    }
}

fn drain(heap: &mut Heap<i32>) -> Vec<i32> {
    let mut out = Vec::new();
    while let Some(x) = heap.extract_top() {
        out.push(x);
    }
    out
}

/// A small deterministic generator for the randomised checks.
fn next(state: &mut u64) -> i32 {
    *state = state.wrapping_mul(6364136223846793005).wrapping_add(1442695040888963407);
    ((*state >> 33) % 201) as i32 - 100
}

#[test]
fn min_heap_top_is_least() {
    let mut heap = Heap::new_min(5);
    heap.insert_all(&[3, 2, 5, 4, 7]);
    assert_eq!(heap.find_top(), Some(&2));
}

#[test]
fn max_heap_top_is_greatest() {
    let mut heap = Heap::new_max(5);
    heap.insert_all(&[3, 2, 5, 4, 7]);
    assert_eq!(heap.find_top(), Some(&7));
}

#[test]
fn min_heap_extracts_in_ascending_order() {
    let mut heap = Heap::new_min(5);
    heap.insert_all(&[3, 2, 5, 4, 7]);
    let out: Vec<i32> = (0..5).map(|_| heap.extract_top().unwrap()).collect();
    assert_eq!(out, vec![2, 3, 4, 5, 7]);
    assert!(heap.is_empty());
}

#[test]
fn max_heap_extracts_in_descending_order() {
    let mut heap = Heap::new_max(0);
    heap.insert_all(&[3, 2, 5, 4, 7]);
    assert_eq!(drain(&mut heap), vec![7, 5, 4, 3, 2]);
}

#[test]
fn empty_heap_reports_no_value() {
    let mut heap: Heap<i32> = Heap::new_min(4);
    assert_eq!(heap.find_top(), None);
    assert_eq!(heap.extract_top(), None);
    assert_eq!(heap.len(), 0);
    assert!(heap.is_empty());
    let mut heap: Heap<i32> = Heap::new_max(0);
    assert_eq!(heap.extract_top(), None);
    assert_eq!(heap.len(), 0);
}

#[test]
fn duplicates_are_counted() {
    let mut heap = Heap::new_min(3);
    heap.insert_all(&[4, 4, 4]);
    assert_eq!(heap.occurrence_of(Some(&4)), 3);
    assert_eq!(heap.extract_top(), Some(4));
    assert_eq!(heap.occurrence_of(Some(&4)), 2);
    assert_eq!(heap.occurrence_of(Some(&5)), 0);
    assert_eq!(heap.occurrence_of(None), 0);
}

#[test]
fn emptied_heap_has_no_top() {
    let mut heap = Heap::new_min(2);
    heap.insert(1);
    assert_eq!(heap.extract_top(), Some(1));
    assert_eq!(heap.find_top(), None);
    heap.insert(9);
    assert_eq!(heap.find_top(), Some(&9));
}

#[test]
fn heap_property_holds_after_mixed_operations() {
    let mut state = 7u64;
    for &min_on_top in &[true, false] {
        let mut heap = if min_on_top { Heap::new_min(0) } else { Heap::new_max(0) };
        for _ in 0..500 {
            let x = next(&mut state);
            if x < -30 {
                heap.extract_top();
            } else {
                heap.insert(x);
            }
            assert_heap_property(&heap, min_on_top);
        }
    }
}

#[test]
fn top_is_extreme_of_contents() {
    let mut state = 11u64;
    for n in 1..60 {
        let values: Vec<i32> = (0..n).map(|_| next(&mut state)).collect();
        let mut min_heap = Heap::new_min(n);
        min_heap.insert_all(&values);
        let mut max_heap = Heap::new_max(n);
        max_heap.insert_all(&values);
        assert_eq!(min_heap.find_top(), values.iter().min());
        assert_eq!(max_heap.find_top(), values.iter().max());
        assert_eq!(min_heap.find_top(), min_heap.iter().min());
        assert_eq!(max_heap.find_top(), max_heap.iter().max());
    }
}

#[test]
fn extraction_reduces_count_of_top_by_one() {
    let mut state = 3u64;
    let values: Vec<i32> = (0..200).map(|_| next(&mut state) % 5).collect();
    let mut heap = Heap::new_max(0);
    heap.insert_all(&values);
    while !heap.is_empty() {
        let top = heap.find_top().cloned();
        let before = heap.occurrence_of(top.as_ref());
        let size = heap.len();
        let extracted = heap.extract_top();
        assert_eq!(extracted, top);
        assert_eq!(heap.occurrence_of(top.as_ref()), before - 1);
        assert_eq!(heap.len(), size - 1);
        assert_heap_property(&heap, false);
    }
}

#[test]
fn insertion_order_does_not_change_contents_or_output() {
    let values = vec![5, -1, 8, 8, 0, 3, -7, 2, 2, 9];
    let mut reversed = values.clone();
    reversed.reverse();
    let mut sorted = values.clone();
    sorted.sort();

    let mut a = Heap::new_min(0);
    a.insert_all(&values);
    let mut b = Heap::new_min(0);
    b.insert_all(&reversed);
    let mut ca = contents(&a);
    let mut cb = contents(&b);
    ca.sort();
    cb.sort();
    assert_eq!(ca, sorted);
    assert_eq!(cb, sorted);
    assert_eq!(a.find_top(), b.find_top());
    assert_eq!(drain(&mut a), sorted);
    assert_eq!(drain(&mut b), sorted);
}

#[test]
fn random_contents_drain_sorted() {
    let mut state = 42u64;
    for n in 0..80 {
        let values: Vec<i32> = (0..n).map(|_| next(&mut state) % 7).collect();
        let mut asc = values.clone();
        asc.sort();
        let mut desc = asc.clone();
        desc.reverse();
        let mut min_heap = Heap::new_min(n);
        min_heap.insert_all(&values);
        let mut max_heap = Heap::new_max(n);
        max_heap.insert_all(&values);
        assert_eq!(drain(&mut min_heap), asc);
        assert_eq!(drain(&mut max_heap), desc);
    }
}

#[test]
fn equal_children_keep_heap_valid() {
    for _ in 0..50 {
        let mut heap = Heap::new_min(0);
        heap.insert_all(&[1, 5, 5, 6, 7, 8, 9]);
        assert_eq!(heap.extract_top(), Some(1));
        assert_heap_property(&heap, true);
        assert_eq!(drain(&mut heap), vec![5, 5, 6, 7, 8, 9]);
    }
}

#[test]
fn iter_walks_live_elements_in_array_order() {
    let mut heap = Heap::new_min(4);
    heap.insert_all(&[3, 1, 2]);
    assert_eq!(contents(&heap), vec![1, 3, 2]);
    heap.extract_top();
    assert_eq!(contents(&heap), vec![2, 3]);
    assert_eq!(heap.iter().count(), 2);
    assert_eq!(heap.iter().count(), 2);
}

#[test]
fn debug_shows_elements_and_relation() {
    let mut heap = Heap::new_max(2);
    heap.insert(1);
    heap.insert(2);
    let text = format!("{:?}", heap);
    assert!(text.contains("[2, 1]"), "{}", text);
    assert!(text.contains("Greater"), "{}", text);
}

#[test]
fn relation_compares_in_its_direction() {
    assert!(ParentChildRelation::Smaller.rel(&1, &2));
    assert!(!ParentChildRelation::Smaller.rel(&2, &1));
    assert!(ParentChildRelation::Smaller.rel(&2, &2));
    assert!(ParentChildRelation::Greater.rel(&2, &1));
    assert!(!ParentChildRelation::Greater.rel(&1, &2));
    assert!(ParentChildRelation::Greater.rel(&2, &2));
}

#[test]
fn child_and_parent_indices() {
    assert_eq!(parent_of(0), 0);
    assert_eq!(parent_of(1), 0);
    assert_eq!(parent_of(2), 0);
    assert_eq!(parent_of(5), 2);
    assert_eq!(parent_of(6), 2);
    assert_eq!(left_child_of(2), 5);
    assert_eq!(right_child_of(2), 6);
}

#[test]
fn pick_takes_draw_modulo_count() {
    let v = vec![10, 20, 30];
    assert_eq!(pick(&v, 0), Some(10));
    assert_eq!(pick(&v, 4), Some(20));
    assert_eq!(pick(&v, 8), Some(30));
    let empty: Vec<u8> = Vec::new();
    assert_eq!(pick(&empty, 3), None);
}

#[test]
fn random_choice_is_a_candidate() {
    let v = vec![3usize, 8];
    let mut seen = [false, false];
    for _ in 0..200 {
        match get_random(&v, &mut ThreadRandom) {
            Some(3) => seen[0] = true,
            Some(8) => seen[1] = true,
            other => panic!("unexpected {:?}", other),
        }
    }
    assert!(seen[0] && seen[1]);
    let empty: Vec<usize> = Vec::new();
    assert_eq!(get_random(&empty, &mut ThreadRandom), None);
}

struct Fixed(usize);

impl ChoiceSource for Fixed {
    fn draw(&mut self) -> usize {
        self.0
    }
}

#[test]
fn injected_source_picks_between_equal_children() {
    let mut left = Heap::new_min(4);
    left.insert_all(&[1, 5, 5, 9]);
    assert_eq!(contents(&left), vec![1, 5, 5, 9]);
    assert_eq!(left.extract_top_with(&mut Fixed(0)), Some(1));
    assert_eq!(contents(&left), vec![5, 9, 5]);

    let mut right = Heap::new_min(4);
    right.insert_all(&[1, 5, 5, 9]);
    assert_eq!(right.extract_top_with(&mut Fixed(3)), Some(1));
    assert_eq!(contents(&right), vec![5, 5, 9]);
}

#[test]
fn unequal_children_ignore_the_source() {
    for d in 0..4 {
        let mut heap = Heap::new_max(4);
        heap.insert_all(&[9, 5, 7, 1]);
        assert_eq!(heap.extract_top_with(&mut Fixed(d)), Some(9));
        assert_eq!(contents(&heap), vec![7, 5, 1]);
    }
}

#[test]
fn get_random_follows_the_source() {
    let v = vec![4usize, 6, 8];
    assert_eq!(get_random(&v, &mut Fixed(0)), Some(4));
    assert_eq!(get_random(&v, &mut Fixed(5)), Some(8));
    let empty: Vec<usize> = Vec::new();
    assert_eq!(get_random(&empty, &mut Fixed(1)), None);
}
