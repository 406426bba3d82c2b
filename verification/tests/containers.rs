use sorted_array::{
    binary_search_range, from_array_unchecked, from_boxed_slice_unchecked,
    from_mut_slice_unchecked, from_slice_unchecked, from_vec_unchecked, lower_bound,
    sort_array, sort_array_unstable, sort_boxed_slice, sort_mut_slice, sort_mut_slice_unstable,
    sort_vec, upper_bound, Comparator, OrdComparator, SortedArray, SortedSlice, SortedSliceMut,
    SortedVec, WeakBorrow,
};
use std::cmp::Ordering;

/// Orders pairs by their first component only.
struct ByFirst;

impl Comparator<(i32, i32)> for ByFirst {
    fn compare(x: &(i32, i32), y: &(i32, i32)) -> Ordering {
        x.0.cmp(&y.0)
    }
}

impl Comparator<i32> for ByFirst {
    fn compare(x: &i32, y: &i32) -> Ordering {
        x.cmp(y)
    }
}

struct Entry {
    key: i32,
    name: &'static str,
}

impl WeakBorrow<i32> for Entry {
    fn weak_borrow(&self) -> &i32 {
        &self.key
    }
}

struct ByKey;

impl Comparator<Entry> for ByKey {
    fn compare(x: &Entry, y: &Entry) -> Ordering {
        x.key.cmp(&y.key)
    }
}

impl Comparator<i32> for ByKey {
    fn compare(x: &i32, y: &i32) -> Ordering {
        x.cmp(y)
    }
}

#[test]
fn ord_comparator_follows_the_natural_order() {
    assert_eq!(<OrdComparator as Comparator<i32>>::compare(&1, &2), Ordering::Less);
    assert_eq!(<OrdComparator as Comparator<i32>>::compare(&2, &2), Ordering::Equal);
    assert_eq!(<OrdComparator as Comparator<i32>>::compare(&3, &2), Ordering::Greater);
}

#[test]
fn weak_borrow_of_a_value_is_the_value() {
    let x: i32 = 7;
    let seen: &i32 = x.weak_borrow();
    assert_eq!(*seen, 7);
}

#[test]
fn range_search_bounds_on_the_keys_array() {
    let keys = [1, 2, 3, 3, 3, 4, 4, 6];
    assert_eq!(binary_search_range(&keys, |it| it.cmp(&3)), (2, 5));
    assert_eq!(binary_search_range(&keys, |it| it.cmp(&5)), (7, 7));
    assert_eq!(binary_search_range(&keys, |it| it.cmp(&0)), (0, 0));
    assert_eq!(binary_search_range(&keys, |it| it.cmp(&7)), (8, 8));
}

#[test]
fn range_search_edge_cases() {
    let empty: [i32; 0] = [];
    assert_eq!(binary_search_range(&empty, |it| it.cmp(&3)), (0, 0));
    let all = [5, 5, 5, 5];
    assert_eq!(binary_search_range(&all, |it| it.cmp(&9)), (4, 4));
    assert_eq!(binary_search_range(&all, |it| it.cmp(&1)), (0, 0));
    assert_eq!(binary_search_range(&all, |it| it.cmp(&5)), (0, 4));
}

#[test]
fn lower_and_upper_bound_are_the_edges_of_the_band() {
    let keys = [1, 2, 3, 3, 3, 4, 4, 6];
    let probe = |it: &i32| it.cmp(&3);
    assert_eq!(lower_bound(&keys, &probe), 2);
    assert_eq!(upper_bound(&keys, &probe), 5);
    let absent = |it: &i32| it.cmp(&5);
    assert_eq!(lower_bound(&keys, &absent), 7);
    assert_eq!(upper_bound(&keys, &absent), 7);
}

#[test]
fn sort_vec_sorts_and_keeps_equal_elements_in_order() {
    let v: SortedVec<(i32, i32), ByFirst> =
        sort_vec(vec![(4, 2), (1, 0), (2, 2), (6, 3), (4, 1), (1, 9)]);
    assert_eq!(
        v.as_slice(),
        &[(1, 0), (1, 9), (2, 2), (4, 2), (4, 1), (6, 3)]
    );
    assert_eq!(v.len(), 6);
}

#[test]
fn insert_goes_behind_the_last_equal_element() {
    let mut v: SortedVec<(i32, i32), ByFirst> =
        sort_vec(vec![(1, 0), (4, 1), (4, 2), (4, 3), (4, 4), (4, 5), (6, 0)]);
    v.insert((4, 99));
    assert_eq!(
        v.as_slice(),
        &[(1, 0), (4, 1), (4, 2), (4, 3), (4, 4), (4, 5), (4, 99), (6, 0)]
    );
    v.insert((0, 7));
    v.insert((9, 7));
    assert_eq!(v.as_slice()[0], (0, 7));
    assert_eq!(v.as_slice()[9], (9, 7));
    assert_eq!(v.len(), 10);
}

#[test]
fn insert_into_an_empty_container() {
    let mut v: SortedVec<i32> = SortedVec::new();
    assert_eq!(v.len(), 0);
    v.insert(3);
    v.insert(1);
    v.insert(2);
    v.insert(2);
    assert_eq!(v.as_slice(), &[1, 2, 2, 3]);
}

#[test]
fn remove_takes_the_element_at_the_index() {
    let mut v: SortedVec<i32> = sort_vec(vec![5, 1, 3]);
    assert_eq!(v.remove(1), 3);
    assert_eq!(v.as_slice(), &[1, 5]);
}

#[test]
fn remove_item_takes_a_match_or_nothing() {
    let mut v: SortedVec<i32> = sort_vec(vec![5, 1, 3, 3]);
    assert_eq!(v.remove_item(&3), Some(3));
    assert_eq!(v.as_slice(), &[1, 3, 5]);
    assert_eq!(v.remove_item(&4), None);
    assert_eq!(v.as_slice(), &[1, 3, 5]);
}

#[test]
fn remove_item_by_a_narrower_value() {
    let mut v: SortedVec<Entry, ByKey> = sort_vec(vec![
        Entry { key: 3, name: "c" },
        Entry { key: 1, name: "a" },
        Entry { key: 2, name: "b" },
    ]);
    let taken = v.remove_item(&2);
    assert_eq!(taken.map(|e| e.name), Some("b"));
    assert_eq!(v.len(), 2);
    assert!(v.as_sorted_slice().contains(&3));
    assert!(!v.as_sorted_slice().contains(&2));
    assert_eq!(v.as_sorted_slice().find(&1).map(|e| e.name), Some("a"));
}

#[test]
fn extend_sorts_the_whole_again() {
    let mut v: SortedVec<i32> = sort_vec(vec![1, 7, 3]);
    v.extend(vec![4, 6]);
    assert_eq!(v.as_slice(), &[1, 3, 4, 6, 7]);
    let plain = v.into_vec();
    assert_eq!(plain, vec![1, 3, 4, 6, 7]);
}

#[test]
fn views_show_the_container_as_it_is() {
    let mut v: SortedVec<i32> = sort_vec(vec![2, 9, 4]);
    assert_eq!(v.as_sorted_slice().as_slice(), v.as_slice());
    assert_eq!(v.as_mut_sorted_slice().as_slice(), &[2, 4, 9]);
    let unchecked: SortedVec<i32> = from_vec_unchecked(vec![1, 2, 3]);
    assert_eq!(unchecked.as_slice(), &[1, 2, 3]);
    let boxed = v.into_boxed_sorted_slice();
    assert_eq!(boxed.as_sorted_slice().as_slice(), &[2, 4, 9]);
    assert_eq!(&*boxed.into_boxed_slice(), &[2, 4, 9]);
}

#[test]
fn sorted_slice_point_lookups() {
    let data = [1, 2, 3, 3, 3, 4, 4, 6];
    let s: SortedSlice<i32> = from_slice_unchecked(&data);
    assert_eq!(s.len(), 8);
    assert!(!s.is_empty());
    assert!(s.contains(&4));
    assert!(!s.contains(&5));
    assert_eq!(s.find(&6), Some(&6));
    assert_eq!(s.find(&0), None);
    assert_eq!(s.find_by(|it| it.cmp(&2)), Some(&2));
    assert_eq!(s.find_by(|it| it.cmp(&7)), None);
    assert_eq!(s.find_by_key(&8, |it: &i32| it * 2), Some(&4));
    assert_eq!(s.find_by_key(&9, |it: &i32| it * 2), None);
    assert_eq!(s.iter().copied().collect::<Vec<i32>>(), data.to_vec());
}

#[test]
fn sorted_slice_range_lookups() {
    let data = [1, 2, 3, 3, 3, 4, 4, 6];
    let mut s: SortedSlice<i32> = from_slice_unchecked(&data);
    assert_eq!(s.find_range(&3).as_slice(), &[3, 3, 3]);
    assert_eq!(s.find_range(&5).as_slice(), &[] as &[i32]);
    assert_eq!(s.find_range_by(|it| it.cmp(&4)).as_slice(), &[4, 4]);
    assert_eq!(s.find_range_by_key(&12, |it: &i32| it * 2).as_slice(), &[6]);
    assert_eq!(s.find_mut_range(&3).as_slice(), &[3, 3, 3]);
    assert_eq!(s.find_mut_range_by(|it| it.cmp(&1)).as_slice(), &[1]);
    assert_eq!(s.find_mut_range_by_key(&4, |it: &i32| it * 2).as_slice(), &[2]);
    assert_eq!(s.as_slice(), &data);
}

#[test]
fn range_lookup_on_an_empty_view() {
    let data: [i32; 0] = [];
    let s: SortedSlice<i32> = from_slice_unchecked(&data);
    assert!(s.is_empty());
    assert_eq!(s.find_range(&1).len(), 0);
    assert_eq!(s.find(&1), None);
}

#[test]
fn sorted_slice_indexing() {
    let data = [10, 20, 30, 40, 50];
    let s: SortedSlice<i32> = from_slice_unchecked(&data);
    assert_eq!(*s.index(2), 30);
    assert_eq!(s.index_range(1, 3).as_slice(), &[20, 30]);
    assert_eq!(s.index_range(2, 2).as_slice(), &[] as &[i32]);
    assert_eq!(s.index_range_from(3).as_slice(), &[40, 50]);
    assert_eq!(s.index_range_to(2).as_slice(), &[10, 20]);
    assert_eq!(s.index_range_full().as_slice(), &data);
    assert_eq!(s.index_range_inclusive(1, 3).as_slice(), &[20, 30, 40]);
    assert_eq!(s.index_range_to_inclusive(1).as_slice(), &[10, 20]);
}

#[test]
fn sorting_a_borrowed_slice_in_place() {
    let mut data = [(2, 1), (1, 1), (2, 0), (1, 0)];
    {
        let s: SortedSliceMut<(i32, i32), ByFirst> = sort_mut_slice(&mut data);
        assert_eq!(s.as_slice(), &[(1, 1), (1, 0), (2, 1), (2, 0)]);
    }
    assert_eq!(data, [(1, 1), (1, 0), (2, 1), (2, 0)]);

    let mut plain = [3, 1, 2];
    {
        let s: SortedSliceMut<i32> = sort_mut_slice_unstable(&mut plain);
        assert_eq!(s.as_slice(), &[1, 2, 3]);
    }
    assert_eq!(plain, [1, 2, 3]);

    let mut kept = [1, 2, 3];
    let s: SortedSliceMut<i32> = from_mut_slice_unchecked(&mut kept);
    assert_eq!(s.as_slice(), &[1, 2, 3]);
}

#[test]
fn sorting_a_boxed_slice() {
    let boxed: Box<[(i32, i32)]> = vec![(2, 1), (1, 1), (2, 0), (1, 0)].into_boxed_slice();
    let sorted = sort_boxed_slice::<(i32, i32), ByFirst>(boxed);
    assert_eq!(
        sorted.as_sorted_slice().as_slice(),
        &[(1, 1), (1, 0), (2, 1), (2, 0)]
    );
    let kept = from_boxed_slice_unchecked::<i32, OrdComparator>(vec![1, 2].into_boxed_slice());
    assert_eq!(kept.as_sorted_slice().as_slice(), &[1, 2]);
}

#[test]
fn sorted_arrays() {
    let a: SortedArray<(i32, i32), 4, ByFirst> = sort_array([(2, 1), (1, 1), (2, 0), (1, 0)]);
    assert_eq!(a.as_slice(), &[(1, 1), (1, 0), (2, 1), (2, 0)]);

    let mut b: SortedArray<i32, 5> = sort_array_unstable([5, 3, 1, 4, 2]);
    assert_eq!(b.as_slice(), &[1, 2, 3, 4, 5]);
    assert_eq!(b.as_sorted_slice().find_range(&3).as_slice(), &[3]);
    assert_eq!(b.as_mut_sorted_slice().as_slice(), &[1, 2, 3, 4, 5]);
    let boxed = b.into_boxed_sorted_slice();
    assert_eq!(boxed.as_sorted_slice().as_slice(), &[1, 2, 3, 4, 5]);

    let c: SortedArray<i32, 3> = from_array_unchecked([1, 2, 3]);
    assert_eq!(c.as_sorted_slice().as_slice(), c.as_slice());
    assert_eq!(c.into_array(), [1, 2, 3]);
}

#[test]
fn raw_mutable_access_writes_through() {
    let mut v: SortedVec<i32> = sort_vec(vec![3, 1, 2]);
    v.as_mut_slice()[2] = 10;
    assert_eq!(v.as_slice(), &[1, 2, 10]);

    let mut a: SortedArray<i32, 3> = sort_array([3, 1, 2]);
    a.as_mut_slice()[0] = 0;
    assert_eq!(a.as_slice(), &[0, 2, 3]);
}

#[test]
fn clones_and_defaults() {
    let v: SortedVec<i32> = sort_vec(vec![3, 1, 2]);
    let w = v.clone();
    assert_eq!(w.as_slice(), v.as_slice());
    let d: SortedVec<i32> = SortedVec::default();
    assert_eq!(d.len(), 0);
    let a: SortedArray<i32, 3> = sort_array([3, 1, 2]);
    assert_eq!(a.clone().as_slice(), &[1, 2, 3]);
    let data = [1, 2, 3];
    let s: SortedSlice<i32> = from_slice_unchecked(&data);
    let t = s;
    assert_eq!(s.as_slice(), t.as_slice());
}

#[test]
fn default_array_holds_default_values() {
    let a: SortedArray<i32, 4> = SortedArray::default();
    assert_eq!(a.as_slice(), &[0, 0, 0, 0]);
    let e: SortedArray<i32, 0> = SortedArray::default();
    assert_eq!(e.as_slice().len(), 0);
}

#[test]
fn writing_through_the_band_of_a_writable_view() {
    let mut v: SortedVec<(i32, i32), ByFirst> =
        sort_vec(vec![(1, 0), (4, 1), (4, 2), (6, 0)]);
    {
        let mut band = v.as_mut_sorted_slice().find_mut_range(&(4, 0));
        assert_eq!(band.len(), 2);
        assert_eq!(band.as_slice(), &[(4, 1), (4, 2)]);
        for pair in band.as_mut_slice().iter_mut() {
            pair.1 += 10;
        }
        assert_eq!(band.as_sorted_slice().as_slice(), &[(4, 11), (4, 12)]);
    }
    assert_eq!(v.as_slice(), &[(1, 0), (4, 11), (4, 12), (6, 0)]);

    let mut data = [1, 2, 2, 3, 5];
    {
        let view: SortedSliceMut<i32> = from_mut_slice_unchecked(&mut data);
        let mut twos = view.find_mut_range_by(|it| it.cmp(&2));
        twos.as_mut_slice()[1] = 3;
    }
    assert_eq!(data, [1, 2, 3, 3, 5]);
    {
        let view: SortedSliceMut<i32> = from_mut_slice_unchecked(&mut data);
        let mut sixes = view.find_mut_range_by_key(&6, |it: &i32| it * 2);
        assert_eq!(sixes.len(), 2);
        sixes.as_mut_slice()[0] = 2;
    }
    assert_eq!(data, [1, 2, 2, 3, 5]);
    {
        let view: SortedSliceMut<i32> = from_mut_slice_unchecked(&mut data);
        let mut tail = view.index_mut_range(3, 5);
        tail.as_mut_slice()[1] = 9;
    }
    assert_eq!(data, [1, 2, 2, 3, 9]);
}
