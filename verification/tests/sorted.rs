use sorted_array::{binary_search_range, Sorted};

const TEST_ARRAY: [(i32, i32); 7] = [(1, 3), (3, 1), (2, 3), (2, 2), (2, 1), (3, 2), (5, 3)];

#[test]
fn test_find_by() {
    let array = Sorted::new(TEST_ARRAY);

    let cmp_fn = |n: i32| move |it: &(i32, i32)| Ord::cmp(&it.0, &n);

    assert_eq!(array.find_by(cmp_fn(0)).map(|(a, _)| a), None);
    assert_eq!(array.find_by(cmp_fn(1)).map(|(a, _)| a), Some(&1));
    assert_eq!(array.find_by(cmp_fn(2)).map(|(a, _)| a), Some(&2));
    assert_eq!(array.find_by(cmp_fn(3)).map(|(a, _)| a), Some(&3));
    assert_eq!(array.find_by(cmp_fn(4)).map(|(a, _)| a), None);
    assert_eq!(array.find_by(cmp_fn(5)).map(|(a, _)| a), Some(&5));
    assert_eq!(array.find_by(cmp_fn(6)).map(|(a, _)| a), None);
}

#[test]
fn test_find_range_by() {
    let array = Sorted::new(TEST_ARRAY);

    let cmp_fn = |n: i32| move |it: &(i32, i32)| Ord::cmp(&it.0, &n);

    assert_eq!(array.find_range_by(cmp_fn(0)), &[]);
    assert_eq!(array.find_range_by(cmp_fn(1)), &[(1, 3)]);
    assert_eq!(array.find_range_by(cmp_fn(2)), &[(2, 1), (2, 2), (2, 3)]);
    assert_eq!(array.find_range_by(cmp_fn(3)), &[(3, 1), (3, 2)]);
    assert_eq!(array.find_range_by(cmp_fn(4)), &[]);
    assert_eq!(array.find_range_by(cmp_fn(5)), &[(5, 3)]);
    assert_eq!(array.find_range_by(cmp_fn(6)), &[]);
}

#[test]
fn test_find_by_key() {
    let array = Sorted::new(TEST_ARRAY);

    let key_fn = |item: &(i32, i32)| item.0;

    assert_eq!(array.find_by_key(&0, key_fn).map(|(a, _)| a), None);
    assert_eq!(array.find_by_key(&1, key_fn).map(|(a, _)| a), Some(&1));
    assert_eq!(array.find_by_key(&2, key_fn).map(|(a, _)| a), Some(&2));
    assert_eq!(array.find_by_key(&3, key_fn).map(|(a, _)| a), Some(&3));
    assert_eq!(array.find_by_key(&4, key_fn).map(|(a, _)| a), None);
    assert_eq!(array.find_by_key(&5, key_fn).map(|(a, _)| a), Some(&5));
    assert_eq!(array.find_by_key(&6, key_fn).map(|(a, _)| a), None);
}

#[test]
fn test_find_range_by_key() {
    let array = Sorted::new(TEST_ARRAY);

    let key_fn = |item: &(i32, i32)| item.0;

    assert_eq!(array.find_range_by_key(&0, key_fn), &[]);
    assert_eq!(array.find_range_by_key(&1, key_fn), &[(1, 3)]);
    assert_eq!(
        array.find_range_by_key(&2, key_fn),
        &[(2, 1), (2, 2), (2, 3)]
    );
    assert_eq!(array.find_range_by_key(&3, key_fn), &[(3, 1), (3, 2)]);
    assert_eq!(array.find_range_by_key(&4, key_fn), &[]);
    assert_eq!(array.find_range_by_key(&5, key_fn), &[(5, 3)]);
    assert_eq!(array.find_range_by_key(&6, key_fn), &[]);
}

#[test]
fn test_insert() {
    let mut array = Sorted::new(Vec::new());

    array.insert(1);
    array.insert(4);
    array.insert(2);
    assert_eq!(array.as_slice(), &[1, 2, 4]);

    array.insert(5);
    array.insert(3);
    assert_eq!(array.as_slice(), &[1, 2, 3, 4, 5]);
}

#[test]
fn test_extend() {
    let mut array = Sorted::new(vec![1, 7, 3]);
    assert_eq!(array.as_slice(), &[1, 3, 7]);

    array.extend(vec![4, 6]);
    assert_eq!(array.as_slice(), &[1, 3, 4, 6, 7]);

    array.extend(vec![5, 2]);
    assert_eq!(array.as_slice(), &[1, 2, 3, 4, 5, 6, 7]);
}

#[test]
fn test_from_iterator() {
    let array: Sorted<Vec<_>, _> = Sorted::from_iter(vec![1, 7, 3, 2, 5]);
    assert_eq!(array.as_slice(), &[1, 2, 3, 5, 7]);
}

#[test]
fn test_iter() {
    let array = Sorted::new(vec![1, 7, 3, 2, 5]);
    assert_eq!(array.iter().collect::<Vec<_>>(), vec![&1, &2, &3, &5, &7]);
}

#[test]
fn test_binary_search_range() {
    let array = [1, 2, 3, 3, 3, 4, 4, 6];

    let cases = [
        (0, (0, 0)),
        (1, (0, 1)),
        (2, (1, 2)),
        (3, (2, 5)),
        (4, (5, 7)),
        (5, (7, 7)),
        (6, (7, 8)),
        (7, (8, 8)),
    ];

    for (input, expected) in &cases {
        assert_eq!(
            binary_search_range(&array, |it| Ord::cmp(it, input)),
            *expected
        );
    }
}

#[test]
fn pairs_sort_insert_and_range_by_first_component() {
    let mut sorted = Sorted::new(vec![(4, 2), (1, 0), (2, 2), (6, 3), (4, 1)]);
    assert_eq!(sorted.as_slice(), &[(1, 0), (2, 2), (4, 1), (4, 2), (6, 3)]);

    sorted.insert((3, 3));
    assert_eq!(
        sorted.as_slice(),
        &[(1, 0), (2, 2), (3, 3), (4, 1), (4, 2), (6, 3)]
    );

    assert_eq!(
        sorted.find_range_by_key(&4, |item: &(i32, i32)| item.0),
        &[(4, 1), (4, 2)]
    );
}

#[test]
fn new_assume_sorted_keeps_the_elements_as_given() {
    let sorted = Sorted::new_assume_sorted(vec![1, 2, 2, 9]);
    assert_eq!(sorted.as_slice(), &[1, 2, 2, 9]);
    assert_eq!(sorted.to_slice().as_slice(), sorted.as_slice());
}

#[test]
fn to_slice_mut_leaves_the_vector_as_it_was() {
    let mut sorted = Sorted::new(vec![3, 1, 2]);
    assert_eq!(sorted.to_slice_mut().as_slice(), &[1, 2, 3]);
    assert_eq!(sorted.as_slice(), &[1, 2, 3]);
}

#[test]
fn clone_of_a_sorted_vector() {
    let sorted = Sorted::new(vec![2, 1]);
    assert_eq!(sorted.clone().as_slice(), &[1, 2]);
}

#[test]
fn sorted_over_an_array_and_over_a_boxed_slice() {
    let mut over_array = Sorted::new([3, 1, 2]);
    assert_eq!(over_array.as_slice(), &[1, 2, 3]);
    {
        let mut view = over_array.to_slice_mut();
        view.as_mut_slice()[2] = 7;
    }
    assert_eq!(over_array.as_slice(), &[1, 2, 7]);

    let boxed: Box<[i32]> = vec![9, 8].into_boxed_slice();
    let over_box = Sorted::new(boxed);
    assert_eq!(over_box.as_slice(), &[8, 9]);
    assert_eq!(over_box.find_by(|it| it.cmp(&9)), Some(&9));
}
