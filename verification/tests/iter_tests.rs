use seglib::iter_ext::{
    accumulate, great_unzip, great_unzip3, group_by, group_by_key, product, repeat_app, sorted,
    sorted_by, IterExt,
};
use seglib::permutation::Permutatable;

#[test]
fn test_unzip() {
    let (a, b) = great_unzip(&vec![(0, 1), (1, 2), (2, 3)]);
    assert_eq!(a, vec![0, 1, 2]);
    assert_eq!(b, vec![1, 2, 3]);

    let (a, b, c) = great_unzip3(&vec![(0, 1, 2), (3, 4, 5), (6, 7, 8)]);
    assert_eq!(a, vec![0, 3, 6]);
    assert_eq!(b, vec![1, 4, 7]);
    assert_eq!(c, vec![2, 5, 8]);
}

#[test]
fn lib_test_accumulate() {
    let cum: Vec<i64> = accumulate(&vec![1, 2, 3], 1, |a: &i64, b: i64| a * b).vec();
    assert_eq!(cum, vec![1, 1, 2, 6]);
}

#[test]
fn test_accumulate() {
    let cum: Vec<i64> = accumulate(&vec![1, 2, 3], 1, |a: &i64, b: i64| a * b).vec();
    assert_eq!(cum, vec![1, 1, 2, 6]);
}

#[test]
fn accumulate_sums_stepwise() {
    let mut acc = accumulate(&vec![1, 2, 3], 0, |a: &i64, b: i64| a + b);
    assert_eq!(acc.next(), Some(0));
    assert_eq!(acc.next(), Some(1));
    assert_eq!(acc.next(), Some(3));
    assert_eq!(acc.next(), Some(6));
    assert_eq!(acc.next(), None);
}

#[test]
fn test_sorted() {
    let mut vec = vec![4, 7, 7, 2, 3, 2, 6, 32, 3, 6, 7, 55, 1, 2];
    let sorted_vec = sorted(&vec);
    vec.sort();
    assert_eq!(sorted_vec, vec);
}

#[test]
fn test_sorted_by() {
    let mut vec = vec![4, 7, 7, 2, 3, 2, 6, 32, 3, 6, 7, 55, 1, 2];
    let sorted_vec = sorted_by(&vec, |a, b| b.cmp(a));
    vec.sort_by(|a, b| b.cmp(a));
    assert_eq!(sorted_vec, vec);
}

#[test]
fn test_group_by_key() {
    let vec: Vec<i64> = vec![1, 2, 2, -3, -3, 0, 1, 2, 3, -2];
    let groups = group_by_key(&vec, |a: &i64| a.signum());
    assert_eq!(
        groups,
        vec![
            (1, vec![1, 2, 2]),
            (-1, vec![-3, -3]),
            (0, vec![0]),
            (1, vec![1, 2, 3]),
            (-1, vec![-2])
        ]
    );
}

#[test]
fn test_group_by() {
    let vec: Vec<i64> = vec![1, 2, 2, -3, -3, 0, 1, 2, 3, -2];
    let groups = group_by(&vec, |a, b| a < b);
    assert_eq!(
        groups,
        vec![
            vec![1, 2],
            vec![2],
            vec![-3],
            vec![-3, 0, 1, 2, 3],
            vec![-2]
        ]
    );
}

#[test]
fn test_product() {
    assert_eq!(
        product(&vec![0, 1, 2], &vec![1, 2]).vec(),
        vec![(0, 1), (0, 2), (1, 1), (1, 2), (2, 1), (2, 2)]
    );
}

#[test]
fn repeat_app_doubles() {
    let mut stream = repeat_app(1i64, |x: &i64| x * 2);
    assert_eq!(stream.next(), 1);
    assert_eq!(stream.next(), 2);
    assert_eq!(stream.next(), 4);
    assert_eq!(stream.next(), 8);
}

#[test]
fn vec_helpers() {
    let v: Vec<i64> = vec![3, 1, 2];
    assert_eq!(v.to_vec(), vec![3, 1, 2]);
    assert_eq!(v.rev_to_vec(), vec![2, 1, 3]);
    assert_eq!(v.vec(), vec![3, 1, 2]);
    assert_eq!(v.collect_vec(), vec![3, 1, 2]);
    assert_eq!(v.take_vec(2), vec![3, 1]);
    assert_eq!(v.take_vec(10), vec![3, 1, 2]);
}

#[test]
fn permutation_stepping() {
    let mut v: Vec<i64> = vec![1, 2, 3];
    assert!(v.next_permutation());
    assert_eq!(v, vec![1, 3, 2]);
    assert!(v.next_permutation());
    assert_eq!(v, vec![2, 1, 3]);
    assert!(v.prev_permutation());
    assert_eq!(v, vec![1, 3, 2]);
    let mut last: Vec<i64> = vec![3, 2, 1];
    assert!(!last.next_permutation());
    assert_eq!(last, vec![3, 2, 1]);

    let mut all = Vec::new();
    let mut iter = vec![2, 1, 3].permutations();
    while let Some(p) = iter.next() {
        all.push(p);
    }
    assert_eq!(
        all,
        vec![
            vec![1, 2, 3],
            vec![1, 3, 2],
            vec![2, 1, 3],
            vec![2, 3, 1],
            vec![3, 1, 2],
            vec![3, 2, 1]
        ]
    );

    let mut rev = Vec::new();
    let mut iter = vec![2, 1, 3].permutations_rev();
    while let Some(p) = iter.next() {
        rev.push(p);
    }
    assert_eq!(rev.len(), 6);
    assert_eq!(rev[0], vec![3, 2, 1]);
    assert_eq!(rev[5], vec![1, 2, 3]);

    let mut after = vec![3, 1, 2].permutations_after();
    assert_eq!(after.next(), Some(vec![3, 1, 2]));
    assert_eq!(after.next(), Some(vec![3, 2, 1]));
    assert_eq!(after.next(), None);

    let mut before = vec![1, 3, 2].permutations_before();
    assert_eq!(before.next(), Some(vec![1, 3, 2]));
    assert_eq!(before.next(), Some(vec![1, 2, 3]));
    assert_eq!(before.next(), None);
}
