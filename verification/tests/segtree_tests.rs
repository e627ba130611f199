use seglib::algebra::{Additive, Max, Monoid};
use seglib::lazy_seg_tree::{LazySegTree, SumAdd, TreeOp};
use seglib::seg_tree::SegTree;

#[test]
fn lib_test() {
    let m1 = Max::new();
    let _ = m1;
    assert_eq!(Max::prod(&3, &5), 5);
    assert_eq!(Max::id(), 0);
}

#[test]
fn test() {
    let mut lst = LazySegTree::<SumAdd>::new(4);
    lst.operate(0, 3, &2);
    let snapshot: Vec<u32> = (0..4).map(|i| lst.get(i)).collect();
    assert_eq!(snapshot, vec![2, 2, 2, 0]);
    let snapshot: Vec<u32> = (0..4).map(|i| lst.get(i)).collect();
    assert_eq!(snapshot, vec![2, 2, 2, 0]);
    assert_eq!(lst.prod_range(0, 3), 6);
    assert_eq!(lst.get(0), 2);
}

#[test]
fn sum_tree_scenario() {
    let items: Vec<u64> = vec![1, 2, 3, 4, 5, 6, 7, 8, 9, 10];
    let mut tree = SegTree::<Additive>::from_vec(&items);
    assert_eq!(tree.prod_range(2, 5), 12);
    tree.set(0, 100);
    assert_eq!(tree.prod_range(0, 1), 100);
    assert_eq!(tree.prod_range(0, 10), 154);

    let tree = SegTree::<Additive>::from_vec(&items);
    assert_eq!(tree.max_end(0, |s: &u64| *s <= 15), 5);
}

#[test]
fn max_end_and_min_start() {
    let items: Vec<u64> = vec![1, 2, 3, 4, 5, 6, 7, 8, 9, 10];
    let tree = SegTree::<Additive>::from_vec(&items);
    assert_eq!(tree.max_end(2, |s: &u64| *s <= 12), 5);
    assert_eq!(tree.max_end(0, |s: &u64| *s <= 0), 0);
    assert_eq!(tree.max_end(10, |s: &u64| *s <= 0), 10);
    assert_eq!(tree.min_start(10, |s: &u64| *s <= 19), 8);
    assert_eq!(tree.min_start(0, |s: &u64| *s <= 19), 0);
    assert_eq!(tree.min_start(10, |s: &u64| *s <= 1000), 0);
}

#[test]
fn plain_tree_point_ops() {
    let mut tree = SegTree::<Max>::new(3);
    assert_eq!(tree.len(), 3);
    assert!(!tree.is_empty());
    assert_eq!(tree.get(1), 0);
    tree.set(1, 42);
    tree.set(2, 7);
    assert_eq!(tree.get(1), 42);
    assert_eq!(tree.prod(), 42);
    assert_eq!(tree.prod_range(2, 3), 7);
    assert_eq!(tree.prod_range(1, 1), 0);
    tree.modify(2, |x: &u32| x + 1);
    assert_eq!(tree.get(2), 8);
}

#[test]
fn lazy_matches_eager_model() {
    let mut lazy = LazySegTree::<SumAdd>::from_vec(&vec![5, 0, 3, 9, 1, 4, 4, 2]);
    let mut model: Vec<u32> = vec![5, 0, 3, 9, 1, 4, 4, 2];

    lazy.operate(1, 6, &10);
    for item in model.iter_mut().take(6).skip(1) {
        *item += 10;
    }
    lazy.set(4, 100);
    model[4] = 100;
    lazy.operate(3, 8, &7);
    for item in model.iter_mut().take(8).skip(3) {
        *item += 7;
    }

    for i in 0..8 {
        assert_eq!(lazy.get(i), model[i]);
    }
    for start in 0..8 {
        for end in start..9 {
            let expected: u32 = model[start..end].iter().sum();
            assert_eq!(lazy.prod_range(start, end), expected);
        }
    }
    assert_eq!(lazy.prod(), model.iter().sum::<u32>());
    assert_eq!(lazy.len(), 8);
    assert!(!lazy.is_empty());
}

#[test]
fn fold_matches_reduction() {
    let items: Vec<u64> = vec![3, 1, 4, 1, 5, 9, 2, 6];
    let tree = SegTree::<Additive>::from_vec(&items);
    for i in 0..items.len() {
        for j in i..=items.len() {
            let expected: u64 = items[i..j].iter().sum();
            assert_eq!(tree.prod_range(i, j), expected);
        }
    }
}

#[test]
fn run_ops_matches_model() {
    let mut lazy = LazySegTree::<SumAdd>::from_vec(&vec![1, 2, 3, 4, 5]);
    let ops = vec![
        TreeOp::Apply(0, 4, 10),
        TreeOp::Write(2, 0),
        TreeOp::Apply(2, 5, 1),
    ];
    lazy.run_ops(&ops);
    let mut model: Vec<u32> = vec![1, 2, 3, 4, 5];
    for item in model.iter_mut().take(4) {
        *item += 10;
    }
    model[2] = 0;
    for item in model.iter_mut().take(5).skip(2) {
        *item += 1;
    }
    for i in 0..5 {
        assert_eq!(lazy.get(i), model[i]);
    }
}
