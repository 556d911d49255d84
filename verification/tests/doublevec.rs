use turing::tape::doublevec::{calc_index, DoubleVec, IntoIter, Iter, IterMut};

#[test]
fn doublevec_new() {
    let mut v1 = DoubleVec::new();
    (0..4).for_each(|i| v1.push_front(i));
    (1..5).for_each(|i| v1.push_back(-i));

    let v2 = DoubleVec::with(vec![-1, -2, -3, -4], vec![0, 1, 2, 3]);
    assert_eq!(v1, v2);
}

fn sample() -> DoubleVec<i32> {
    DoubleVec::with(vec![-1, -2, -3], vec![0, 1, 2, 3])
}

#[test]
fn calc_index_maps_offsets_to_sides() {
    assert_eq!(calc_index(0), (0, true));
    assert_eq!(calc_index(5), (5, true));
    assert_eq!(calc_index(-1), (0, false));
    assert_eq!(calc_index(-2), (1, false));
    assert_eq!(calc_index(isize::MAX), (isize::MAX as usize, true));
    assert_eq!(calc_index(isize::MIN), (isize::MAX as usize, false));
}

#[test]
fn len_counts_both_sides() {
    assert_eq!(DoubleVec::<i32>::new().len(), 0);
    assert_eq!(sample().len(), 7);
}

#[test]
fn get_reads_each_offset() {
    let v = sample();
    for i in -3..4 {
        assert_eq!(v.get(i), Some(&(i as i32)));
        assert_eq!(v[i], i as i32);
    }
    assert_eq!(v.get(4), None);
    assert_eq!(v.get(-4), None);
}

#[test]
fn fits_tells_the_stored_range() {
    let v = sample();
    assert!(v.fits(-3));
    assert!(v.fits(0));
    assert!(v.fits(3));
    assert!(!v.fits(-4));
    assert!(!v.fits(4));
    assert!(!DoubleVec::<i32>::new().fits(0));
    assert!(!DoubleVec::<i32>::new().fits(-1));
}

#[test]
fn get_mut_writes_in_place() {
    let mut v = sample();
    *v.get_mut(-2).unwrap() = 20;
    *v.get_mut(1).unwrap() = 10;
    assert!(v.get_mut(7).is_none());
    assert_eq!(v, DoubleVec::with(vec![-1, 20, -3], vec![0, 10, 2, 3]));
}

#[test]
fn index_mut_writes_in_place() {
    let mut v = sample();
    *v.index_mut(-3) = 33;
    *v.index_mut(0) = 44;
    assert_eq!(v, DoubleVec::with(vec![-1, -2, 33], vec![44, 1, 2, 3]));
}

#[test]
fn push_and_pop_work_at_the_outer_ends() {
    let mut v = sample();
    v.push_front(4);
    v.push_back(-4);
    assert_eq!(v.get(4), Some(&4));
    assert_eq!(v.get(-4), Some(&-4));
    assert_eq!(v.pop_front(), Some(4));
    assert_eq!(v.pop_back(), Some(-4));
    assert_eq!(v, sample());
    let mut e = DoubleVec::<i32>::new();
    assert_eq!(e.pop_front(), None);
    assert_eq!(e.pop_back(), None);
}

#[test]
fn insert_shifts_outwards() {
    let mut v = sample();
    v.insert(1, 100);
    assert_eq!(v, DoubleVec::with(vec![-1, -2, -3], vec![0, 100, 1, 2, 3]));
    v.insert(-1, 200);
    assert_eq!(v, DoubleVec::with(vec![200, -1, -2, -3], vec![0, 100, 1, 2, 3]));
    v.insert(-5, 300);
    assert_eq!(v, DoubleVec::with(vec![200, -1, -2, -3, 300], vec![0, 100, 1, 2, 3]));
}

#[test]
fn remove_shifts_inwards() {
    let mut v = sample();
    assert_eq!(v.remove(0), 0);
    assert_eq!(v.remove(-2), -2);
    assert_eq!(v, DoubleVec::with(vec![-1, -3], vec![1, 2, 3]));
}

#[test]
fn grow_extends_one_side_up_to_the_bound() {
    let mut v = DoubleVec::with(vec![-1], vec![0]);
    v.grow(3, 9);
    assert_eq!(v, DoubleVec::with(vec![-1], vec![0, 9, 9]));
    v.grow(-4, 7);
    assert_eq!(v, DoubleVec::with(vec![-1, 7, 7], vec![0, 9, 9]));
    v.grow(2, 5);
    v.grow(-2, 5);
    v.grow(0, 5);
    assert_eq!(v, DoubleVec::with(vec![-1, 7, 7], vec![0, 9, 9]));
}

#[test]
fn grow_with_calls_the_maker_for_each_new_element() {
    let mut v = DoubleVec::with(vec![-1], vec![0]);
    v.grow_with(4, || 8);
    v.grow_with(-3, || 6);
    assert_eq!(v, DoubleVec::with(vec![-1, 6], vec![0, 8, 8, 8]));
    v.grow_with(1, || 1);
    assert_eq!(v, DoubleVec::with(vec![-1, 6], vec![0, 8, 8, 8]));
}

#[test]
fn sides_are_handed_out() {
    let mut v = sample();
    assert_eq!(v.back(), &[-1, -2, -3]);
    assert_eq!(v.front(), &[0, 1, 2, 3]);
    assert_eq!(v.back_vec(), &vec![-1, -2, -3]);
    assert_eq!(v.front_vec(), &vec![0, 1, 2, 3]);
    v.back_mut()[0] = -10;
    v.front_mut()[3] = 30;
    v.back_vec_mut().push(-4);
    v.front_vec_mut().pop();
    assert_eq!(v, DoubleVec::with(vec![-10, -2, -3, -4], vec![0, 1, 2]));
}

#[test]
fn iter_yields_every_element_in_ascending_order() {
    let v = sample();
    let mut it = v.iter();
    let mut seen = Vec::new();
    while let Some(x) = it.next() {
        seen.push(*x);
    }
    assert_eq!(seen, vec![-3, -2, -1, 0, 1, 2, 3]);
    assert_eq!(it.next(), None);
    let mut again = Iter::new(&v);
    assert_eq!(again.next(), Some(&-3));
}

#[test]
fn iter_of_one_side_only() {
    let v = DoubleVec::with(Vec::new(), vec![1, 2]);
    let mut it = v.iter();
    assert_eq!(it.next(), Some(&1));
    assert_eq!(it.next(), Some(&2));
    assert_eq!(it.next(), None);
    let w = DoubleVec::with(vec![1, 2], Vec::new());
    let mut it = w.iter();
    assert_eq!(it.next(), Some(&2));
    assert_eq!(it.next(), Some(&1));
    assert_eq!(it.next(), None);
}

#[test]
fn into_iter_gives_every_element_away_in_ascending_order() {
    let mut it = sample().into_iter();
    let mut seen = Vec::new();
    while let Some(x) = it.next() {
        seen.push(x);
    }
    assert_eq!(seen, vec![-3, -2, -1, 0, 1, 2, 3]);
    let mut other = IntoIter::new(DoubleVec::with(vec![5], vec![6, 7]));
    assert_eq!(other.next(), Some(5));
    assert_eq!(other.next(), Some(6));
    assert_eq!(other.next(), Some(7));
    assert_eq!(other.next(), None);
}

#[test]
fn iter_mut_changes_each_element_in_ascending_order() {
    let mut v = sample();
    {
        let mut it = v.iter_mut();
        let mut n = 0;
        while let Some(x) = it.next() {
            assert_eq!(*x, n - 3);
            *x = n;
            n += 1;
        }
        assert_eq!(n, 7);
    }
    assert_eq!(v, DoubleVec::with(vec![2, 1, 0], vec![3, 4, 5, 6]));
    let mut it = IterMut::new(&mut v);
    *it.next().unwrap() = 70;
    *it.next().unwrap() = 71;
    it.finish();
    assert_eq!(v.get(-3), Some(&70));
    assert_eq!(v.get(-2), Some(&71));
    assert_eq!(v.get(-1), Some(&2));
}

#[test]
fn clone_copies_both_sides() {
    let v = sample();
    let w = v.clone();
    assert_eq!(v, w);
}
