use vector_growing::OutOfBounds;
use vector_growing::VecGrow;

#[test]
fn test_create_vec_grow() {
    let _vg = VecGrow::<i32>::new();
}

#[test]
fn test_push_and_remove_element() {
    let mut vg = VecGrow::new();
    vg.push(1);
    vg.push(2);

    assert_eq!(vg.get(0), Ok(&Some(1)));
    assert_eq!(vg.get(1), Ok(&Some(2)));

    vg.remove(0).unwrap();

    assert_eq!(vg.get(0), Ok(&None));

    vg.push(1);

    assert_eq!(vg.get(0), Ok(&Some(1)));
}

#[test]
fn test_macro_vec_grow() {
    let vg_empty: VecGrow<u8> = VecGrow::new();
    let vg_num = VecGrow::from_values(vec![1, 2, 3]);
    let vg_zero = VecGrow::repeat(0, 100);

    assert!(vg_empty.is_empty());
    assert_eq!(vg_num.get(1), Ok(&Some(2)));
    assert_eq!(vg_zero.get(99), Ok(&Some(0)));
}

#[test]
fn test_iter() {
    let vg = VecGrow::from_values(vec![1, 2, 3]);
    let mut vg_iter = vg.iter();

    assert_eq!(vg_iter.next(), Some(&1));
    assert_eq!(vg_iter.next(), Some(&2));
    assert_eq!(vg_iter.next(), Some(&3));
}

#[test]
fn test_iter_mut() {
    let mut vg = VecGrow::from_values(vec![1, 2, 3]);

    let mut it = vg.iter_mut();
    while let Some(num) = it.next(&mut vg) {
        *num += 1;
    }

    let mut vg_iter = vg.iter();
    assert_eq!(vg_iter.next(), Some(&2));
    assert_eq!(vg_iter.next(), Some(&3));
    assert_eq!(vg_iter.next(), Some(&4));
}

#[test]
fn test_new_store_is_empty() {
    let vg = VecGrow::<i32>::new();
    assert_eq!(vg.len(), 0);
    assert_eq!(vg.count(), 0);
    assert!(vg.is_empty());
}

#[test]
fn test_push_assigns_ascending_indices() {
    let mut vg = VecGrow::new();
    vg.push(1);
    vg.push(2);
    assert_eq!(vg.get(0), Ok(&Some(1)));
    assert_eq!(vg.get(1), Ok(&Some(2)));
    assert_eq!(vg.count(), 2);
}

#[test]
fn test_remove_then_reuse_keeps_len() {
    let mut vg = VecGrow::new();
    vg.push(10);
    vg.push(20);
    vg.remove(0).unwrap();
    assert_eq!(vg.get(0), Ok(&None));
    assert_eq!(vg.count(), 1);
    vg.push(1);
    assert_eq!(vg.get(0), Ok(&Some(1)));
    assert_eq!(vg.len(), 2);
    assert_eq!(vg.count(), 2);
}

#[test]
fn test_repeat_len() {
    let vg = VecGrow::repeat(0u8, 100);
    assert_eq!(vg.len(), 100);
    assert_eq!(vg.count(), 100);
    assert_eq!(vg.get(99), Ok(&Some(0)));
}

#[test]
fn test_out_of_bounds() {
    let mut empty = VecGrow::<i32>::new();
    assert_eq!(empty.get(0), Err(OutOfBounds));
    assert_eq!(empty.remove(0), Err(OutOfBounds));

    let mut vg = VecGrow::from_values(vec![5, 6]);
    assert_eq!(vg.get(2), Err(OutOfBounds));
    assert_eq!(vg.remove(2), Err(OutOfBounds));
    assert_eq!(vg.get(3), Err(OutOfBounds));
    assert!(vg.get(1).is_ok());
    assert!(vg.remove(1).is_ok());
}

#[test]
fn test_is_empty_iff_count_zero() {
    let mut vg = VecGrow::new();
    assert!(vg.is_empty());
    vg.push(7);
    assert!(!vg.is_empty());
    assert_eq!(vg.count(), 1);
    vg.remove(0).unwrap();
    assert!(vg.is_empty());
    assert_eq!(vg.count(), 0);
    assert_eq!(vg.len(), 1);
}

#[test]
fn test_double_remove_is_noop() {
    let mut vg = VecGrow::from_values(vec![1, 2]);
    vg.remove(0).unwrap();
    vg.remove(0).unwrap();
    assert_eq!(vg.count(), 1);
    vg.push(8);
    assert_eq!(vg.get(0), Ok(&Some(8)));
    assert_eq!(vg.count(), 2);
    vg.push(9);
    assert_eq!(vg.len(), 3);
    assert_eq!(vg.get(2), Ok(&Some(9)));
}

#[test]
fn test_lifo_reuse() {
    let mut vg = VecGrow::from_values(vec![1, 2, 3]);
    vg.remove(0).unwrap();
    vg.remove(2).unwrap();
    vg.push(30);
    assert_eq!(vg.get(2), Ok(&Some(30)));
    vg.push(10);
    assert_eq!(vg.get(0), Ok(&Some(10)));
    assert_eq!(vg.len(), 3);
}

#[test]
fn test_iter_skips_holes() {
    let mut vg = VecGrow::from_values(vec![1, 2, 3, 4]);
    vg.remove(0).unwrap();
    vg.remove(2).unwrap();
    let mut it = vg.iter();
    assert_eq!(it.next(), Some(&2));
    assert_eq!(it.next(), Some(&4));
    assert_eq!(it.next(), None);
    assert_eq!(it.next(), None);
}

#[test]
fn test_iter_mut_skips_holes() {
    let mut vg = VecGrow::from_values(vec![1, 2, 3]);
    vg.remove(1).unwrap();
    let mut it = vg.iter_mut();
    while let Some(num) = it.next(&mut vg) {
        *num *= 10;
    }
    assert_eq!(vg.get(0), Ok(&Some(10)));
    assert_eq!(vg.get(1), Ok(&None));
    assert_eq!(vg.get(2), Ok(&Some(30)));
}

#[test]
fn test_get_mut_writes_through() {
    let mut vg = VecGrow::from_values(vec![4, 5]);
    match vg.get_mut(1) {
        Ok(Some(x)) => *x = 50,
        _ => panic!("slot 1 should be occupied"),
    }
    assert_eq!(vg.get(1), Ok(&Some(50)));

    vg.remove(0).unwrap();
    assert!(vg.get_mut(0).unwrap().is_none());
    assert_eq!(vg.get_mut(2).err(), Some(OutOfBounds));
}

#[test]
fn test_from_values_empty() {
    let vg = VecGrow::<i32>::from_values(vec![]);
    assert_eq!(vg.len(), 0);
    assert!(vg.is_empty());
    let mut it = vg.iter();
    assert_eq!(it.next(), None);
}
