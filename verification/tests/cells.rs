use std::rc::Rc;

use cynosure::site_c::cell::ScopedCell;
use cynosure::site_d::padding::CachePadded;

#[test]
fn scoped_cell_gives_scoped_access() {
    let mut cell = ScopedCell::new(vec![1, 2, 3]);
    assert_eq!(cell.with(|v| v.len()), 3);
    let last = cell.with_mut(|v| {
        v.push(4);
        v[3]
    });
    assert_eq!(last, 4);
    assert_eq!(cell.into_inner(), vec![1, 2, 3, 4]);
}

#[test]
fn scoped_cell_behind_a_count() {
    let cell = ScopedCell::rc(7);
    let other = cell.clone();
    assert_eq!(Rc::strong_count(&cell), 2);
    assert_eq!(other.with(|v| *v), 7);
    assert!(format!("{:?}", cell).contains('7'));
}

#[test]
fn padded_value_is_the_value() {
    let mut p = CachePadded::new(5u32);
    assert_eq!(*p.deref(), 5);
    *p.deref_mut() = 6;
    assert_eq!(*p.as_ref(), 6);
    *p.as_mut() += 1;
    assert_eq!(p.into_inner(), 7);
    assert_eq!(CachePadded::<u64>::default().into_inner(), 0);
    assert_eq!(CachePadded::from('x').into_inner(), 'x');
}
