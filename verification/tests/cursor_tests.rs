use moo::IIter;
use moo::Iter;

#[test]
fn cursor_walks_forward_and_ends() {
    let v = vec![1, 2, 3];
    let mut it = Iter::new(&v);
    assert_eq!(it.next(), Some(&1));
    assert_eq!(it.next(), Some(&2));
    assert_eq!(it.next(), Some(&3));
    assert_eq!(it.next(), None);
    assert_eq!(it.next(), None);
}

#[test]
fn cursor_backtracks_one_token() {
    let v = vec![10, 20, 30];
    let mut it = Iter::new(&v);
    assert_eq!(it.next(), Some(&10));
    assert_eq!(it.next(), Some(&20));
    assert_eq!(it.prev(), Some(&10));
    assert_eq!(it.next(), Some(&20));
    assert_eq!(it.next(), Some(&30));
}

#[test]
fn cursor_prev_at_start_is_none() {
    let v = vec![7];
    let mut it = Iter::new(&v);
    assert_eq!(it.prev(), None);
    assert_eq!(it.next(), Some(&7));
    assert_eq!(it.prev(), None);
    assert_eq!(it.next(), Some(&7));
}

#[test]
fn cursor_empty_vector() {
    let v: Vec<u8> = vec![];
    let mut it = Iter::new(&v);
    assert_eq!(it.next(), None);
    assert_eq!(it.prev(), None);
}

#[test]
fn cursor_through_trait() {
    let v = vec![4, 5];
    let mut it = Iter::new(&v);
    assert_eq!(IIter::next(&mut it), Some(&4));
    assert_eq!(IIter::prev(&mut it), None);
    assert_eq!(IIter::next(&mut it), Some(&4));
    assert_eq!(IIter::next(&mut it), Some(&5));
}
