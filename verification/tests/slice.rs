use genet::error::ErrorKind;
use genet::slice::{SafeSlice, Slice, SliceIndex};

#[test]
fn new_slice_is_empty() {
    let s = Slice::new();
    assert_eq!(s.len(), 0);
    assert!(s.is_empty());
    assert_eq!(s.at(0), None);
    assert_eq!(s.to_vec(), Vec::<u8>::new());
}

#[test]
fn slice_of_static_bytes_shows_them_all() {
    let s = Slice::from(&b"hello"[..]);
    assert_eq!(s.len(), 5);
    assert!(!s.is_empty());
    assert_eq!(s.start(), 0);
    assert_eq!(s.as_bytes(), b"hello");
    assert_eq!(s.at(0), Some(b'h'));
    assert_eq!(s.at(4), Some(b'o'));
    assert_eq!(s.at(5), None);
}

#[test]
fn slice_of_a_vector_shows_its_bytes() {
    let s = Slice::from_vec(vec![1, 2, 3, 4]);
    assert_eq!(s.to_vec(), vec![1, 2, 3, 4]);
    assert_eq!(s.len(), 4);
    assert_eq!(s.start(), 0);
}

#[test]
fn get_by_index_and_by_range() {
    let s = Slice::from_vec(vec![10, 20, 30, 40, 50]);
    assert_eq!(s.get(0usize).unwrap(), 10);
    assert_eq!(s.get(4usize).unwrap(), 50);
    assert_eq!(s.get(5usize).unwrap_err().kind(), ErrorKind::Bounds);

    let part = s.get(1..4).unwrap();
    assert_eq!(part.to_vec(), vec![20, 30, 40]);
    assert_eq!(part.start(), 1);
    assert_eq!(part.len(), 3);

    let empty = s.get(5..5).unwrap();
    assert!(empty.is_empty());
    assert_eq!(empty.start(), 5);

    assert_eq!(s.get(2..6).unwrap_err().kind(), ErrorKind::Bounds);
    assert_eq!(s.get(3..2).unwrap_err().kind(), ErrorKind::Bounds);
    assert_eq!(s.get(6..6).unwrap_err().kind(), ErrorKind::Bounds);
    assert_eq!(s.get(2..6).unwrap_err().description(), "out of bounds");
}

#[test]
fn narrowing_never_cuts_short() {
    let s = Slice::from_vec(vec![0, 1, 2, 3, 4, 5, 6, 7]);
    assert!(s.narrow(0, 9).is_none());
    assert!(s.narrow(5, 4).is_none());
    assert!(s.skip(9).is_none());
    assert_eq!(s.skip(8).unwrap().len(), 0);
    assert_eq!(s.skip(3).unwrap().to_vec(), vec![3, 4, 5, 6, 7]);
}

#[test]
fn narrowing_keeps_the_buffer() {
    let s = Slice::from_vec(vec![0, 1, 2, 3, 4, 5, 6, 7]);
    let inner = s.narrow(2, 7).unwrap();
    let innermost = inner.narrow(1, 3).unwrap();
    assert_eq!(inner.start(), 2);
    assert_eq!(innermost.start(), 3);
    assert_eq!(innermost.to_vec(), vec![3, 4]);
    assert!(innermost.shares(&s));
    assert!(inner.shares(&s));
    let whole = s.as_bytes().as_ptr() as usize;
    let first = innermost.as_bytes().as_ptr() as usize;
    assert_eq!(first, whole + 3);
}

#[test]
fn a_copy_does_not_share_the_buffer() {
    let s = Slice::from_vec(vec![1, 2, 3]);
    let copy = Slice::from_vec(s.to_vec());
    assert_eq!(s, copy);
    assert!(!copy.shares(&s));
}

#[test]
fn slices_are_equal_by_what_they_show() {
    let a = Slice::from_vec(vec![9, 1, 2, 3]).skip(1).unwrap();
    let b = Slice::from_vec(vec![1, 2, 3, 9]).narrow(0, 3).unwrap();
    let c = Slice::from_vec(vec![1, 2, 4]);
    let d = Slice::from_vec(vec![1, 2]);
    assert_eq!(a, b);
    assert_ne!(a, c);
    assert_ne!(a, d);
    assert_eq!(Slice::new(), Slice::from_vec(Vec::new()));
}

#[test]
fn safe_slice_gives_back_its_items() {
    let items = [3u16, 1, 4];
    let s = SafeSlice::new(&items[..]);
    assert_eq!(s.as_slice(), &[3u16, 1, 4]);
}

#[test]
fn get_by_open_ranges() {
    let s = Slice::from_vec(vec![10, 20, 30, 40, 50]).narrow(1, 5).unwrap();
    assert_eq!(s.get(1..).unwrap().to_vec(), vec![30, 40, 50]);
    assert_eq!(s.get(1..).unwrap().start(), 2);
    assert_eq!(s.get(4..).unwrap().to_vec(), Vec::<u8>::new());
    assert_eq!(s.get(5..).unwrap_err().kind(), ErrorKind::Bounds);
    assert_eq!(s.get(..2).unwrap().to_vec(), vec![20, 30]);
    assert_eq!(s.get(..4).unwrap().to_vec(), vec![20, 30, 40, 50]);
    assert_eq!(s.get(..5).unwrap_err().kind(), ErrorKind::Bounds);
    assert_eq!(s.get(..=2).unwrap().to_vec(), vec![20, 30, 40]);
    assert_eq!(s.get(..=3).unwrap().to_vec(), vec![20, 30, 40, 50]);
    assert_eq!(s.get(..=4).unwrap_err().kind(), ErrorKind::Bounds);
    assert_eq!(s.get(..=usize::MAX).unwrap_err().kind(), ErrorKind::Bounds);
    assert_eq!(s.get(..).unwrap().to_vec(), vec![20, 30, 40, 50]);
    assert_eq!(s.get(..).unwrap().start(), 1);
}
