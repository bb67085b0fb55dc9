use setun70::triplet_memory::{Memory, MemoryError};

#[test]
fn read_one_basic() {
    let mut m = Memory::new();
    // one triplet on page 0, triplet 0
    m.push_triplet([11, 22, 33]).unwrap();
    // move the pointer back to read from the start
    m.set_pointer(0, 0, 0).unwrap();
    assert_eq!(m.read_one().unwrap(), 11);
    assert_eq!(m.read_one().unwrap(), 22);
    assert_eq!(m.read_one().unwrap(), 33);
    // after the triplet the pointer is at the next triplet (0,1,0)
    assert_eq!(m.get_pointer(), (0, 1, 0));
}

#[test]
fn skip_write_behavior() {
    let mut m = Memory::new();
    // page 5 does not keep writes
    m.set_pointer(5, 0, 0).unwrap();
    m.push_triplet([1, 2, 3]).unwrap(); // not stored, but pointer -> (5,1,0)
    m.set_pointer(5, 0, 0).unwrap();
    // read_one gives the initial value (0): nothing was stored
    assert_eq!(m.read_one().unwrap(), 0);
}

#[test]
fn crossing_pages() {
    let mut m = Memory::new();
    // last triplet of page 0, position 2
    m.set_pointer(0, Memory::TRIPLETS_PER_PAGE - 1, 2).unwrap();
    // reading the last number moves to page 1, triplet 0, position 0
    let _ = m.read_one();
    let (p, _t, w) = m.get_pointer();
    assert!(p >= 0 && p <= Memory::LAST_PAGE_NUM);
    assert_eq!(w, 0);
}

#[test]
fn pointer_after_page_crossing_is_next_page() {
    let mut m = Memory::new();
    m.set_pointer(0, 26, 2).unwrap();
    assert_eq!(m.read_one().unwrap(), 0);
    assert_eq!(m.get_pointer(), (1, 0, 0));
}

#[test]
fn push_pop_returns_triplet_and_pointer() {
    let mut m = Memory::new();
    m.set_pointer(-2, 26, 1).unwrap();
    m.push_triplet([7, -8, 9]).unwrap();
    assert_eq!(m.get_pointer(), (-1, 0, 0));
    assert_eq!(m.pop_triplet().unwrap(), [7, -8, 9]);
    assert_eq!(m.get_pointer(), (-2, 26, 0));
}

#[test]
fn pop_at_bottom_underflows() {
    let mut m = Memory::new();
    m.set_pointer(-13, 0, 0).unwrap();
    assert_eq!(m.pop_triplet(), Err(MemoryError::StackUnderflow));
}

#[test]
fn push_past_last_page_overflows() {
    let mut m = Memory::new();
    m.set_pointer(13, 26, 0).unwrap();
    assert_eq!(m.push_triplet([1, 1, 1]), Err(MemoryError::StackOverflow));
    assert_eq!(m.get_pointer(), (13, 27, 0));
    assert_eq!(m.push_triplet([1, 1, 1]), Err(MemoryError::StackOverflow));
}

#[test]
fn set_pointer_errors() {
    let mut m = Memory::new();
    assert_eq!(m.set_pointer(14, 0, 0), Err(MemoryError::PageOutOfRange(14)));
    assert_eq!(m.set_pointer(0, 27, 0), Err(MemoryError::OffsetOutOfRange(81)));
    assert_eq!(m.set_pointer(0, 3, 3), Err(MemoryError::OffsetOutOfRange(3)));
    assert_eq!(m.get_pointer(), (0, 0, 0));
}

#[test]
fn page_write_read_pads_to_triplets() {
    let mut m = Memory::new();
    m.write_page(3, 10, &[5, 6, 7, 8]).unwrap();
    assert_eq!(m.read_page(3, 10, 4).unwrap(), vec![5, 6, 7, 8, 0, 0]);
    assert_eq!(m.read_page(3, 10, 0).unwrap(), Vec::<i32>::new());
    assert_eq!(m.read_page(-14, 0, 1), Err(MemoryError::PageOutOfRange(-14)));
    assert_eq!(m.read_page(0, 81, 1), Err(MemoryError::OffsetOutOfRange(81)));
    assert_eq!(m.read_page(0, 80, 2), Err(MemoryError::CountOutOfRange(2)));
    assert_eq!(m.write_page(0, 79, &[1]), Err(MemoryError::CountOutOfRange(3)));
}

#[test]
fn read_only_page_write_succeeds_without_effect() {
    let mut m = Memory::new();
    assert_eq!(m.write_triplet_at(5, 2, [4, 4, 4]), Ok(()));
    assert_eq!(m.read_triplet_at(5, 2).unwrap(), [0, 0, 0]);
    m.write_triplet_at(4, 2, [4, 5, 6]).unwrap();
    assert_eq!(m.read_triplet_at(4, 2).unwrap(), [4, 5, 6]);
    assert_eq!(m.read_triplet_at(4, 27), Err(MemoryError::OffsetOutOfRange(81)));
}

#[test]
fn error_messages() {
    assert_eq!(MemoryError::PageOutOfRange(-14).to_string(), "Page out of range: -14");
    assert_eq!(MemoryError::OffsetOutOfRange(81).to_string(), "Offset out of range: 81");
    assert_eq!(MemoryError::CountOutOfRange(3).to_string(), "Count out of range: 3");
    assert_eq!(MemoryError::StackOverflow.to_string(), "Stack overflow");
    assert_eq!(MemoryError::StackUnderflow.to_string(), "Stack underflow");
}
