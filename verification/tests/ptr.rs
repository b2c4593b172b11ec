use swift_rt::ptr::{
    UnsafeBufferPointer, UnsafeMutableBufferPointer, UnsafeMutablePointer,
    UnsafeMutableRawBufferPointer, UnsafeMutableRawPointer, UnsafePointer,
    UnsafeRawBufferPointer, UnsafeRawPointer,
};

#[test]
fn pointers_are_never_null() {
    assert!(UnsafeRawPointer::new(0).is_none());
    assert!(UnsafeMutableRawPointer::new(0).is_none());
    assert!(UnsafePointer::<u32>::new(0).is_none());
    assert!(UnsafeMutablePointer::<u32>::new(0).is_none());
    assert_eq!(UnsafeRawPointer::new(8).unwrap().as_ptr(), 8);
    assert_eq!(UnsafeMutableRawPointer::new(16).unwrap().as_ptr(), 16);
    assert_eq!(UnsafePointer::<u32>::new(24).unwrap().as_ptr(), 24);
    assert_eq!(UnsafeMutablePointer::<u32>::new(32).unwrap().as_ptr(), 32);
}

#[test]
fn raw_pointers_are_ordered_by_address() {
    let low = UnsafeRawPointer::new(8).unwrap();
    let high = UnsafeRawPointer::new(16).unwrap();
    assert!(low < high);
    assert_eq!(low, UnsafeRawPointer::new(8).unwrap());
    assert_ne!(low, high);
}

#[test]
fn buffers_hold_start_and_count() {
    let raw = UnsafeRawBufferPointer::new(UnsafeRawPointer::new(64), 12);
    assert_eq!(raw.start(), UnsafeRawPointer::new(64));
    assert_eq!(raw.count(), 12);
    let empty = UnsafeMutableRawBufferPointer::new(None, 0);
    assert_eq!(empty.start(), None);
    assert_eq!(empty.count(), 0);
    let typed = UnsafeBufferPointer::<u8>::new(UnsafePointer::new(128), 3);
    assert_eq!(typed.start(), 128);
    assert_eq!(typed.count(), 3);
    let nil = UnsafeMutableBufferPointer::<u8>::new(None, 0);
    assert_eq!(nil.start(), 0);
    assert_eq!(nil.count(), 0);
    let some = UnsafeMutableBufferPointer::<u8>::new(UnsafeMutablePointer::new(256), 1);
    assert_eq!(some.start(), 256);
}
