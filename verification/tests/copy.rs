use n3::copy::{CopyStep, Copying};

#[test]
fn blocks_add_up() {
    let mut copying = Copying::new();
    for size in [3, 5] {
        assert!(matches!(copying.read::<()>(Ok(size)), CopyStep::Write(n) if n == size));
        assert!(matches!(copying.written::<()>(size, Ok(())), CopyStep::Read));
    }
    assert!(matches!(copying.read::<()>(Ok(0)), CopyStep::Done(Ok(8))));
}

#[test]
fn errors_end_copying() {
    let mut copying = Copying::new();
    assert!(matches!(copying.read(Err("read")), CopyStep::Done(Err("read"))));
    assert!(matches!(copying.written(4, Err("write")), CopyStep::Done(Err("write"))));
    assert_eq!(copying.trans, 0);
}
