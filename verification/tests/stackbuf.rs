use initvec::stackbuf::{write_bytes, write_decimal, BufferFull};

#[test]
fn write_int() {
    let mut buf = [0; 32];

    let n = write_decimal(&mut buf, 42).expect("failed to write an int");
    assert_eq!(2, n);

    let s = std::str::from_utf8(&buf[..n]).expect("invalid buffer value");
    assert_eq!("42", s);
}

#[test]
#[should_panic(expected = "failed to write an int")]
fn buffer_overflow() {
    let mut buf = [0; 1];
    write_decimal(&mut buf, 42).expect("failed to write an int");
}

#[test]
fn overflow_leaves_the_bytes_that_fit() {
    let mut buf = [0u8; 1];
    assert_eq!(Err(BufferFull { capacity: 1, needed: 2 }), write_decimal(&mut buf, 42));
    assert_eq!([b'4'], buf);

    let mut buf = [7u8; 3];
    assert_eq!(Err(BufferFull { capacity: 3, needed: 5 }), write_bytes(&mut buf, b"hello"));
    assert_eq!(*b"hel", buf);
}

#[test]
fn write_keeps_the_rest_of_the_buffer() {
    let mut buf = [7u8; 5];
    assert_eq!(Ok(2), write_bytes(&mut buf, b"ab"));
    assert_eq!([b'a', b'b', 7, 7, 7], buf);
    assert_eq!(Ok(0), write_bytes(&mut buf, b""));
    assert_eq!([b'a', b'b', 7, 7, 7], buf);
    assert_eq!(Ok(5), write_bytes(&mut buf, b"hello"));
    assert_eq!(*b"hello", buf);
}

#[test]
fn write_decimal_agrees_with_std() {
    for value in [0u64, 7, 9, 10, 99, 100, 12345, 1 << 32, u64::MAX] {
        let mut buf = [0u8; 32];
        let n = write_decimal(&mut buf, value).unwrap();
        assert_eq!(format!("{}", value).as_bytes(), &buf[..n]);
    }
}

#[test]
fn write_into_empty_buffer() {
    let mut buf: [u8; 0] = [];
    assert_eq!(Ok(0), write_bytes(&mut buf, b""));
    assert_eq!(Err(BufferFull { capacity: 0, needed: 1 }), write_decimal(&mut buf, 0));
}
