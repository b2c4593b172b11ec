use swift_rt::sym::{demangle, demangle_into};

#[test]
fn demangle_gives_the_decoded_name() {
    assert_eq!(demangle(Some("Swift.Int")), Ok(String::from("Swift.Int")));
    assert_eq!(demangle(Some("")), Ok(String::new()));
}

#[test]
fn demangle_of_an_unrecognised_symbol_is_an_error() {
    let error = demangle(None).unwrap_err();
    assert_eq!(error.message(), "Failed to demangle symbol");
    let mut buffer = vec![1u8, 2, 3];
    assert_eq!(demangle_into(None, &mut buffer), Err(error));
    assert_eq!(buffer, vec![1u8, 2, 3]);
}

#[test]
fn demangle_into_does_not_depend_on_the_capacity() {
    let name = "main.Café<Swift.Int>";
    let mut first: Vec<u8> = Vec::new();
    assert_eq!(first.capacity(), 0);
    assert_eq!(demangle_into(Some(name), &mut first), Ok(0));
    let mut second: Vec<u8> = Vec::with_capacity(first.len());
    assert_eq!(demangle_into(Some(name), &mut second), Ok(0));
    assert_eq!(first, second);
    assert_eq!(first, name.as_bytes());
    assert_eq!(first.len(), 21);
}

#[test]
fn demangle_into_appends_behind_what_is_there() {
    let mut buffer = Vec::with_capacity(2);
    buffer.extend_from_slice(b"ab");
    assert_eq!(demangle_into(Some("cd"), &mut buffer), Ok(2));
    assert_eq!(buffer, b"abcd");
    assert_eq!(demangle_into(Some("efg"), &mut buffer), Ok(4));
    assert_eq!(buffer, b"abcdefg");
    assert_eq!(std::str::from_utf8(&buffer[4..]), Ok("efg"));
    assert_eq!(demangle_into(Some(""), &mut buffer), Ok(7));
    assert_eq!(buffer, b"abcdefg");
}

#[test]
fn demangle_into_uses_spare_capacity() {
    let mut buffer: Vec<u8> = Vec::with_capacity(64);
    buffer.push(b'x');
    let capacity = buffer.capacity();
    assert_eq!(demangle_into(Some("Swift.String"), &mut buffer), Ok(1));
    assert_eq!(buffer, b"xSwift.String");
    assert_eq!(buffer.capacity(), capacity);
}
