use ferrum_kv::protocol::encoder::{
    encode_array_header, encode_bulk_string, encode_error, encode_integer, encode_null_bulk,
    encode_simple_string,
};

#[test]
fn simple_string_ok() {
    let mut buf = Vec::new();
    encode_simple_string(&mut buf, "OK");
    assert_eq!(buf, b"+OK\r\n");
}

#[test]
fn simple_string_pong() {
    let mut buf = Vec::new();
    encode_simple_string(&mut buf, "PONG");
    assert_eq!(buf, b"+PONG\r\n");
}

#[test]
fn error_with_err_prefix() {
    let mut buf = Vec::new();
    encode_error(&mut buf, "ERR unknown command: 'FOO'");
    assert_eq!(buf, b"-ERR unknown command: 'FOO'\r\n");
}

#[test]
fn error_with_wrongtype_prefix() {
    let mut buf = Vec::new();
    encode_error(&mut buf, "WRONGTYPE expected string");
    assert_eq!(buf, b"-WRONGTYPE expected string\r\n");
}

#[test]
fn integer_positive() {
    let mut buf = Vec::new();
    encode_integer(&mut buf, 42);
    assert_eq!(buf, b":42\r\n");
}

#[test]
fn integer_zero() {
    let mut buf = Vec::new();
    encode_integer(&mut buf, 0);
    assert_eq!(buf, b":0\r\n");
}

#[test]
fn integer_negative() {
    let mut buf = Vec::new();
    encode_integer(&mut buf, -7);
    assert_eq!(buf, b":-7\r\n");
}

#[test]
fn integer_large_values() {
    let mut buf = Vec::new();
    encode_integer(&mut buf, i64::MAX);
    assert_eq!(buf, format!(":{}\r\n", i64::MAX).as_bytes());

    buf.clear();
    encode_integer(&mut buf, i64::MIN);
    assert_eq!(buf, format!(":{}\r\n", i64::MIN).as_bytes());
}

#[test]
fn bulk_string_basic() {
    let mut buf = Vec::new();
    encode_bulk_string(&mut buf, b"ferrum");
    assert_eq!(buf, b"$6\r\nferrum\r\n");
}

#[test]
fn bulk_string_empty() {
    let mut buf = Vec::new();
    encode_bulk_string(&mut buf, b"");
    assert_eq!(buf, b"$0\r\n\r\n");
}

#[test]
fn bulk_string_binary_safe_across_crlf() {
    let mut buf = Vec::new();
    encode_bulk_string(&mut buf, b"a\r\nb");
    assert_eq!(buf, b"$4\r\na\r\nb\r\n");
}

#[test]
fn bulk_string_contains_null_byte() {
    let mut buf = Vec::new();
    encode_bulk_string(&mut buf, b"\x00\x01\x02");
    assert_eq!(buf, b"$3\r\n\x00\x01\x02\r\n");
}

#[test]
fn bulk_string_large_payload_length_prefix() {
    let payload = vec![b'x'; 1024];
    let mut buf = Vec::new();
    encode_bulk_string(&mut buf, &payload);
    assert!(buf.starts_with(b"$1024\r\n"));
    assert!(buf.ends_with(b"\r\n"));
    assert_eq!(buf.len(), 1024 + b"$1024\r\n".len() + 2);
}

#[test]
fn null_bulk_shape() {
    let mut buf = Vec::new();
    encode_null_bulk(&mut buf);
    assert_eq!(buf, b"$-1\r\n");
}

#[test]
fn null_bulk_differs_from_empty_bulk() {
    let mut null = Vec::new();
    encode_null_bulk(&mut null);
    let mut empty = Vec::new();
    encode_bulk_string(&mut empty, b"");
    assert_ne!(null, empty);
}

#[test]
fn array_header_basic() {
    let mut buf = Vec::new();
    encode_array_header(&mut buf, 3);
    assert_eq!(buf, b"*3\r\n");
}

#[test]
fn array_header_zero() {
    let mut buf = Vec::new();
    encode_array_header(&mut buf, 0);
    assert_eq!(buf, b"*0\r\n");
}

#[test]
fn encoders_can_be_chained_into_one_buffer() {
    let mut buf = Vec::new();
    encode_simple_string(&mut buf, "OK");
    encode_integer(&mut buf, 3);
    encode_bulk_string(&mut buf, b"hi");
    encode_null_bulk(&mut buf);
    encode_error(&mut buf, "ERR boom");
    assert_eq!(buf, b"+OK\r\n:3\r\n$2\r\nhi\r\n$-1\r\n-ERR boom\r\n");
}
