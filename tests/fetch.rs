use redis_bigkeys::fetch::{decode_batch, parse_decimal, parse_size, parse_type_code, BatchError, Reply};
use redis_bigkeys::key_type::KeyTypeCode;

fn text(s: &str) -> Vec<u8> {
    s.as_bytes().to_vec()
}

#[test]
fn decimal_parsing() {
    assert_eq!(parse_decimal(b"0"), Some(0));
    assert_eq!(parse_decimal(b"1234"), Some(1234));
    assert_eq!(parse_decimal(b"+56"), Some(56));
    assert_eq!(parse_decimal(b"18446744073709551615"), Some(u64::MAX));
    assert_eq!(parse_decimal(b"18446744073709551616"), None);
    assert_eq!(parse_decimal(b"99999999999999999999999"), None);
    assert_eq!(parse_decimal(b""), None);
    assert_eq!(parse_decimal(b"+"), None);
    assert_eq!(parse_decimal(b"-5"), None);
    assert_eq!(parse_decimal(b"12a"), None);
    assert_eq!(parse_decimal(b" 12"), None);
}

#[test]
fn size_replies() {
    assert_eq!(parse_size(&Reply::Int(4096)), Some(4096));
    assert_eq!(parse_size(&Reply::BulkString(text("72"))), Some(72));
    assert_eq!(parse_size(&Reply::SimpleString(text("81"))), Some(81));
    assert_eq!(parse_size(&Reply::BulkString(text("x"))), None);
    assert_eq!(parse_size(&Reply::Nil), None);
    assert_eq!(parse_size(&Reply::Other), None);
}

#[test]
fn type_replies() {
    assert_eq!(parse_type_code(&Reply::SimpleString(text("zset"))), Some(KeyTypeCode::ZSetKey));
    assert_eq!(parse_type_code(&Reply::BulkString(text("stream"))), Some(KeyTypeCode::StreamKey));
    assert_eq!(parse_type_code(&Reply::SimpleString(text("none"))), None);
    assert_eq!(parse_type_code(&Reply::Int(1)), None);
    assert_eq!(parse_type_code(&Reply::Nil), None);
}

#[test]
fn batch_is_split_per_key() {
    let replies = vec![
        Reply::Int(100),
        Reply::SimpleString(text("string")),
        Reply::Nil,
        Reply::SimpleString(text("none")),
        Reply::BulkString(text("7")),
        Reply::BulkString(text("list")),
    ];
    let d = decode_batch(&replies, 3).unwrap();
    assert_eq!(
        d,
        vec![
            (Some(100), Some(KeyTypeCode::StringKey)),
            (None, None),
            (Some(7), Some(KeyTypeCode::ListKey)),
        ]
    );
}

#[test]
fn batch_of_wrong_length_fails() {
    let replies = vec![Reply::Int(1), Reply::Int(2), Reply::Int(3)];
    assert_eq!(
        decode_batch(&replies, 2),
        Err(BatchError::ShapeMismatch { keys: 2, replies: 3 })
    );
    assert_eq!(
        decode_batch(&vec![Reply::Nil, Reply::Nil], 2),
        Err(BatchError::ShapeMismatch { keys: 2, replies: 2 })
    );
}

#[test]
fn empty_batch() {
    assert_eq!(decode_batch(&Vec::new(), 0), Ok(Vec::new()));
}
