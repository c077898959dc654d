//! Decoding of one pipelined metadata reply: per key, a size reply followed
//! by a type reply.
use vstd::prelude::*;
use crate::key_type::{classify, classify_spec, KeyTypeCode};

verus! {

/// One reply of the store, as far as the survey reads it.
#[derive(Debug, PartialEq, Eq)]
pub enum Reply {
    /// No value: the key is absent.
    Nil,
    /// An integer reply.
    Int(i64),
    /// A binary-safe string reply, as raw bytes.
    BulkString(Vec<u8>),
    /// A status string reply, as its UTF-8 bytes.
    SimpleString(Vec<u8>),
    /// Any other reply shape (arrays, maps, errors, ...).
    Other,
}

/// A pipelined reply whose length is not two replies per key.
#[derive(Clone, Copy, Debug, PartialEq, Eq, Structural)]
pub enum BatchError {
    ShapeMismatch { keys: usize, replies: usize },
}

pub open spec fn is_digit(b: u8) -> bool {
    48 <= b <= 57
}

/// Value of a sequence of decimal digits.
pub open spec fn digits_value(s: Seq<u8>) -> nat
    decreases s.len(),
{
    if s.len() == 0 {
        0
    } else {
        digits_value(s.drop_last()) * 10 + (s.last() - 48) as nat
    }
}

/// Text of an unsigned decimal number: an optional `+` then one or more
/// digits, with a value that fits in 64 bits.
pub open spec fn decimal_spec(s: Seq<u8>) -> Option<u64> {
    let body = number_body(s);
    if body.len() > 0 && all_digits(body) && digits_value(body) <= u64::MAX {
        Some(digits_value(body) as u64)
    } else {
        None
    }
}

/// The text after an optional leading `+`.
pub open spec fn number_body(s: Seq<u8>) -> Seq<u8> {
    if s.len() > 0 && s[0] == 43 {
        s.skip(1)
    } else {
        s
    }
}

pub open spec fn all_digits(s: Seq<u8>) -> bool {
    forall|i: int| 0 <= i < s.len() ==> is_digit(#[trigger] s[i])
}

/// What a size reply says: an integer as is, a string holding a decimal
/// number as that number; anything else gives nothing.
pub open spec fn size_spec(r: Reply) -> Option<u64> {
    match r {
        Reply::Int(i) => Some(i as u64),
        Reply::BulkString(b) => decimal_spec(b@),
        Reply::SimpleString(b) => decimal_spec(b@),
        _ => None,
    }
}

/// What a type reply says: the variant named by a string reply.
pub open spec fn type_spec(r: Reply) -> Option<KeyTypeCode> {
    match r {
        Reply::BulkString(b) => classify_spec(b@),
        Reply::SimpleString(b) => classify_spec(b@),
        _ => None,
    }
}

/// Per-key decoding of a well-shaped reply sequence.
pub open spec fn decoded_spec(replies: Seq<Reply>, i: int) -> (Option<u64>, Option<KeyTypeCode>) {
    (size_spec(replies[2 * i]), type_spec(replies[2 * i + 1]))
}

proof fn lemma_digits_monotone(s: Seq<u8>, i: int)
    requires
        0 <= i <= s.len(),
        forall|k: int| 0 <= k < s.len() ==> is_digit(#[trigger] s[k]),
    ensures
        digits_value(s.take(i)) <= digits_value(s),
    decreases s.len() - i,
{
    if i < s.len() {
        lemma_digits_monotone(s, i + 1);
        assert(s.take(i + 1).drop_last() =~= s.take(i));
    } else {
        assert(s.take(i) =~= s);
    }
}

/// Parses an unsigned decimal number.
pub fn parse_decimal(s: &[u8]) -> (r: Option<u64>)
    ensures
        r == decimal_spec(s@),
{
    let start: usize = if s.len() > 0 && s[0] == 43 { 1 } else { 0 };
    let ghost body = number_body(s@);
    assert(body =~= s@.skip(start as int));
    if start >= s.len() {
        return None;
    }
    let mut acc: u64 = 0;
    let mut i: usize = start;
    while i < s.len()
        invariant
            start <= i <= s@.len(),
            body =~= s@.skip(start as int),
            body == number_body(s@),
            forall|k: int| 0 <= k < i - start ==> is_digit(#[trigger] body[k]),
            acc as nat == digits_value(body.take(i - start)),
        decreases s@.len() - i,
    {
        let b = s[i];
        assert(body[i - start] == b);
        if b < 48 || b > 57 {
            assert(!is_digit(body[i - start]));
            assert(!all_digits(body));
            return None;
        }
        let d = (b - 48) as u64;
        assert(body.take(i - start + 1).drop_last() =~= body.take(i - start));
        if acc > (u64::MAX - d) / 10 {
            assert forall|k: int| 0 <= k < i - start + 1 implies is_digit(#[trigger] body[k]) by {
                if k == i - start {
                    assert(body[k] == b);
                }
            }
            assert(digits_value(body.take(i - start + 1)) > u64::MAX) by (nonlinear_arith)
                requires
                    digits_value(body.take(i - start + 1)) == acc * 10 + d,
                    acc > (u64::MAX - d) / 10,
            ;
            proof {
                if all_digits(body) {
                    lemma_digits_monotone(body, i - start + 1);
                }
            }
            return None;
        }
        acc = acc * 10 + d;
        i = i + 1;
        assert forall|k: int| 0 <= k < i - start implies is_digit(#[trigger] body[k]) by {
            if k == i - 1 - start {
                assert(body[k] == b);
            }
        }
    }
    assert(body.take(i - start) =~= body);
    Some(acc)
}

/// The size a reply states, if it states one.
pub fn parse_size(r: &Reply) -> (out: Option<u64>)
    ensures
        out == size_spec(*r),
{
    match r {
        Reply::Int(i) => Some(*i as u64),
        Reply::BulkString(b) => parse_decimal(b.as_slice()),
        Reply::SimpleString(b) => parse_decimal(b.as_slice()),
        _ => None,
    }
}

/// The value type a reply names, if it names one of the six.
pub fn parse_type_code(r: &Reply) -> (out: Option<KeyTypeCode>)
    ensures
        out == type_spec(*r),
{
    match r {
        Reply::BulkString(b) => classify(b.as_slice()),
        Reply::SimpleString(b) => classify(b.as_slice()),
        _ => None,
    }
}

/// Splits the flat reply sequence of a pipeline for `n_keys` keys into one
/// `(size, type)` pair per key, in key order. Fails, never truncating or
/// realigning, when there are not exactly two replies per key.
pub fn decode_batch(replies: &Vec<Reply>, n_keys: usize) -> (r: Result<
    Vec<(Option<u64>, Option<KeyTypeCode>)>,
    BatchError,
>)
    ensures
        r is Err <==> replies@.len() != 2 * n_keys,
        r is Err ==> r == Err::<Vec<(Option<u64>, Option<KeyTypeCode>)>, BatchError>(
            BatchError::ShapeMismatch { keys: n_keys, replies: replies@.len() as usize },
        ),
        r is Ok ==> r->Ok_0@.len() == n_keys && forall|i: int|
            0 <= i < n_keys ==> #[trigger] r->Ok_0@[i] == decoded_spec(replies@, i),
{
    if replies.len() % 2 != 0 || replies.len() / 2 != n_keys {
        return Err(BatchError::ShapeMismatch { keys: n_keys, replies: replies.len() });
    }
    let mut out: Vec<(Option<u64>, Option<KeyTypeCode>)> = Vec::new();
    let mut i: usize = 0;
    while i < n_keys
        invariant
            replies@.len() == 2 * n_keys,
            replies@.len() <= usize::MAX,
            i <= n_keys,
            out@.len() == i,
            forall|k: int| 0 <= k < i ==> #[trigger] out@[k] == decoded_spec(replies@, k),
        decreases n_keys - i,
    {
        let mem = parse_size(&replies[2 * i]);
        let ty = parse_type_code(&replies[2 * i + 1]);
        out.push((mem, ty));
        i = i + 1;
    }
    Ok(out)
}

} // verus!
