//! The closed set of value types a key may hold, and their labels.
use vstd::prelude::*;

verus! {

/// Number of value types the survey distinguishes.
pub const TYPE_COUNT: usize = 6;

/// The value types the survey distinguishes.
#[derive(Copy, Clone, Debug, PartialEq, Eq, Structural)]
pub enum KeyTypeCode {
    StringKey,
    ListKey,
    SetKey,
    ZSetKey,
    HashKey,
    StreamKey,
}

/// Every variant, in report order.
pub open spec fn all_spec() -> Seq<KeyTypeCode> {
    seq![
        KeyTypeCode::StringKey,
        KeyTypeCode::ListKey,
        KeyTypeCode::SetKey,
        KeyTypeCode::ZSetKey,
        KeyTypeCode::HashKey,
        KeyTypeCode::StreamKey,
    ]
}

/// Slot of a variant in fixed six-slot tables.
pub open spec fn index_spec(t: KeyTypeCode) -> nat {
    match t {
        KeyTypeCode::StringKey => 0,
        KeyTypeCode::ListKey => 1,
        KeyTypeCode::SetKey => 2,
        KeyTypeCode::ZSetKey => 3,
        KeyTypeCode::HashKey => 4,
        KeyTypeCode::StreamKey => 5,
    }
}

/// The label the store answers to a TYPE request, as ASCII bytes
/// ("string", "list", "set", "zset", "hash", "stream").
pub open spec fn label_spec(t: KeyTypeCode) -> Seq<u8> {
    match t {
        KeyTypeCode::StringKey => seq![115u8, 116, 114, 105, 110, 103],
        KeyTypeCode::ListKey => seq![108u8, 105, 115, 116],
        KeyTypeCode::SetKey => seq![115u8, 101, 116],
        KeyTypeCode::ZSetKey => seq![122u8, 115, 101, 116],
        KeyTypeCode::HashKey => seq![104u8, 97, 115, 104],
        KeyTypeCode::StreamKey => seq![115u8, 116, 114, 101, 97, 109],
    }
}

/// The variant whose label is exactly `label`, if any (case-sensitive).
pub open spec fn classify_spec(label: Seq<u8>) -> Option<KeyTypeCode> {
    if label == label_spec(KeyTypeCode::StringKey) {
        Some(KeyTypeCode::StringKey)
    } else if label == label_spec(KeyTypeCode::ListKey) {
        Some(KeyTypeCode::ListKey)
    } else if label == label_spec(KeyTypeCode::SetKey) {
        Some(KeyTypeCode::SetKey)
    } else if label == label_spec(KeyTypeCode::ZSetKey) {
        Some(KeyTypeCode::ZSetKey)
    } else if label == label_spec(KeyTypeCode::HashKey) {
        Some(KeyTypeCode::HashKey)
    } else if label == label_spec(KeyTypeCode::StreamKey) {
        Some(KeyTypeCode::StreamKey)
    } else {
        None
    }
}

pub open spec fn name_spec(t: KeyTypeCode) -> Seq<char> {
    match t {
        KeyTypeCode::StringKey => "string"@,
        KeyTypeCode::ListKey => "list"@,
        KeyTypeCode::SetKey => "set"@,
        KeyTypeCode::ZSetKey => "zset"@,
        KeyTypeCode::HashKey => "hash"@,
        KeyTypeCode::StreamKey => "stream"@,
    }
}

pub open spec fn title_spec(t: KeyTypeCode) -> Seq<char> {
    match t {
        KeyTypeCode::StringKey => "STRING"@,
        KeyTypeCode::ListKey => "LIST"@,
        KeyTypeCode::SetKey => "SET"@,
        KeyTypeCode::ZSetKey => "ZSET"@,
        KeyTypeCode::HashKey => "HASH"@,
        KeyTypeCode::StreamKey => "STREAM"@,
    }
}

/// Two distinct labels never coincide, so classification is unambiguous.
pub proof fn lemma_classify_label(t: KeyTypeCode)
    ensures
        classify_spec(label_spec(t)) == Some(t),
{
    match t {
        KeyTypeCode::StringKey => {},
        KeyTypeCode::ListKey => {
            assert(label_spec(t) != label_spec(KeyTypeCode::StringKey));
        },
        KeyTypeCode::SetKey => {
            assert(label_spec(t)[0] != label_spec(KeyTypeCode::ListKey)[0]);
            assert(label_spec(t).len() != label_spec(KeyTypeCode::StringKey).len());
        },
        KeyTypeCode::ZSetKey => {
            assert(label_spec(t)[0] != label_spec(KeyTypeCode::ListKey)[0]);
            assert(label_spec(t).len() != label_spec(KeyTypeCode::StringKey).len());
            assert(label_spec(t).len() != label_spec(KeyTypeCode::SetKey).len());
        },
        KeyTypeCode::HashKey => {
            assert(label_spec(t)[0] != label_spec(KeyTypeCode::ListKey)[0]);
            assert(label_spec(t)[0] != label_spec(KeyTypeCode::ZSetKey)[0]);
            assert(label_spec(t).len() != label_spec(KeyTypeCode::StringKey).len());
            assert(label_spec(t).len() != label_spec(KeyTypeCode::SetKey).len());
        },
        KeyTypeCode::StreamKey => {
            assert(label_spec(t)[3] != label_spec(KeyTypeCode::StringKey)[3]);
            assert(label_spec(t).len() != label_spec(KeyTypeCode::ListKey).len());
            assert(label_spec(t).len() != label_spec(KeyTypeCode::SetKey).len());
            assert(label_spec(t).len() != label_spec(KeyTypeCode::ZSetKey).len());
            assert(label_spec(t).len() != label_spec(KeyTypeCode::HashKey).len());
        },
    }
}

impl KeyTypeCode {
    /// Every variant, in report order.
    pub fn all() -> (r: Vec<KeyTypeCode>)
        ensures
            r@ == all_spec(),
    {
        let r = vec![
            KeyTypeCode::StringKey,
            KeyTypeCode::ListKey,
            KeyTypeCode::SetKey,
            KeyTypeCode::ZSetKey,
            KeyTypeCode::HashKey,
            KeyTypeCode::StreamKey,
        ];
        assert(r@ =~= all_spec());
        r
    }

    /// Lower-case label, as the store names the type.
    pub fn name(self) -> (r: &'static str)
        ensures
            r@ == name_spec(self),
    {
        match self {
            KeyTypeCode::StringKey => "string",
            KeyTypeCode::ListKey => "list",
            KeyTypeCode::SetKey => "set",
            KeyTypeCode::ZSetKey => "zset",
            KeyTypeCode::HashKey => "hash",
            KeyTypeCode::StreamKey => "stream",
        }
    }

    /// Upper-case heading for reports.
    pub fn title(self) -> (r: &'static str)
        ensures
            r@ == title_spec(self),
    {
        match self {
            KeyTypeCode::StringKey => "STRING",
            KeyTypeCode::ListKey => "LIST",
            KeyTypeCode::SetKey => "SET",
            KeyTypeCode::ZSetKey => "ZSET",
            KeyTypeCode::HashKey => "HASH",
            KeyTypeCode::StreamKey => "STREAM",
        }
    }

    /// Slot of this variant in a six-slot table.
    pub fn index(self) -> (r: usize)
        ensures
            r as nat == index_spec(self),
            r < TYPE_COUNT,
    {
        match self {
            KeyTypeCode::StringKey => 0,
            KeyTypeCode::ListKey => 1,
            KeyTypeCode::SetKey => 2,
            KeyTypeCode::ZSetKey => 3,
            KeyTypeCode::HashKey => 4,
            KeyTypeCode::StreamKey => 5,
        }
    }

    /// The label bytes of this variant.
    pub fn label(self) -> (r: Vec<u8>)
        ensures
            r@ == label_spec(self),
    {
        let r: Vec<u8> = match self {
            KeyTypeCode::StringKey => vec![115u8, 116, 114, 105, 110, 103],
            KeyTypeCode::ListKey => vec![108u8, 105, 115, 116],
            KeyTypeCode::SetKey => vec![115u8, 101, 116],
            KeyTypeCode::ZSetKey => vec![122u8, 115, 101, 116],
            KeyTypeCode::HashKey => vec![104u8, 97, 115, 104],
            KeyTypeCode::StreamKey => vec![115u8, 116, 114, 101, 97, 109],
        };
        assert(r@ =~= label_spec(self));
        r
    }
}

/// Byte-wise equality of two slices.
fn bytes_equal(a: &[u8], b: &[u8]) -> (r: bool)
    ensures
        r == (a@ == b@),
{
    if a.len() != b.len() {
        return false;
    }
    let mut i: usize = 0;
    while i < a.len()
        invariant
            a@.len() == b@.len(),
            i <= a@.len(),
            forall|j: int| 0 <= j < i ==> a@[j] == b@[j],
        decreases a@.len() - i,
    {
        if a[i] != b[i] {
            return false;
        }
        i = i + 1;
    }
    assert(a@ =~= b@);
    true
}

/// Classifies a TYPE reply label into one of the six variants; any other
/// label (including "none" for an absent key) yields `None`.
pub fn classify(label: &[u8]) -> (r: Option<KeyTypeCode>)
    ensures
        r == classify_spec(label@),
{
    let all = KeyTypeCode::all();
    let mut i: usize = 0;
    while i < all.len()
        invariant
            all@ == all_spec(),
            i <= 6,
            forall|j: int| 0 <= j < i ==> label@ != label_spec(#[trigger] all_spec()[j]),
        decreases 6 - i,
    {
        let t = all[i];
        let lab = t.label();
        if bytes_equal(label, lab.as_slice()) {
            proof {
                lemma_classify_label(t);
            }
            return Some(t);
        }
        i = i + 1;
    }
    assert(label@ != label_spec(all_spec()[0]));
    assert(label@ != label_spec(all_spec()[1]));
    assert(label@ != label_spec(all_spec()[2]));
    assert(label@ != label_spec(all_spec()[3]));
    assert(label@ != label_spec(all_spec()[4]));
    assert(label@ != label_spec(all_spec()[5]));
    None
}

} // verus!
