//! The id under which a memory is stored.
use vstd::prelude::*;

verus! {

broadcast use vstd::string::group_string_axioms;

/// The bytes of the name-based SHA-1 UUID of `name` in the namespace with the bytes
/// `namespace`.
pub uninterp spec fn uuid_v5(namespace: Seq<u8>, name: Seq<u8>) -> Seq<u8>;

/// `uuid::Uuid::new_v5`, on bytes. Its result is a function of the namespace's bytes and of
/// the name's; it carries the version number 5 in the high half of its seventh byte and the
/// variant `10` in the two high bits of its ninth.
#[verifier::external_body]
fn new_v5(namespace: &[u8; 16], name: &[u8]) -> (r: [u8; 16])
    ensures
        r@ == uuid_v5(namespace@, name@),
        r@[6] / 16 == 5,
        r@[8] / 64 == 2,
{
    uuid::Uuid::new_v5(&uuid::Uuid::from_bytes(*namespace), name).into_bytes()
}

/// The bytes of the namespace of ISO object identifiers.
pub open spec fn oid_namespace() -> Seq<u8> {
    seq![
        0x6b,
        0xa7,
        0xb8,
        0x12,
        0x9d,
        0xad,
        0x11,
        0xd1,
        0x80,
        0xb4,
        0x00,
        0xc0,
        0x4f,
        0xd4,
        0x30,
        0xc8,
    ]
}

/// `uuid::Uuid::NAMESPACE_OID`, as bytes.
#[verifier::external_body]
fn namespace_oid() -> (r: [u8; 16])
    ensures
        r@ == oid_namespace(),
{
    uuid::Uuid::NAMESPACE_OID.into_bytes()
}

/// The lower-case hexadecimal digit of `d`.
pub open spec fn hex_digit(d: int) -> char {
    "0123456789abcdef"@[d]
}

/// The hexadecimal digits of `b`, two to a byte.
pub open spec fn hex(b: Seq<u8>) -> Seq<char> {
    Seq::new(
        2 * b.len(),
        |i: int|
            if i % 2 == 0 {
                hex_digit(b[i / 2] as int / 16)
            } else {
                hex_digit(b[i / 2] as int % 16)
            },
    )
}

/// The text of a UUID: its hexadecimal digits in groups of 8, 4, 4, 4 and 12, with a hyphen
/// between two groups.
pub open spec fn hyphenated(b: Seq<u8>) -> Seq<char> {
    hex(b.subrange(0, 4)) + "-"@ + hex(b.subrange(4, 6)) + "-"@ + hex(b.subrange(6, 8)) + "-"@ + hex(
        b.subrange(8, 10),
    ) + "-"@ + hex(b.subrange(10, 16))
}

/// `uuid::Uuid`'s `to_string`, on bytes: the hyphenated form with lower-case digits.
#[verifier::external_body]
fn uuid_text(bytes: &[u8; 16]) -> (r: String)
    ensures
        r@ == hyphenated(bytes@),
{
    uuid::Uuid::from_bytes(*bytes).to_string()
}

/// The id of a stored point.
#[derive(Debug, Clone, Copy, PartialEq, Eq)]
pub struct PointId {
    pub bytes: [u8; 16],
}

impl PointId {
    /// The id of what is called `name`: the UUIDv5 of its UTF-8 bytes in the namespace of
    /// object identifiers.
    pub fn of_name(name: &str) -> (r: PointId)
        ensures
            r.bytes@ == uuid_v5(oid_namespace(), vstd::utf8::encode_utf8(name@)),
            r.bytes@[6] / 16 == 5,
            r.bytes@[8] / 64 == 2,
    {
        PointId { bytes: new_v5(&namespace_oid(), name.as_bytes()) }
    }

    /// The id as the store writes it.
    pub fn text(&self) -> (r: String)
        ensures
            r@ == hyphenated(self.bytes@),
    {
        uuid_text(&self.bytes)
    }
}

proof fn lemma_hex_digit(d: int)
    requires
        0 <= d < 16,
    ensures
        hex_digit(d) as int == if d < 10 {
            48 + d
        } else {
            87 + d
        },
{
    reveal_strlit("0123456789abcdef");
}

proof fn lemma_hex_injective(a: Seq<u8>, b: Seq<u8>)
    requires
        a.len() == b.len(),
        hex(a) == hex(b),
    ensures
        a == b,
{
    assert forall|i: int| 0 <= i < a.len() implies a[i] == b[i] by {
        assert(hex(a)[2 * i] == hex(b)[2 * i]);
        assert(hex(a)[2 * i + 1] == hex(b)[2 * i + 1]);
        assert((2 * i) / 2 == i && (2 * i) % 2 == 0);
        assert((2 * i + 1) / 2 == i && (2 * i + 1) % 2 == 1);
        lemma_hex_digit(a[i] as int / 16);
        lemma_hex_digit(a[i] as int % 16);
        lemma_hex_digit(b[i] as int / 16);
        lemma_hex_digit(b[i] as int % 16);
        assert(hex(a)[2 * i] == hex_digit(a[i] as int / 16));
        assert(hex(b)[2 * i] == hex_digit(b[i] as int / 16));
        assert(hex(a)[2 * i + 1] == hex_digit(a[i] as int % 16));
        assert(hex(b)[2 * i + 1] == hex_digit(b[i] as int % 16));
        assert(a[i] as int / 16 == b[i] as int / 16);
        assert(a[i] as int % 16 == b[i] as int % 16);
    }
    assert(a =~= b);
}

/// Two ids that are written alike are the same id, so what is asked for by its text is one
/// point and no neighbour of it.
pub proof fn text_tells_ids_apart(a: PointId, b: PointId)
    ensures
        hyphenated(a.bytes@) == hyphenated(b.bytes@) <==> a.bytes@ == b.bytes@,
{
    if hyphenated(a.bytes@) == hyphenated(b.bytes@) {
        let x = a.bytes@;
        let y = b.bytes@;
        let s = hyphenated(x);
        let t = hyphenated(y);
        reveal_strlit("-");
        assert(s.subrange(0, 8) =~= hex(x.subrange(0, 4)));
        assert(t.subrange(0, 8) =~= hex(y.subrange(0, 4)));
        assert(s.subrange(9, 13) =~= hex(x.subrange(4, 6)));
        assert(t.subrange(9, 13) =~= hex(y.subrange(4, 6)));
        assert(s.subrange(14, 18) =~= hex(x.subrange(6, 8)));
        assert(t.subrange(14, 18) =~= hex(y.subrange(6, 8)));
        assert(s.subrange(19, 23) =~= hex(x.subrange(8, 10)));
        assert(t.subrange(19, 23) =~= hex(y.subrange(8, 10)));
        assert(s.subrange(24, 36) =~= hex(x.subrange(10, 16)));
        assert(t.subrange(24, 36) =~= hex(y.subrange(10, 16)));
        lemma_hex_injective(x.subrange(0, 4), y.subrange(0, 4));
        lemma_hex_injective(x.subrange(4, 6), y.subrange(4, 6));
        lemma_hex_injective(x.subrange(6, 8), y.subrange(6, 8));
        lemma_hex_injective(x.subrange(8, 10), y.subrange(8, 10));
        lemma_hex_injective(x.subrange(10, 16), y.subrange(10, 16));
        assert forall|i: int| 0 <= i < 16 implies x[i] == y[i] by {
            if i < 4 {
                assert(x.subrange(0, 4)[i] == y.subrange(0, 4)[i]);
            } else if i < 6 {
                assert(x.subrange(4, 6)[i - 4] == y.subrange(4, 6)[i - 4]);
            } else if i < 8 {
                assert(x.subrange(6, 8)[i - 6] == y.subrange(6, 8)[i - 6]);
            } else if i < 10 {
                assert(x.subrange(8, 10)[i - 8] == y.subrange(8, 10)[i - 8]);
            } else {
                assert(x.subrange(10, 16)[i - 10] == y.subrange(10, 16)[i - 10]);
            }
        }
        assert(x =~= y);
    }
}

} // verus!
