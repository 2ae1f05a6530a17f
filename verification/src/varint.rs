//! Variable-length integers: seven bits to a byte, the lowest seven first, the high bit of a byte
//! saying that another byte follows.

use crate::demostream::IoError;
use vstd::arithmetic::div_mod::*;
use vstd::arithmetic::mul::*;
use vstd::arithmetic::power2::*;
use vstd::prelude::*;

verus! {

/// The most bytes that an encoded `u32` takes.
pub const MAX_VARINT32_BYTES: usize = 5;

/// The most bytes that an encoded `u64` takes.
pub const MAX_VARINT64_BYTES: usize = 10;

/// Why a variable-length integer could not be read from a stream.
#[derive(Debug, Clone, Copy, PartialEq, Eq, Structural)]
pub enum VarintError {
    IoError(IoError),
    /// The integer goes on for longer than its type allows.
    MalformedVarint,
}

/// What the bytes at hand hold where a variable-length integer is expected.
pub enum Uvarint {
    /// A complete number, `size` bytes long.
    Value { value: nat, size: nat },
    /// As many bytes as the type allows, and still another is announced.
    Malformed,
    /// Another byte is announced, but there is none.
    Short,
}

/// The number of leading bytes, counted up to `limit`, that announce another byte.
pub open spec fn continued(bytes: Seq<u8>, limit: nat) -> nat
    decreases limit,
{
    if limit == 0 || bytes.len() == 0 || bytes[0] < 0x80 {
        0
    } else {
        1 + continued(bytes.skip(1), (limit - 1) as nat)
    }
}

/// The number made of the low seven bits of each of the first `n` bytes.
pub open spec fn payload(bytes: Seq<u8>, n: nat) -> nat
    decreases n,
{
    if n == 0 {
        0
    } else {
        payload(bytes, (n - 1) as nat) + pow2((7 * (n - 1)) as nat) * (bytes[n - 1] as nat % 0x80)
    }
}

/// How `bytes` begins, read as an integer of `width` bits in at most `limit` bytes. Bits beyond the
/// width are dropped.
pub open spec fn uvarint(bytes: Seq<u8>, limit: nat, width: nat) -> Uvarint {
    let k = continued(bytes, limit);
    if k == limit {
        Uvarint::Malformed
    } else if k == bytes.len() {
        Uvarint::Short
    } else {
        Uvarint::Value { value: payload(bytes, k + 1) % pow2(width), size: k + 1 }
    }
}

/// [`uvarint`] for a `u32`.
pub open spec fn uvarint32(bytes: Seq<u8>) -> Uvarint {
    uvarint(bytes, MAX_VARINT32_BYTES as nat, 32)
}

/// [`uvarint`] for a `u64`.
pub open spec fn uvarint64(bytes: Seq<u8>) -> Uvarint {
    uvarint(bytes, MAX_VARINT64_BYTES as nat, 64)
}

/// The signed number that zigzag coding stores as `n`: 0, -1, 1, -2, 2 and so on.
pub open spec fn zigzag(n: nat) -> int {
    if n % 2 == 0 {
        n as int / 2
    } else {
        -(n as int / 2) - 1
    }
}

/// The shortest encoding of `value`.
pub open spec fn encode(value: nat) -> Seq<u8>
    decreases value,
{
    if value < 0x80 {
        seq![value as u8]
    } else {
        seq![(value % 0x80 + 0x80) as u8] + encode(value / 0x80)
    }
}

/// A run of `k` continued bytes that ends there is all that [`continued`] counts.
pub(crate) proof fn lemma_continued(bytes: Seq<u8>, limit: nat, k: nat)
    requires
        k <= limit,
        k <= bytes.len(),
        forall|i: int| 0 <= i < k ==> bytes[i] >= 0x80,
        k == limit || k == bytes.len() || bytes[k as int] < 0x80,
    ensures
        continued(bytes, limit) == k,
    decreases k,
{
    if k > 0 {
        lemma_continued(bytes.skip(1), (limit - 1) as nat, (k - 1) as nat);
    }
}

pub(crate) proof fn lemma_continued_bound(bytes: Seq<u8>, limit: nat)
    ensures
        continued(bytes, limit) <= limit,
        continued(bytes, limit) <= bytes.len(),
    decreases limit,
{
    if limit > 0 && bytes.len() > 0 {
        lemma_continued_bound(bytes.skip(1), (limit - 1) as nat);
    }
}

pub(crate) proof fn lemma_payload_bound(bytes: Seq<u8>, n: nat)
    ensures
        payload(bytes, n) < pow2(7 * n),
    decreases n,
{
    lemma2_to64();
    if n > 0 {
        let m = (n - 1) as nat;
        lemma_payload_bound(bytes, m);
        lemma_pow2_adds(7 * m, 7);
        let low = pow2(7 * m) as int;
        let group = (bytes[n - 1] as nat % 0x80) as int;
        assert(low * group <= low * 127) by (nonlinear_arith)
            requires
                0 <= group <= 127,
                0 <= low,
        ;
    }
}

/// One more group in the accumulated number.
pub(crate) proof fn lemma_payload_step(bytes: Seq<u8>, n: nat, scale: nat, limit: nat)
    requires
        n < limit <= MAX_VARINT64_BYTES,
        scale == pow2(7 * n),
    ensures
        payload(bytes, n + 1) == payload(bytes, n) + scale * (bytes[n as int] as nat % 0x80),
        scale * (bytes[n as int] as nat % 0x80) <= scale * 127,
        payload(bytes, n + 1) < pow2(7 * limit),
        scale * 0x80 == pow2(7 * (n + 1)),
        scale * 0x80 <= pow2(70) <= u128::MAX / 2,
{
    lemma_payload_bound(bytes, n + 1);
    lemma2_to64();
    lemma2_to64_rest();
    lemma_pow2_adds(7 * n, 7);
    lemma_pow2_adds(64, 6);
    if n + 1 < limit {
        lemma_pow2_strictly_increases(7 * (n + 1), 7 * limit);
    }
    if n + 1 < 10 {
        lemma_pow2_strictly_increases(7 * (n + 1), 70);
    }
    let group = (bytes[n as int] as nat % 0x80) as int;
    assert(scale as int * group <= scale as int * 127) by (nonlinear_arith)
        requires
            0 <= group <= 127,
            0 <= scale,
    ;
}

/// The bytes of [`encode`], whatever follows them, hold the number that was encoded.
pub proof fn lemma_encode_decodes(value: nat, limit: nat, tail: Seq<u8>)
    requires
        limit > 0,
        value < pow2(7 * limit),
    ensures
        1 <= encode(value).len() <= limit,
        continued(encode(value) + tail, limit) == encode(value).len() - 1,
        payload(encode(value) + tail, encode(value).len()) == value,
    decreases limit,
{
    let bytes = encode(value) + tail;
    lemma2_to64();
    if value < 0x80 {
        assert(bytes[0] == value as u8);
        assert(payload(bytes, 0) == 0);
        assert(payload(bytes, 1) == value) by {
            assert(pow2(0) * (bytes[0] as nat % 0x80) == value);
        }
    } else {
        let rest = encode(value / 0x80) + tail;
        let m = (limit - 1) as nat;
        lemma_pow2_adds(7 * m, 7);
        if m == 0 {
            assert(false);
        }
        assert(value / 0x80 < pow2(7 * m)) by {
            let p = pow2(7 * m) as int;
            assert(value < p * 0x80);
            if value as int / 0x80 >= p {
                assert(value as int >= 0x80 * (value as int / 0x80));
            }
        }
        lemma_encode_decodes(value / 0x80, m, tail);
        assert(bytes.skip(1) =~= rest);
        assert(bytes[0] == (value % 0x80 + 0x80) as u8);
        let n = encode(value / 0x80).len();
        lemma_payload_shift(bytes, n);
        assert(payload(bytes, n + 1) == value);
    }
}

/// The first byte's group is the low part, and the rest the high part.
proof fn lemma_payload_shift(bytes: Seq<u8>, n: nat)
    requires
        n < bytes.len(),
    ensures
        payload(bytes, n + 1) == bytes[0] as nat % 0x80 + 0x80 * payload(bytes.skip(1), n),
    decreases n,
{
    lemma2_to64();
    if n == 0 {
        assert(payload(bytes, 0) == 0);
        assert(pow2(0) * (bytes[0] as nat % 0x80) == bytes[0] as nat % 0x80);
        assert(payload(bytes.skip(1), 0) == 0);
    } else {
        let m = (n - 1) as nat;
        lemma_payload_shift(bytes, m);
        lemma_pow2_adds(7 * m, 7);
        let group = bytes[n as int] as nat % 0x80;
        assert(bytes.skip(1)[m as int] == bytes[n as int]);
        assert(pow2(7 * n) * group == 0x80 * (pow2(7 * m) * group)) by (nonlinear_arith)
            requires
                pow2(7 * n) == pow2(7 * m) * 0x80,
        ;
    }
}

/// Reading gives back what was written: an encoded `u32` reads as itself, in exactly its bytes,
/// whatever follows it.
pub proof fn lemma_uvarint32_round_trip(value: u32, tail: Seq<u8>)
    ensures
        uvarint32(encode(value as nat) + tail) == (Uvarint::Value {
            value: value as nat,
            size: encode(value as nat).len(),
        }),
{
    lemma2_to64();
    lemma2_to64_rest();
    lemma_encode_decodes(value as nat, 5, tail);
    lemma_small_mod(value as nat, pow2(32));
}

/// Reading gives back what was written, for a `u64`.
pub proof fn lemma_uvarint64_round_trip(value: u64, tail: Seq<u8>)
    ensures
        uvarint64(encode(value as nat) + tail) == (Uvarint::Value {
            value: value as nat,
            size: encode(value as nat).len(),
        }),
{
    lemma2_to64();
    lemma2_to64_rest();
    lemma_pow2_adds(64, 6);
    lemma_encode_decodes(value as nat, 10, tail);
    lemma_small_mod(value as nat, pow2(64));
}

/// Reads the variable-length integer at `pos` and moves `pos` past it. Gives its value and the number
/// of bytes that it takes.
pub fn read_uvarint32(data: &[u8], pos: &mut usize) -> (r: Result<(u32, usize), VarintError>)
    requires
        *old(pos) <= data@.len(),
    ensures
        *final(pos) <= data@.len(),
        match crate::demostream::varint_at(data@, *old(pos) as int) {
            (Ok((value, size)), next) => {
                &&& r is Ok
                &&& r->Ok_0.0 == value
                &&& r->Ok_0.1 == size
                &&& 1 <= size <= MAX_VARINT32_BYTES
                &&& *final(pos) == next
            },
            (Err(err), next) => {
                &&& r == Err::<(u32, usize), VarintError>(err)
                &&& *final(pos) == next
            },
        },
{
    let ghost bytes = data@.skip(*pos as int);
    let start: usize = *pos;
    let len: usize = data.len();
    proof {
        lemma2_to64();
        lemma2_to64_rest();
    }
    let mut value: u64 = 0;
    let mut scale: u64 = 1;
    let mut i: usize = 0;
    while i < MAX_VARINT32_BYTES && start + i < len
        invariant
            len == data@.len(),
            i <= MAX_VARINT32_BYTES,
            start == *old(pos),
            start + i <= data@.len(),
            bytes == data@.skip(start as int),
            value == payload(bytes, i as nat),
            scale == pow2(7 * i as nat),
            forall|j: int| 0 <= j < i ==> bytes[j] >= 0x80,
        decreases MAX_VARINT32_BYTES - i,
    {
        let byte: u8 = data[start + i];
        proof {
            lemma2_to64();
            lemma2_to64_rest();
            lemma_payload_step(bytes, i as nat, scale as nat, 5);
            lemma_payload_bound(bytes, i as nat);
            lemma_mul_inequality((byte % 0x80) as int, 127, scale as int);
            lemma_mul_is_commutative((byte % 0x80) as int, scale as int);
            if i < 4 {
                lemma_pow2_strictly_increases(7 * (i + 1) as nat, 35);
            }
        }
        value = value + scale * ((byte % 0x80) as u64);
        if byte < 0x80 {
            proof {
                lemma_continued(bytes, 5, i as nat);
            }
            *pos = start + i + 1;
            return Ok(((value % 0x1_0000_0000) as u32, i + 1));
        }
        scale = scale * 0x80;
        i = i + 1;
    }
    proof {
        lemma_continued(bytes, 5, i as nat);
    }
    *pos = start + i;
    if i == MAX_VARINT32_BYTES {
        Err(VarintError::MalformedVarint)
    } else {
        Err(VarintError::IoError(IoError::UnexpectedEof))
    }
}

/// Every signed number has exactly one zigzag code.
pub proof fn lemma_zigzag_bijective(n: nat, v: int)
    ensures
        zigzag(n) == v <==> n == (if v >= 0 {
            2 * v
        } else {
            -2 * v - 1
        }),
{
}

/// Where every byte at hand announces another, there is no integer: it is too long where there are as
/// many bytes as are allowed, and otherwise it is cut short.
pub proof fn lemma_endless_is_refused(bytes: Seq<u8>, limit: nat, width: nat)
    requires
        forall|i: int| 0 <= i < bytes.len() && i < limit ==> (#[trigger] bytes[i]) >= 0x80,
    ensures
        limit <= bytes.len() ==> uvarint(bytes, limit, width) is Malformed,
        limit > bytes.len() ==> uvarint(bytes, limit, width) is Short,
{
    lemma_continued(
        bytes,
        limit,
        if limit <= bytes.len() {
            limit
        } else {
            bytes.len()
        },
    );
}

/// A `u32` takes at most five bytes and a `u64` at most ten; where still another is announced, the integer
/// is refused.
pub proof fn lemma_too_long_is_refused(bytes: Seq<u8>)
    ensures
        bytes.len() >= 5 && (forall|i: int| 0 <= i < 5 ==> (#[trigger] bytes[i]) >= 0x80)
            ==> uvarint32(bytes) is Malformed,
        bytes.len() >= 10 && (forall|i: int| 0 <= i < 10 ==> (#[trigger] bytes[i]) >= 0x80)
            ==> uvarint64(bytes) is Malformed,
{
    if bytes.len() >= 5 && (forall|i: int| 0 <= i < 5 ==> (#[trigger] bytes[i]) >= 0x80) {
        lemma_endless_is_refused(bytes, 5, 32);
    }
    if bytes.len() >= 10 && (forall|i: int| 0 <= i < 10 ==> (#[trigger] bytes[i]) >= 0x80) {
        lemma_endless_is_refused(bytes, 10, 64);
    }
}

/// Five bytes have room for three bits more than a `u32`, which are dropped.
pub proof fn lemma_uvarint32_drops_high_bits(value: nat, tail: Seq<u8>)
    requires
        value < 0x8_0000_0000,
    ensures
        uvarint32(encode(value) + tail) == (Uvarint::Value {
            value: value % 0x1_0000_0000,
            size: encode(value).len(),
        }),
{
    lemma2_to64();
    lemma2_to64_rest();
    lemma_encode_decodes(value, 5, tail);
}

/// In an encoding all bytes but the last announce another.
pub proof fn lemma_encode_continues(value: nat)
    ensures
        encode(value).len() > 0,
        forall|i: int| 0 <= i < encode(value).len() - 1 ==> (#[trigger] encode(value)[i]) >= 0x80,
        encode(value).last() < 0x80,
    decreases value,
{
    if value >= 0x80 {
        let rest = encode(value / 0x80);
        lemma_encode_continues(value / 0x80);
        assert forall|i: int| 0 <= i < encode(value).len() - 1 implies (#[trigger] encode(value)[i])
            >= 0x80 by {
            if i > 0 {
                assert(encode(value)[i] == rest[i - 1]);
            }
        }
    }
}

} // verus!
