//! Bit-level reading of demo messages.
//!
//! Bits are taken from each byte starting with the least significant one. Every read is checked: a
//! read that would run past the end of the data fails and says so.

use vstd::arithmetic::div_mod::*;
use vstd::arithmetic::mul::*;
use vstd::arithmetic::power2::*;
use vstd::bits::*;
use vstd::prelude::*;

verus! {

/// Why a read failed.
#[derive(Debug, Clone, Copy, PartialEq, Eq, Structural)]
pub enum BitError {
    /// The data ends before the value does.
    Overflow,
    /// The caller's buffer cannot hold what was read.
    BufferTooSmall,
    /// A variable-length integer goes on for longer than its type allows.
    MalformedVarint,
}

/// The number of bits in the integer part of a coordinate.
pub const COORD_INTEGER_BITS: usize = 14;

/// The number of bits in the fraction of a coordinate.
pub const COORD_FRACTIONAL_BITS: usize = 5;

/// The number of bits in the fraction of a component of a normal.
pub const NORMAL_FRACTIONAL_BITS: usize = 11;

/// A coordinate: `intval + fractval / 32`, with its sign beside it because zero has one too.
#[derive(Debug, Clone, Copy, PartialEq, Eq, Structural)]
pub struct BitCoord {
    pub negative: bool,
    pub intval: u32,
    pub fractval: u32,
}

/// A component of a normal: `fractval / 2047`, with its sign.
#[derive(Debug, Clone, Copy, PartialEq, Eq, Structural)]
pub struct BitNormal {
    pub negative: bool,
    pub fractval: u32,
}

/// A normal: two components, and the sign of the third, which makes the length one.
#[derive(Debug, Clone, Copy, PartialEq, Eq, Structural)]
pub struct BitVec3Normal {
    pub x: BitNormal,
    pub y: BitNormal,
    pub znegative: bool,
}

/// An angle: `value / full_turn` of a full turn.
#[derive(Debug, Clone, Copy, PartialEq, Eq, Structural)]
pub struct BitAngle {
    pub value: u64,
    pub full_turn: u128,
}

/// A position in a sequence of bytes, counted in bits: what a [`BitReader`] stands for.
pub struct BitStream {
    pub data: Seq<u8>,
    pub pos: int,
}

impl BitStream {
    /// The number of bits between the position and the end of the data.
    pub open spec fn bits_left(self) -> int {
        8 * self.data.len() - self.pos
    }

    /// The stream after `n` more bits.
    pub open spec fn skip(self, n: int) -> BitStream {
        BitStream { data: self.data, pos: self.pos + n }
    }

    /// The bit at the position, 0 or 1.
    pub open spec fn bit(self) -> nat {
        (self.data[self.pos / 8] as nat / pow2((self.pos % 8) as nat)) % 2
    }

    /// The next `n` bits as a number, the first bit being the least significant one.
    pub open spec fn bits(self, n: nat) -> nat
        decreases n,
    {
        if n == 0 {
            0
        } else {
            self.bit() + 2 * self.skip(1).bits((n - 1) as nat)
        }
    }

    /// The whole bytes that can still be read from the position.
    pub open spec fn bytes(self) -> Seq<u8> {
        Seq::new((self.bits_left() / 8) as nat, |i: int| self.skip(8 * i).bits(8) as u8)
    }

    /// The next `n` bits packed into bytes, the last of which may not be full.
    pub open spec fn packed(self, n: int) -> Seq<u8> {
        Seq::new(
            ((n + 7) / 8) as nat,
            |i: int|
                self.skip(8 * i).bits(
                    if n - 8 * i < 8 {
                        (n - 8 * i) as nat
                    } else {
                        8
                    },
                ) as u8,
        )
    }
}

/// What reading some value gives, and the stream after it.
pub type Read<T> = (Result<T, BitError>, BitStream);

impl BitStream {
    /// The next `n` bits as a number, if there are as many.
    pub open spec fn ubits(self, n: nat) -> Read<nat> {
        if self.bits_left() < n {
            (Err(BitError::Overflow), self)
        } else {
            (Ok(self.bits(n)), self.skip(n as int))
        }
    }

    /// The variable-length integer ahead.
    pub open spec fn uvarint(self, limit: nat, width: nat) -> Read<nat> {
        match crate::varint::uvarint(self.bytes(), limit, width) {
            crate::varint::Uvarint::Value { value, size } => (
                Ok(value),
                self.skip(8 * size as int),
            ),
            crate::varint::Uvarint::Malformed => (
                Err(BitError::MalformedVarint),
                self.skip(8 * limit as int),
            ),
            crate::varint::Uvarint::Short => (
                Err(BitError::Overflow),
                self.skip(8 * self.bytes().len() as int),
            ),
        }
    }

    pub open spec fn uvarint32(self) -> Read<nat> {
        self.uvarint(crate::varint::MAX_VARINT32_BYTES as nat, 32)
    }

    pub open spec fn uvarint64(self) -> Read<nat> {
        self.uvarint(crate::varint::MAX_VARINT64_BYTES as nat, 64)
    }

    /// How many bits follow the first six of a number whose selector is `selector`.
    pub open spec fn ubitvar_more(selector: nat) -> nat {
        if selector == 0 {
            0
        } else if selector == 1 {
            4
        } else if selector == 2 {
            8
        } else {
            28
        }
    }

    /// The number ahead in the form that [`BitReader::read_ubitvar`] reads.
    pub open spec fn ubitvar(self) -> Read<nat> {
        match self.ubits(6) {
            (Err(err), next) => (Err(err), next),
            (Ok(head), next) => match next.ubits(Self::ubitvar_more(head / 16)) {
                (Err(err), next) => (Err(err), next),
                (Ok(high), next) => (Ok(head % 16 + 16 * high), next),
            },
        }
    }

    /// The coordinate ahead. The flags say which of its parts are there; a stored integer is one
    /// less than the coordinate's.
    pub open spec fn bitcoord(self) -> Read<BitCoord> {
        let overflow = Err(BitError::Overflow);
        if self.bits_left() < 2 {
            (overflow, self.skip(self.bits_left()))
        } else if self.bit() == 0 && self.skip(1).bit() == 0 {
            (Ok(BitCoord { negative: false, intval: 0, fractval: 0 }), self.skip(2))
        } else if self.bits_left() < 3 {
            (overflow, self.skip(2))
        } else {
            let negative = self.skip(2).bit() == 1;
            let int_bits: nat = if self.bit() == 1 {
                COORD_INTEGER_BITS as nat
            } else {
                0
            };
            let fract_bits: nat = if self.skip(1).bit() == 1 {
                COORD_FRACTIONAL_BITS as nat
            } else {
                0
            };
            let body = self.skip(3);
            if body.bits_left() < int_bits {
                (overflow, body)
            } else if body.bits_left() < int_bits + fract_bits {
                (overflow, body.skip(int_bits as int))
            } else {
                (
                    Ok(
                        BitCoord {
                            negative,
                            intval: (if int_bits == 0 {
                                0
                            } else {
                                body.bits(int_bits) + 1
                            }) as u32,
                            fractval: body.skip(int_bits as int).bits(fract_bits) as u32,
                        },
                    ),
                    body.skip((int_bits + fract_bits) as int),
                )
            }
        }
    }

    /// The component of a normal ahead.
    pub open spec fn bitnormal(self) -> Read<BitNormal> {
        if self.bits_left() < 1 {
            (Err(BitError::Overflow), self)
        } else {
            match self.skip(1).ubits(NORMAL_FRACTIONAL_BITS as nat) {
                (Ok(value), next) => (
                    Ok(BitNormal { negative: self.bit() == 1, fractval: value as u32 }),
                    next,
                ),
                (Err(err), next) => (Err(err), next),
            }
        }
    }

    /// The coordinate ahead where `flag` says that there is one, and otherwise zero.
    pub open spec fn bitcoord_if(self, flag: bool) -> Read<BitCoord> {
        if flag {
            self.bitcoord()
        } else {
            (Ok(BitCoord { negative: false, intval: 0, fractval: 0 }), self)
        }
    }

    /// The component ahead where `flag` says that there is one, and otherwise zero.
    pub open spec fn bitnormal_if(self, flag: bool) -> Read<BitNormal> {
        if flag {
            self.bitnormal()
        } else {
            (Ok(BitNormal { negative: false, fractval: 0 }), self)
        }
    }

    /// The three coordinates ahead.
    pub open spec fn bitvec3coord(self) -> Read<Seq<BitCoord>> {
        if self.bits_left() < 3 {
            (Err(BitError::Overflow), self.skip(self.bits_left()))
        } else {
            match self.skip(3).bitcoord_if(self.bit() == 1) {
                (Err(err), next) => (Err(err), next),
                (Ok(x), next) => match next.bitcoord_if(self.skip(1).bit() == 1) {
                    (Err(err), next) => (Err(err), next),
                    (Ok(y), next) => match next.bitcoord_if(self.skip(2).bit() == 1) {
                        (Err(err), next) => (Err(err), next),
                        (Ok(z), next) => (Ok(seq![x, y, z]), next),
                    },
                },
            }
        }
    }

    /// The normal ahead.
    pub open spec fn bitvec3normal(self) -> Read<BitVec3Normal> {
        if self.bits_left() < 2 {
            (Err(BitError::Overflow), self.skip(self.bits_left()))
        } else {
            match self.skip(2).bitnormal_if(self.bit() == 1) {
                (Err(err), next) => (Err(err), next),
                (Ok(x), next) => match next.bitnormal_if(self.skip(1).bit() == 1) {
                    (Err(err), next) => (Err(err), next),
                    (Ok(y), next) => if next.bits_left() < 1 {
                        (Err(BitError::Overflow), next)
                    } else {
                        (Ok(BitVec3Normal { x, y, znegative: next.bit() == 1 }), next.skip(1))
                    },
                },
            }
        }
    }

    /// How many of the next `n` flags are unset before the first one that is set.
    pub open spec fn flags_unset(self, n: nat) -> nat
        decreases n,
    {
        if n == 0 || self.bit() == 1 {
            0
        } else {
            1 + self.skip(1).flags_unset((n - 1) as nat)
        }
    }

    /// The width selected by a flag that `unset` unset flags precede.
    pub open spec fn ubitvarfp_width(unset: nat) -> nat {
        if unset == 0 {
            2
        } else if unset == 1 {
            4
        } else if unset == 2 {
            10
        } else if unset == 3 {
            17
        } else {
            31
        }
    }

    /// The number ahead in the form that [`BitReader::read_ubitvarfp`] reads.
    pub open spec fn ubitvarfp(self) -> Read<nat> {
        let unset = self.flags_unset(4);
        let flags = if unset == 4 {
            4
        } else {
            unset + 1
        };
        if self.bits_left() < flags {
            (Err(BitError::Overflow), self.skip(self.bits_left()))
        } else {
            self.skip(flags as int).ubits(Self::ubitvarfp_width(unset))
        }
    }
}

/// Whether `byte` ends a string: a null byte does, and a line feed where a line is read.
pub open spec fn ends_string(byte: u8, line: bool) -> bool {
    byte == 0 || (line && byte == 10)
}

/// The number of bytes before the first one that ends a string, or all of them if none does.
pub open spec fn string_len(bytes: Seq<u8>, line: bool) -> nat
    decreases bytes.len(),
{
    if bytes.len() == 0 || ends_string(bytes[0], line) {
        0
    } else {
        1 + string_len(bytes.skip(1), line)
    }
}

proof fn lemma_string_len(bytes: Seq<u8>, line: bool, n: nat)
    requires
        n <= bytes.len(),
        forall|i: int| 0 <= i < n ==> !ends_string(bytes[i], line),
        n == bytes.len() || ends_string(bytes[n as int], line),
    ensures
        string_len(bytes, line) == n,
    decreases n,
{
    if n > 0 {
        lemma_string_len(bytes.skip(1), line, (n - 1) as nat);
    }
}

/// `n` bits make a number below `2^n`.
pub proof fn lemma_bits_bound(s: BitStream, n: nat)
    ensures
        s.bits(n) < pow2(n),
    decreases n,
{
    if n == 0 {
        lemma2_to64();
    } else {
        lemma_bits_bound(s.skip(1), (n - 1) as nat);
        lemma_pow2_unfold(n);
    }
}

/// Reading `a` bits and then `b` bits gives the low and the high part of the number that reading
/// `a + b` bits at once gives.
pub proof fn lemma_bits_split(s: BitStream, a: nat, b: nat)
    ensures
        s.bits(a + b) == s.bits(a) + pow2(a) * s.skip(a as int).bits(b),
    decreases a,
{
    if a == 0 {
        lemma2_to64();
        assert(s.skip(0) == s);
    } else {
        let rest = s.skip(1);
        lemma_bits_split(rest, (a - 1) as nat, b);
        assert(rest.skip(a - 1) == s.skip(a as int));
        assert((a + b - 1) as nat == (a - 1) as nat + b);
        lemma_pow2_unfold(a);
        let high = s.skip(a as int).bits(b);
        assert(2 * (pow2((a - 1) as nat) * high) == pow2(a) * high) by (nonlinear_arith)
            requires
                pow2(a) == 2 * pow2((a - 1) as nat),
        ;
    }
}

/// Bits that lie within one byte are that byte shifted and masked.
pub proof fn lemma_bits_in_byte(s: BitStream, k: nat)
    requires
        0 <= s.pos,
        s.pos % 8 + k <= 8,
    ensures
        s.bits(k) == (s.data[s.pos / 8] as nat / pow2((s.pos % 8) as nat)) % pow2(k),
    decreases k,
{
    let byte = s.data[s.pos / 8] as nat;
    let off = (s.pos % 8) as nat;
    lemma2_to64();
    lemma_pow2_pos(off);
    let x = byte / pow2(off);
    if k == 0 {
    } else if k == 1 {
        assert(s.skip(1).bits(0) == 0);
    } else {
        let rest = s.skip(1);
        assert(rest.pos / 8 == s.pos / 8 && rest.pos % 8 == off + 1);
        lemma_bits_in_byte(rest, (k - 1) as nat);
        lemma_pow2_unfold(off + 1);
        lemma_pow2_unfold(k);
        lemma_pow2_pos((k - 1) as nat);
        lemma_div_denominator(byte as int, pow2(off) as int, 2);
        assert(byte / pow2(off + 1) == x / 2) by {
            assert(pow2(off) * 2 == pow2(off + 1));
        }
        lemma_mod_breakdown(x as int, 2, pow2((k - 1) as nat) as int);
    }
}

/// Reads values of any number of bits from a slice of bytes.
pub struct BitReader<'a> {
    data: &'a [u8],
    pos: usize,
    did_check_overflow: bool,
}

impl<'a> BitReader<'a> {
    #[verifier::type_invariant]
    spec fn inv(self) -> bool {
        self.pos <= 8 * self.data@.len() <= usize::MAX
    }

    /// The stream of bits that the reader has before it.
    pub closed spec fn view(self) -> BitStream {
        BitStream { data: self.data@, pos: self.pos as int }
    }

    /// Whether the caller has asked if the data was long enough.
    pub closed spec fn checked_overflow(self) -> bool {
        self.did_check_overflow
    }

    /// Starts reading at the first bit of `data`.
    #[must_use]
    pub fn new(data: &'a [u8]) -> (r: Self)
        requires
            8 * data@.len() <= usize::MAX,
        ensures
            r@ == (BitStream { data: data@, pos: 0 }),
            !r.checked_overflow(),
    {
        BitReader { data, pos: 0, did_check_overflow: false }
    }

    /// Starts reading at the bit `pos` of `data`.
    #[must_use]
    pub fn resume_at(data: &'a [u8], pos: usize) -> (r: Self)
        requires
            pos <= 8 * data@.len() <= usize::MAX,
        ensures
            r@ == (BitStream { data: data@, pos: pos as int }),
            !r.checked_overflow(),
    {
        BitReader { data, pos, did_check_overflow: false }
    }

    /// The number of bits that lie before the position.
    #[must_use]
    pub fn position(&self) -> (r: usize)
        ensures
            r == self@.pos,
            r <= 8 * self@.data.len(),
    {
        proof {
            use_type_invariant(self);
        }
        self.pos
    }

    /// The number of bits that can still be read.
    #[must_use]
    pub fn num_bits_left(&self) -> (r: usize)
        ensures
            r == self@.bits_left(),
    {
        proof {
            use_type_invariant(self);
        }
        self.data.len() * 8 - self.pos
    }

    /// Reads `num_bits` bits as an unsigned number.
    pub fn read_ubit64(&mut self, num_bits: usize) -> (r: Result<u64, BitError>)
        requires
            num_bits <= 64,
        ensures
            final(self).checked_overflow() == old(self).checked_overflow(),
            old(self)@.bits_left() >= num_bits ==> {
                &&& r is Ok
                &&& r->Ok_0 == old(self)@.bits(num_bits as nat)
                &&& final(self)@ == old(self)@.skip(num_bits as int)
            },
            old(self)@.bits_left() < num_bits ==> {
                &&& r == Err::<u64, BitError>(BitError::Overflow)
                &&& final(self)@ == old(self)@
            },
    {
        proof {
            use_type_invariant(&*self);
        }
        if self.num_bits_left() < num_bits {
            return Err(BitError::Overflow);
        }
        let ghost start = self@;
        let data: &[u8] = self.data;
        let mut pos: usize = self.pos;
        let mut got: usize = 0;
        let mut value: u64 = 0;
        while got < num_bits
            invariant
                got <= num_bits <= 64,
                pos == start.pos + got,
                start.data == data@,
                0 <= start.pos,
                start.pos + num_bits <= 8 * data@.len() <= usize::MAX,
                value == start.bits(got as nat),
            decreases num_bits - got,
        {
            let off: usize = pos % 8;
            let room: usize = 8 - off;
            let left: usize = num_bits - got;
            let take: usize = if left < room {
                left
            } else {
                room
            };
            let byte: u64 = data[pos / 8] as u64;
            proof {
                lemma_u64_shr_is_div(byte, off as u64);
                lemma2_to64();
                lemma2_to64_rest();
                lemma_u64_shl_is_mul(1, take as u64);
            }
            let chunk: u64 = (byte >> (off as u64)) % (1u64 << (take as u64));
            proof {
                lemma_bits_in_byte(start.skip(got as int), take as nat);
                lemma_bits_split(start, got as nat, take as nat);
                lemma_bits_bound(start, (got + take) as nat);
                if got + take < 64 {
                    lemma_pow2_strictly_increases((got + take) as nat, 64);
                }
                lemma_mul_is_commutative(chunk as int, pow2(got as nat) as int);
                lemma_u64_shl_is_mul(chunk, got as u64);
            }
            value = value + (chunk << (got as u64));
            got = got + take;
            pos = pos + take;
        }
        self.pos = pos;
        Ok(value)
    }

    /// Reads one bit as a flag.
    pub fn read_bool(&mut self) -> (r: Result<bool, BitError>)
        ensures
            final(self).checked_overflow() == old(self).checked_overflow(),
            old(self)@.bits_left() >= 1 ==> {
                &&& r == Ok::<bool, BitError>(old(self)@.bit() == 1)
                &&& final(self)@ == old(self)@.skip(1)
            },
            old(self)@.bits_left() < 1 ==> {
                &&& r == Err::<bool, BitError>(BitError::Overflow)
                &&& final(self)@ == old(self)@
            },
    {
        proof {
            assert(self@.skip(1).bits(0) == 0);
        }
        match self.read_ubit64(1) {
            Ok(bit) => Ok(bit == 1),
            Err(err) => Err(err),
        }
    }

    /// Reads eight bits as a byte.
    pub fn read_byte(&mut self) -> (r: Result<u8, BitError>)
        ensures
            final(self).checked_overflow() == old(self).checked_overflow(),
            old(self)@.bits_left() >= 8 ==> {
                &&& r is Ok
                &&& r->Ok_0 == old(self)@.bits(8)
                &&& r->Ok_0 == old(self)@.bytes()[0]
                &&& final(self)@ == old(self)@.skip(8)
            },
            old(self)@.bits_left() < 8 ==> {
                &&& r == Err::<u8, BitError>(BitError::Overflow)
                &&& final(self)@ == old(self)@
            },
    {
        proof {
            lemma_bits_bound(self@, 8);
            lemma2_to64();
            assert(self@.skip(0) == self@);
        }
        match self.read_ubit64(8) {
            Ok(byte) => Ok(byte as u8),
            Err(err) => Err(err),
        }
    }

    /// Reads `num_bits` bits into `buf`, eight to a byte; a last byte that is not full holds its
    /// bits in its low end. The rest of `buf` stays as it is.
    pub fn read_bits(&mut self, buf: &mut [u8], num_bits: usize) -> (r: Result<(), BitError>)
        ensures
            final(self).checked_overflow() == old(self).checked_overflow(),
            final(buf)@.len() == old(buf)@.len(),
            num_bits > 8 * old(buf)@.len() ==> {
                &&& r == Err::<(), BitError>(BitError::BufferTooSmall)
                &&& final(self)@ == old(self)@
                &&& final(buf)@ == old(buf)@
            },
            old(self)@.bits_left() < num_bits <= 8 * old(buf)@.len() ==> {
                &&& r == Err::<(), BitError>(BitError::Overflow)
                &&& final(self)@ == old(self)@
                &&& final(buf)@ == old(buf)@
            },
            num_bits <= 8 * old(buf)@.len() && num_bits <= old(self)@.bits_left() ==> {
                &&& r is Ok
                &&& final(self)@ == old(self)@.skip(num_bits as int)
                &&& final(buf)@ == old(self)@.packed(num_bits as int) + old(buf)@.skip(
                    (num_bits + 7) / 8,
                )
            },
    {
        let whole: usize = num_bits / 8;
        let part: usize = num_bits % 8;
        if buf.len() < whole || (buf.len() == whole && part > 0) {
            return Err(BitError::BufferTooSmall);
        }
        if self.num_bits_left() < num_bits {
            return Err(BitError::Overflow);
        }
        let ghost start = self@;
        let ghost before = buf@;
        let mut i: usize = 0;
        while i < whole
            invariant
                i <= whole,
                8 * whole + part == num_bits,
                part < 8,
                whole <= before.len(),
                num_bits <= start.bits_left(),
                self@ == start.skip(8 * i),
                self.checked_overflow() == old(self).checked_overflow(),
                buf@.len() == before.len(),
                forall|j: int| 0 <= j < i ==> buf@[j] == #[trigger] start.skip(8 * j).bits(8),
                forall|j: int| i <= j < before.len() ==> buf@[j] == before[j],
            decreases whole - i,
        {
            match self.read_byte() {
                Ok(byte) => {
                    buf[i] = byte;
                },
                Err(err) => {
                    return Err(err);
                },
            }
            i = i + 1;
        }
        if part > 0 {
            proof {
                lemma_bits_bound(self@, part as nat);
                lemma2_to64();
            }
            match self.read_ubit64(part) {
                Ok(bits) => {
                    buf[whole] = bits as u8;
                },
                Err(err) => {
                    return Err(err);
                },
            }
        }
        assert(buf@ =~= start.packed(num_bits as int) + before.skip((num_bits + 7) / 8));
        Ok(())
    }

    /// Fills `buf` with the next bytes.
    pub fn read_bytes(&mut self, buf: &mut [u8]) -> (r: Result<(), BitError>)
        ensures
            final(self).checked_overflow() == old(self).checked_overflow(),
            final(buf)@.len() == old(buf)@.len(),
            old(buf)@.len() <= old(self)@.bytes().len() ==> {
                &&& r is Ok
                &&& final(self)@ == old(self)@.skip(8 * old(buf)@.len() as int)
                &&& final(buf)@ == old(self)@.bytes().take(old(buf)@.len() as int)
            },
            old(buf)@.len() > old(self)@.bytes().len() ==> {
                &&& r == Err::<(), BitError>(BitError::Overflow)
                &&& final(self)@ == old(self)@
                &&& final(buf)@ == old(buf)@
            },
    {
        if buf.len() > self.num_bits_left() / 8 {
            return Err(BitError::Overflow);
        }
        let ghost start = self@;
        let r = self.read_bits(buf, buf.len() * 8);
        assert(buf@ =~= start.bytes().take(buf@.len() as int)) by {
            assert forall|i: int| 0 <= i < buf@.len() implies buf@[i] == start.bytes()[i] by {
                lemma_bits_bound(start.skip(8 * i), 8);
                lemma2_to64();
            }
        }
        r
    }

    /// Says whether reading has gone past the end of the data. It never has: every read checks.
    pub fn is_overflowed(&mut self) -> (r: Result<(), BitError>)
        ensures
            r is Ok,
            final(self)@ == old(self)@,
            final(self).checked_overflow(),
    {
        proof {
            use_type_invariant(&*self);
        }
        self.did_check_overflow = true;
        if self.pos > self.data.len() * 8 {
            Err(BitError::Overflow)
        } else {
            Ok(())
        }
    }

    /// Reads a variable-length integer of at most `limit` bytes, every bit of it.
    fn read_uvarint(&mut self, limit: usize) -> (r: Result<u128, BitError>)
        requires
            limit <= crate::varint::MAX_VARINT64_BYTES,
        ensures
            final(self).checked_overflow() == old(self).checked_overflow(),
            match crate::varint::uvarint(old(self)@.bytes(), limit as nat, 128) {
                crate::varint::Uvarint::Value { value, size } => {
                    &&& r is Ok
                    &&& r->Ok_0 == crate::varint::payload(old(self)@.bytes(), size)
                    &&& final(self)@ == old(self)@.skip(8 * size as int)
                },
                crate::varint::Uvarint::Malformed => {
                    &&& r == Err::<u128, BitError>(BitError::MalformedVarint)
                    &&& final(self)@ == old(self)@.skip(8 * limit)
                },
                crate::varint::Uvarint::Short => {
                    &&& r == Err::<u128, BitError>(BitError::Overflow)
                    &&& final(self)@ == old(self)@.skip(8 * old(self)@.bytes().len() as int)
                },
            },
    {
        let ghost start = self@;
        let ghost bytes = self@.bytes();
        proof {
            use_type_invariant(&*self);
            lemma2_to64();
            assert(start.skip(0) == start);
        }
        let mut value: u128 = 0;
        let mut scale: u128 = 1;
        let mut i: usize = 0;
        while i < limit
            invariant
                i <= limit <= crate::varint::MAX_VARINT64_BYTES,
                start == old(self)@,
                0 <= start.bits_left(),
                bytes == start.bytes(),
                i <= bytes.len(),
                self@ == start.skip(8 * i),
                self.checked_overflow() == old(self).checked_overflow(),
                value == crate::varint::payload(bytes, i as nat),
                scale == pow2(7 * i as nat),
                forall|j: int| 0 <= j < i ==> bytes[j] >= 0x80,
            decreases limit - i,
        {
            proof {
                lemma_bytes_skip(start, i as int);
                crate::varint::lemma_payload_step(bytes, i as nat, scale as nat, limit as nat);
                crate::varint::lemma_payload_bound(bytes, i as nat);
            }
            match self.read_byte() {
                Ok(byte) => {
                    proof {
                        assert(byte == bytes[i as int]);
                        lemma_mul_inequality((byte % 0x80) as int, 127, scale as int);
                        lemma_mul_is_commutative((byte % 0x80) as int, scale as int);
                        lemma_pow2_adds(64, 6);
                        lemma2_to64_rest();
                        if limit < 10 {
                            lemma_pow2_strictly_increases(7 * limit as nat, 70);
                        }
                    }
                    value = value + scale * ((byte % 0x80) as u128);
                    if byte < 0x80 {
                        proof {
                            crate::varint::lemma_continued(bytes, limit as nat, i as nat);
                        }
                        return Ok(value);
                    }
                    scale = scale * 0x80;
                },
                Err(err) => {
                    proof {
                        crate::varint::lemma_continued(bytes, limit as nat, i as nat);
                    }
                    return Err(err);
                },
            }
            i = i + 1;
        }
        proof {
            crate::varint::lemma_continued(bytes, limit as nat, i as nat);
        }
        Err(BitError::MalformedVarint)
    }

    /// Reads an unsigned variable-length integer of up to 32 bits.
    pub fn read_uvarint32(&mut self) -> (r: Result<u32, BitError>)
        ensures
            final(self).checked_overflow() == old(self).checked_overflow(),
            match old(self)@.uvarint32() {
                (Ok(value), next) => r is Ok && r->Ok_0 == value && final(self)@ == next,
                (Err(err), next) => r == Err::<u32, BitError>(err) && final(self)@ == next,
            },
    {
        proof {
            lemma2_to64();
        }
        match self.read_uvarint(crate::varint::MAX_VARINT32_BYTES) {
            Ok(value) => Ok((value % 0x1_0000_0000) as u32),
            Err(err) => Err(err),
        }
    }

    /// Reads an unsigned variable-length integer of up to 64 bits.
    pub fn read_uvarint64(&mut self) -> (r: Result<u64, BitError>)
        ensures
            final(self).checked_overflow() == old(self).checked_overflow(),
            match old(self)@.uvarint64() {
                (Ok(value), next) => r is Ok && r->Ok_0 == value && final(self)@ == next,
                (Err(err), next) => r == Err::<u64, BitError>(err) && final(self)@ == next,
            },
    {
        proof {
            lemma2_to64();
            lemma2_to64_rest();
        }
        match self.read_uvarint(crate::varint::MAX_VARINT64_BYTES) {
            Ok(value) => Ok((value % 0x1_0000_0000_0000_0000) as u64),
            Err(err) => Err(err),
        }
    }

    /// Reads a signed, zigzag coded variable-length integer of up to 32 bits.
    pub fn read_varint32(&mut self) -> (r: Result<i32, BitError>)
        ensures
            final(self).checked_overflow() == old(self).checked_overflow(),
            match old(self)@.uvarint32() {
                (Ok(value), next) => {
                    &&& r is Ok
                    &&& r->Ok_0 == crate::varint::zigzag(value)
                    &&& final(self)@ == next
                },
                (Err(err), next) => r == Err::<i32, BitError>(err) && final(self)@ == next,
            },
    {
        match self.read_uvarint32() {
            Ok(value) => {
                let half: i32 = (value / 2) as i32;
                if value % 2 == 0 {
                    Ok(half)
                } else {
                    Ok(-half - 1)
                }
            },
            Err(err) => Err(err),
        }
    }

    /// Reads a signed, zigzag coded variable-length integer of up to 64 bits.
    pub fn read_varint64(&mut self) -> (r: Result<i64, BitError>)
        ensures
            final(self).checked_overflow() == old(self).checked_overflow(),
            match old(self)@.uvarint64() {
                (Ok(value), next) => {
                    &&& r is Ok
                    &&& r->Ok_0 == crate::varint::zigzag(value)
                    &&& final(self)@ == next
                },
                (Err(err), next) => r == Err::<i64, BitError>(err) && final(self)@ == next,
            },
    {
        match self.read_uvarint64() {
            Ok(value) => {
                let half: i64 = (value / 2) as i64;
                if value % 2 == 0 {
                    Ok(half)
                } else {
                    Ok(-half - 1)
                }
            },
            Err(err) => Err(err),
        }
    }

    /// Reads a number of 4, 8, 12 or 32 bits. It starts with six bits: the four lowest bits of the
    /// number, then a selector for how many more bits follow (none, 4, 8 or 28).
    pub fn read_ubitvar(&mut self) -> (r: Result<u32, BitError>)
        ensures
            final(self).checked_overflow() == old(self).checked_overflow(),
            match old(self)@.ubitvar() {
                (Ok(value), next) => r is Ok && r->Ok_0 == value && final(self)@ == next,
                (Err(err), next) => r == Err::<u32, BitError>(err) && final(self)@ == next,
            },
    {
        let ghost start = self@;
        proof {
            lemma_bits_bound(start, 6);
            lemma2_to64();
        }
        let head: u64 = match self.read_ubit64(6) {
            Ok(bits) => bits,
            Err(err) => {
                return Err(err);
            },
        };
        let low: u64 = head % 16;
        let selector: u64 = head / 16;
        let more: usize = if selector == 0 {
            0
        } else if selector == 1 {
            4
        } else if selector == 2 {
            8
        } else {
            28
        };
        proof {
            lemma_bits_bound(start.skip(6), more as nat);
        }
        match self.read_ubit64(more) {
            Ok(high) => Ok((low + 16 * high) as u32),
            Err(err) => Err(err),
        }
    }

    /// Reads a number of 2, 4, 10, 17 or 31 bits, the width that field paths are packed in. Up to
    /// four flags come first, and the first one that is set selects the width; 31 bits follow where
    /// none is.
    pub fn read_ubitvarfp(&mut self) -> (r: Result<u32, BitError>)
        ensures
            final(self).checked_overflow() == old(self).checked_overflow(),
            match old(self)@.ubitvarfp() {
                (Ok(value), next) => r is Ok && r->Ok_0 == value && final(self)@ == next,
                (Err(err), next) => r == Err::<u32, BitError>(err) && final(self)@ == next,
            },
    {
        let ghost start = self@;
        proof {
            use_type_invariant(&*self);
            assert(start.skip(0) == start);
        }
        let mut flags: usize = 0;
        let mut found: bool = false;
        while flags < 4 && !found
            invariant
                flags <= 4,
                start == old(self)@,
                0 <= start.bits_left(),
                found ==> flags > 0,
                self@ == start.skip(flags as int),
                self.checked_overflow() == old(self).checked_overflow(),
                flags <= start.bits_left(),
                start.flags_unset(4) == (if found {
                    (flags - 1) as nat
                } else {
                    flags as nat + start.skip(flags as int).flags_unset((4 - flags) as nat)
                }),
                found ==> start.skip(flags - 1).bit() == 1,
            decreases 4 - flags,
        {
            match self.read_bool() {
                Ok(flag) => {
                    found = flag;
                },
                Err(err) => {
                    return Err(err);
                },
            }
            flags = flags + 1;
        }
        let width: usize = if !found {
            31
        } else if flags == 1 {
            2
        } else if flags == 2 {
            4
        } else if flags == 3 {
            10
        } else {
            17
        };
        proof {
            lemma_bits_bound(self@, width as nat);
            lemma2_to64();
        }
        match self.read_ubit64(width) {
            Ok(value) => Ok(value as u32),
            Err(err) => Err(err),
        }
    }

    /// Reads the bit pattern of a 32-bit floating point number.
    pub fn read_bitfloat(&mut self) -> (r: Result<u32, BitError>)
        ensures
            final(self).checked_overflow() == old(self).checked_overflow(),
            match old(self)@.ubits(32) {
                (Ok(value), next) => r is Ok && r->Ok_0 == value && final(self)@ == next,
                (Err(err), next) => r == Err::<u32, BitError>(err) && final(self)@ == next,
            },
    {
        proof {
            lemma_bits_bound(self@, 32);
            lemma2_to64();
        }
        let bits: u64 = self.read_ubit64(32)?;
        Ok(bits as u32)
    }

    /// Reads a coordinate: a flag for each of its integer and its fraction, then, where one is set,
    /// the sign and the parts that are there.
    pub fn read_bitcoord(&mut self) -> (r: Result<BitCoord, BitError>)
        ensures
            final(self).checked_overflow() == old(self).checked_overflow(),
            (r, final(self)@) == old(self)@.bitcoord(),
    {
        proof {
            use_type_invariant(&*self);
            assert(self@.skip(0) == self@);
        }
        let has_intval: bool = self.read_bool()?;
        let has_fractval: bool = self.read_bool()?;
        if !has_intval && !has_fractval {
            return Ok(BitCoord { negative: false, intval: 0, fractval: 0 });
        }
        let negative: bool = self.read_bool()?;
        proof {
            lemma2_to64();
            lemma_bits_bound(self@, 14);
        }
        let mut intval: u32 = 0;
        if has_intval {
            let bits: u64 = self.read_ubit64(COORD_INTEGER_BITS)?;
            intval = bits as u32 + 1;
        }
        proof {
            lemma_bits_bound(self@, 5);
        }
        let mut fractval: u32 = 0;
        if has_fractval {
            let bits: u64 = self.read_ubit64(COORD_FRACTIONAL_BITS)?;
            fractval = bits as u32;
        }
        Ok(BitCoord { negative, intval, fractval })
    }

    /// Reads a component of a normal: its sign, then its fraction.
    pub fn read_bitnormal(&mut self) -> (r: Result<BitNormal, BitError>)
        ensures
            final(self).checked_overflow() == old(self).checked_overflow(),
            (r, final(self)@) == old(self)@.bitnormal(),
    {
        proof {
            use_type_invariant(&*self);
            assert(self@.skip(0) == self@);
            lemma2_to64();
            lemma_bits_bound(self@.skip(1), 11);
        }
        let negative: bool = self.read_bool()?;
        let bits: u64 = self.read_ubit64(NORMAL_FRACTIONAL_BITS)?;
        Ok(BitNormal { negative, fractval: bits as u32 })
    }

    /// Reads three coordinates: a flag for each, then those whose flag is set. The others are zero.
    pub fn read_bitvec3coord(&mut self) -> (r: Result<[BitCoord; 3], BitError>)
        ensures
            final(self).checked_overflow() == old(self).checked_overflow(),
            (match r {
                Ok(v) => Ok::<Seq<BitCoord>, BitError>(v@),
                Err(err) => Err(err),
            }, final(self)@) == old(self)@.bitvec3coord(),
    {
        proof {
            use_type_invariant(&*self);
            assert(self@.skip(0) == self@);
        }
        let xflag: bool = self.read_bool()?;
        let yflag: bool = self.read_bool()?;
        let zflag: bool = self.read_bool()?;
        let zero = BitCoord { negative: false, intval: 0, fractval: 0 };
        let mut x = zero;
        let mut y = zero;
        let mut z = zero;
        if xflag {
            x = self.read_bitcoord()?;
        }
        if yflag {
            y = self.read_bitcoord()?;
        }
        if zflag {
            z = self.read_bitcoord()?;
        }
        let v: [BitCoord; 3] = [x, y, z];
        assert(v@ =~= seq![x, y, z]);
        Ok(v)
    }

    /// Reads a normal: a flag for each of its first two components, then those whose flag is set,
    /// and then the sign of the third, whose size the other two imply.
    pub fn read_bitvec3normal(&mut self) -> (r: Result<BitVec3Normal, BitError>)
        ensures
            final(self).checked_overflow() == old(self).checked_overflow(),
            (r, final(self)@) == old(self)@.bitvec3normal(),
    {
        proof {
            use_type_invariant(&*self);
            assert(self@.skip(0) == self@);
        }
        let xflag: bool = self.read_bool()?;
        let yflag: bool = self.read_bool()?;
        let zero = BitNormal { negative: false, fractval: 0 };
        let mut x = zero;
        let mut y = zero;
        if xflag {
            x = self.read_bitnormal()?;
        }
        if yflag {
            y = self.read_bitnormal()?;
        }
        let znegative: bool = self.read_bool()?;
        Ok(BitVec3Normal { x, y, znegative })
    }

    /// Reads an angle of `num_bits` bits.
    pub fn read_bitangle(&mut self, num_bits: usize) -> (r: Result<BitAngle, BitError>)
        requires
            num_bits <= 64,
        ensures
            final(self).checked_overflow() == old(self).checked_overflow(),
            match old(self)@.ubits(num_bits as nat) {
                (Ok(value), next) => {
                    &&& r is Ok
                    &&& r->Ok_0.value == value
                    &&& r->Ok_0.full_turn == pow2(num_bits as nat)
                    &&& final(self)@ == next
                },
                (Err(err), next) => r == Err::<BitAngle, BitError>(err) && final(self)@ == next,
            },
    {
        proof {
            lemma2_to64();
            lemma2_to64_rest();
            if num_bits < 64 {
                lemma_pow2_strictly_increases(num_bits as nat, 64);
                lemma_u64_shl_is_mul(1, num_bits as u64);
            }
        }
        let full_turn: u128 = if num_bits < 64 {
            (1u64 << (num_bits as u64)) as u128
        } else {
            0x1_0000_0000_0000_0000
        };
        let value: u64 = self.read_ubit64(num_bits)?;
        Ok(BitAngle { value, full_turn })
    }

    /// Reads a string up to and including its terminator: a null byte or, where `line` is set, also
    /// a line feed. It always reads to the end of the string, so that the next value follows, even
    /// where the string does not fit.
    ///
    /// `buf` gets as much of the string as fits before a null byte, and is always null-terminated
    /// unless it is empty. The result is the number of characters in it, which never exceeds
    /// `buf.len() - 1`.
    pub fn read_string(&mut self, buf: &mut [u8], line: bool) -> (r: Result<usize, BitError>)
        ensures
            final(self).checked_overflow() == old(self).checked_overflow(),
            final(buf)@.len() == old(buf)@.len(),
            ({
                let bytes = old(self)@.bytes();
                let len = string_len(bytes, line);
                let fits = if len < old(buf)@.len() {
                    len as int
                } else {
                    old(buf)@.len() - 1
                };
                &&& old(buf)@.len() > 0 ==> final(buf)@ == bytes.take(fits) + seq![0u8] + old(
                    buf,
                )@.skip(fits + 1)
                &&& len < bytes.len() ==> final(self)@ == old(self)@.skip(8 * (len + 1) as int)
                &&& len == bytes.len() ==> final(self)@ == old(self)@.skip(8 * len as int)
                &&& r == (if len == bytes.len() {
                    Err::<usize, BitError>(BitError::Overflow)
                } else if len >= old(buf)@.len() {
                    Err::<usize, BitError>(BitError::BufferTooSmall)
                } else {
                    Ok::<usize, BitError>(len as usize)
                })
            }),
    {
        let ghost start = self@;
        let ghost bytes = self@.bytes();
        let ghost before = buf@;
        proof {
            use_type_invariant(&*self);
            assert(start.skip(0) == start);
        }
        let total: usize = self.num_bits_left() / 8;
        let mut num_read: usize = 0;
        let mut num_chars: usize = 0;
        let mut ended: bool = false;
        while num_read < total && !ended
            invariant
                start == old(self)@,
                0 <= start.bits_left(),
                bytes == start.bytes(),
                total == bytes.len(),
                num_read <= total,
                buf@.len() == before.len(),
                num_chars == (if num_read < before.len() {
                    num_read as int
                } else if before.len() > 0 {
                    before.len() - 1
                } else {
                    0
                }),
                forall|j: int| 0 <= j < num_chars ==> buf@[j] == bytes[j],
                forall|j: int| num_chars <= j < before.len() ==> buf@[j] == before[j],
                forall|j: int| 0 <= j < num_read ==> !ends_string(bytes[j], line),
                ended ==> num_read < total && ends_string(bytes[num_read as int], line),
                self@ == start.skip(
                    8 * (num_read + if ended {
                        1int
                    } else {
                        0int
                    }),
                ),
                self.checked_overflow() == old(self).checked_overflow(),
            decreases total - num_read, (if ended {
                0int
            } else {
                1int
            }),
        {
            proof {
                lemma_bytes_skip(start, num_read as int);
            }
            let val: u8 = self.read_byte()?;
            assert(val == bytes[num_read as int]);
            if val == 0 || (line && val == 10) {
                ended = true;
            } else {
                if buf.len() > 0 && num_chars < buf.len() - 1 {
                    buf[num_chars] = val;
                    num_chars = num_chars + 1;
                }
                num_read = num_read + 1;
            }
        }
        proof {
            lemma_string_len(bytes, line, num_read as nat);
        }
        if buf.len() > 0 {
            buf[num_chars] = 0;
            assert(buf@ =~= bytes.take(num_chars as int) + seq![0u8] + before.skip(num_chars + 1));
        }
        if !ended {
            return Err(BitError::Overflow);
        }
        if num_read >= buf.len() {
            return Err(BitError::BufferTooSmall);
        }
        Ok(num_chars)
    }
}

/// The bytes left after the first `n` bytes.
pub proof fn lemma_bytes_skip(s: BitStream, n: int)
    requires
        0 <= n <= s.bytes().len(),
        0 <= s.bits_left(),
    ensures
        s.skip(8 * n).bytes() == s.bytes().skip(n),
{
    let t = s.skip(8 * n);
    assert(t.bits_left() / 8 == s.bits_left() / 8 - n);
    assert forall|i: int| 0 <= i < t.bytes().len() implies t.bytes()[i] == s.bytes().skip(n)[i] by {
        assert(t.skip(8 * i) == s.skip(8 * (n + i)));
    }
    assert(t.bytes() =~= s.bytes().skip(n));
}

} // verus!
