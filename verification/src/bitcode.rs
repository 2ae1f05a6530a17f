//! How values are written in bits, and that reading gives back what was written.

use crate::bitreader::{BitCoord, BitError, BitNormal, BitStream, BitVec3Normal};
use vstd::arithmetic::div_mod::*;
use vstd::arithmetic::power2::*;
use vstd::prelude::*;

verus! {

/// A number and how many bits it is written in.
pub type Field = (nat, nat);

/// The number of bits that fields take, one after the other.
pub open spec fn width_of(fields: Seq<Field>) -> nat
    decreases fields.len(),
{
    if fields.len() == 0 {
        0
    } else {
        fields[0].1 + width_of(fields.skip(1))
    }
}

/// Whether the stream starts with the fields, one after the other.
pub open spec fn holds(s: BitStream, fields: Seq<Field>) -> bool
    decreases fields.len(),
{
    if fields.len() == 0 {
        true
    } else {
        let (value, width) = fields[0];
        &&& width <= s.bits_left()
        &&& s.bits(width) == value
        &&& holds(s.skip(width as int), fields.skip(1))
    }
}

pub open spec fn flag(set: bool) -> Field {
    (if set {
        1
    } else {
        0
    }, 1)
}

proof fn lemma_holds_first(s: BitStream, first: Field, rest: Seq<Field>)
    ensures
        holds(s, seq![first] + rest) <==> {
            &&& first.1 <= s.bits_left()
            &&& s.bits(first.1) == first.0
            &&& holds(s.skip(first.1 as int), rest)
        },
        width_of(seq![first] + rest) == first.1 + width_of(rest),
{
    assert((seq![first] + rest).skip(1) =~= rest);
}

/// Fields that come one after the other can be told apart by their widths alone.
pub proof fn lemma_holds_concat(s: BitStream, a: Seq<Field>, b: Seq<Field>)
    ensures
        holds(s, a + b) <==> holds(s, a) && holds(s.skip(width_of(a) as int), b),
        width_of(a + b) == width_of(a) + width_of(b),
    decreases a.len(),
{
    if a.len() == 0 {
        assert(a + b =~= b);
        assert(s.skip(0) == s);
    } else {
        assert((a + b).skip(1) =~= a.skip(1) + b);
        let next = s.skip(a[0].1 as int);
        lemma_holds_concat(next, a.skip(1), b);
        assert(next.skip(width_of(a.skip(1)) as int) == s.skip(width_of(a) as int));
    }
}

proof fn lemma_holds_one(s: BitStream, a: Field)
    ensures
        holds(s, seq![a]) <==> a.1 <= s.bits_left() && s.bits(a.1) == a.0,
        width_of(seq![a]) == a.1,
{
    lemma_holds_first(s, a, Seq::empty());
    assert(seq![a] + Seq::<Field>::empty() =~= seq![a]);
}

proof fn lemma_holds_two(s: BitStream, a: Field, b: Field)
    ensures
        holds(s, seq![a, b]) <==> {
            &&& a.1 <= s.bits_left()
            &&& s.bits(a.1) == a.0
            &&& b.1 <= s.skip(a.1 as int).bits_left()
            &&& s.skip(a.1 as int).bits(b.1) == b.0
        },
        width_of(seq![a, b]) == a.1 + b.1,
{
    lemma_holds_first(s, a, seq![b]);
    lemma_holds_one(s.skip(a.1 as int), b);
    assert(seq![a] + seq![b] =~= seq![a, b]);
}

proof fn lemma_holds_three(s: BitStream, a: Field, b: Field, c: Field)
    ensures
        holds(s, seq![a, b, c]) <==> {
            &&& a.1 <= s.bits_left()
            &&& s.bits(a.1) == a.0
            &&& b.1 <= s.skip(a.1 as int).bits_left()
            &&& s.skip(a.1 as int).bits(b.1) == b.0
            &&& c.1 <= s.skip((a.1 + b.1) as int).bits_left()
            &&& s.skip((a.1 + b.1) as int).bits(c.1) == c.0
        },
        width_of(seq![a, b, c]) == a.1 + b.1 + c.1,
{
    lemma_holds_first(s, a, seq![b, c]);
    lemma_holds_two(s.skip(a.1 as int), b, c);
    assert(seq![a] + seq![b, c] =~= seq![a, b, c]);
    assert(s.skip(a.1 as int).skip(b.1 as int) == s.skip((a.1 + b.1) as int));
}

proof fn lemma_one_bit(s: BitStream)
    ensures
        s.bits(1) == s.bit(),
        s.bit() < 2,
{
    assert(s.skip(1).bits(0) == 0);
}

/// A number in one of four widths: its four lowest bits, then which width it is, then the rest of it.
/// Widths number 0 to 3 leave room for 4, 8, 12 and 32 bits.
pub open spec fn ubitvar_fields(value: nat, form: nat) -> Seq<Field> {
    seq![
        (value % 16, 4),
        (form, 2),
        (
            value / 16,
            if form == 0 {
                0
            } else if form == 1 {
                4
            } else if form == 2 {
                8
            } else {
                28
            },
        ),
    ]
}

/// A number that is written as [`crate::bitreader::BitReader::read_ubitvar`] expects it reads as itself,
/// in exactly its bits, and nothing else can be read.
pub proof fn lemma_ubitvar_round_trip(s: BitStream, value: nat, form: nat)
    requires
        form < 4,
    ensures
        holds(s, ubitvar_fields(value, form)) ==> s.ubitvar() == (
            Ok::<nat, BitError>(value),
            s.skip(width_of(ubitvar_fields(value, form)) as int),
        ),
        s.ubitvar().0 is Ok ==> exists|form: nat|
            form < 4 && #[trigger] holds(s, ubitvar_fields(s.ubitvar().0->Ok_0, form)),
        s.ubitvar().0 is Err ==> s.ubitvar().0->Err_0 == BitError::Overflow,
{
    lemma2_to64();
    crate::bitreader::lemma_bits_split(s, 4, 2);
    crate::bitreader::lemma_bits_bound(s, 4);
    crate::bitreader::lemma_bits_bound(s.skip(4), 2);
    let f = ubitvar_fields(value, form);
    lemma_holds_three(s, f[0], f[1], f[2]);
    assert(f =~= seq![f[0], f[1], f[2]]);
    assert(s.skip(6).bits(0) == 0);
    if let (Ok(read), _) = s.ubitvar() {
        let selector = s.bits(6) / 16;
        let more = BitStream::ubitvar_more(selector);
        let high = s.skip(6).bits(more);
        assert(read == s.bits(4) + 16 * high);
        let g = ubitvar_fields(read, selector);
        lemma_holds_three(s, g[0], g[1], g[2]);
        assert(g =~= seq![g[0], g[1], g[2]]);
        assert(holds(s, ubitvar_fields(read, selector)));
    }
}

/// A number that has been written in one of the four widths has at most 32 bits.
pub proof fn lemma_ubitvar_bound(s: BitStream, value: nat, form: nat)
    requires
        form < 4,
        holds(s, ubitvar_fields(value, form)),
    ensures
        value <= u32::MAX,
        width_of(ubitvar_fields(value, form)) >= 6,
        width_of(ubitvar_fields(value, form)) <= s.bits_left(),
{
    lemma2_to64();
    let f = ubitvar_fields(value, form);
    lemma_holds_three(s, f[0], f[1], f[2]);
    assert(f =~= seq![f[0], f[1], f[2]]);
    crate::bitreader::lemma_bits_bound(s.skip(6), f[2].1);
}

/// A number in one of five widths: as many unset flags as the width's number, a set flag (but not after
/// four unset ones), then the number. Widths number 0 to 4 are 2, 4, 10, 17 and 31 bits.
pub open spec fn ubitvarfp_fields(value: nat, form: nat) -> Seq<Field> {
    if form == 0 {
        seq![(1, 1), (value, 2)]
    } else if form == 1 {
        seq![(2, 2), (value, 4)]
    } else if form == 2 {
        seq![(4, 3), (value, 10)]
    } else if form == 3 {
        seq![(8, 4), (value, 17)]
    } else {
        seq![(0, 4), (value, 31)]
    }
}

proof fn lemma_four_bits(s: BitStream)
    ensures
        s.bits(1) == s.bit(),
        s.bits(2) == s.bit() + 2 * s.skip(1).bit(),
        s.bits(3) == s.bit() + 2 * s.skip(1).bit() + 4 * s.skip(2).bit(),
        s.bits(4) == s.bit() + 2 * s.skip(1).bit() + 4 * s.skip(2).bit() + 8 * s.skip(3).bit(),
        s.bit() < 2,
        s.skip(1).bit() < 2,
        s.skip(2).bit() < 2,
        s.skip(3).bit() < 2,
{
    assert(s.skip(1).skip(1) == s.skip(2));
    assert(s.skip(2).skip(1) == s.skip(3));
    lemma_one_bit(s.skip(3));
    assert(s.skip(3).bits(1) == s.skip(3).bit());
    lemma_one_bit(s.skip(2));
    lemma_one_bit(s.skip(1));
    lemma_one_bit(s);
    assert(s.skip(2).bits(2) == s.skip(2).bit() + 2 * s.skip(3).bits(1));
    assert(s.skip(1).bits(3) == s.skip(1).bit() + 2 * s.skip(2).bits(2));
    assert(s.bits(4) == s.bit() + 2 * s.skip(1).bits(3));
    assert(s.skip(1).bits(2) == s.skip(1).bit() + 2 * s.skip(2).bits(1));
    assert(s.bits(3) == s.bit() + 2 * s.skip(1).bits(2));
    assert(s.bits(2) == s.bit() + 2 * s.skip(1).bits(1));
}

/// A number that is written as [`crate::bitreader::BitReader::read_ubitvarfp`] expects it reads as itself,
/// in exactly its bits, and nothing else can be read.
pub proof fn lemma_ubitvarfp_round_trip(s: BitStream, value: nat, form: nat)
    requires
        form < 5,
        0 <= s.bits_left(),
    ensures
        holds(s, ubitvarfp_fields(value, form)) ==> s.ubitvarfp() == (
            Ok::<nat, BitError>(value),
            s.skip(width_of(ubitvarfp_fields(value, form)) as int),
        ),
        s.ubitvarfp().0 is Ok ==> exists|form: nat|
            form < 5 && #[trigger] holds(s, ubitvarfp_fields(s.ubitvarfp().0->Ok_0, form)),
        s.ubitvarfp().0 is Err ==> s.ubitvarfp().0->Err_0 == BitError::Overflow,
{
    lemma_four_bits(s);
    reveal_with_fuel(BitStream::flags_unset, 5);
    assert(s.skip(1).skip(1) == s.skip(2));
    assert(s.skip(2).skip(1) == s.skip(3));
    let f = ubitvarfp_fields(value, form);
    lemma_holds_two(s, f[0], f[1]);
    assert(f =~= seq![f[0], f[1]]);
    if let (Ok(read), _) = s.ubitvarfp() {
        let unset = s.flags_unset(4);
        let g = ubitvarfp_fields(read, unset);
        lemma_holds_two(s, g[0], g[1]);
        assert(g =~= seq![g[0], g[1]]);
        assert(holds(s, ubitvarfp_fields(read, unset)));
    }
}

/// A coordinate: whether it has an integer, whether it has a fraction, and where it has one of them its
/// sign, one less than the integer in 14 bits, and the fraction in 5.
pub open spec fn coord_fields(coord: BitCoord, has_fraction: bool) -> Seq<Field> {
    let has_integer = coord.intval > 0;
    if !has_integer && !has_fraction {
        seq![flag(false), flag(false)]
    } else {
        seq![flag(has_integer), flag(has_fraction), flag(coord.negative)] + (if has_integer {
            seq![((coord.intval - 1) as nat, 14nat)]
        } else {
            Seq::empty()
        }) + (if has_fraction {
            seq![(coord.fractval as nat, 5nat)]
        } else {
            Seq::empty()
        })
    }
}

/// Whether the coordinate can be written as these fields. A fraction of zero may be left out, and a
/// coordinate without either part has no sign.
pub open spec fn is_coord_code(fields: Seq<Field>, coord: BitCoord) -> bool {
    ||| fields == coord_fields(coord, true)
    ||| {
        &&& fields == coord_fields(coord, false)
        &&& coord.fractval == 0
        &&& coord.intval == 0 ==> !coord.negative
    }
}

proof fn lemma_coord_fields(s: BitStream, coord: BitCoord, has_fraction: bool)
    ensures
        ({
            let fields = coord_fields(coord, has_fraction);
            let integer_bits: nat = if coord.intval > 0 {
                14
            } else {
                0
            };
            let fraction_bits: nat = if has_fraction {
                5
            } else {
                0
            };
            if coord.intval == 0 && !has_fraction {
                &&& width_of(fields) == 2
                &&& holds(s, fields) <==> {
                    &&& 2 <= s.bits_left()
                    &&& s.bit() == 0
                    &&& s.skip(1).bit() == 0
                }
            } else {
                &&& width_of(fields) == 3 + integer_bits + fraction_bits
                &&& holds(s, fields) <==> {
                    &&& 3 + integer_bits + fraction_bits <= s.bits_left()
                    &&& s.bit() == flag(coord.intval > 0).0
                    &&& s.skip(1).bit() == flag(has_fraction).0
                    &&& s.skip(2).bit() == flag(coord.negative).0
                    &&& coord.intval > 0 ==> s.skip(3).bits(14) == coord.intval - 1
                    &&& has_fraction ==> s.skip(3 + integer_bits as int).bits(5) == coord.fractval
                }
            }
        }),
{
    let has_integer = coord.intval > 0;
    lemma_four_bits(s);
    lemma_one_bit(s.skip(1));
    lemma_one_bit(s.skip(2));
    lemma_holds_two(s, flag(false), flag(false));
    let head = seq![flag(has_integer), flag(has_fraction), flag(coord.negative)];
    lemma_holds_three(s, flag(has_integer), flag(has_fraction), flag(coord.negative));
    let integer: Seq<Field> = if has_integer {
        seq![((coord.intval - 1) as nat, 14nat)]
    } else {
        Seq::empty()
    };
    let fraction: Seq<Field> = if has_fraction {
        seq![(coord.fractval as nat, 5nat)]
    } else {
        Seq::empty()
    };
    lemma_holds_concat(s, head + integer, fraction);
    lemma_holds_concat(s, head, integer);
    if has_integer {
        lemma_holds_one(s.skip(3), ((coord.intval - 1) as nat, 14nat));
    }
    let integer_bits: int = if has_integer {
        14
    } else {
        0
    };
    if has_fraction {
        lemma_holds_one(s.skip(3 + integer_bits), (coord.fractval as nat, 5nat));
    }
}

/// A coordinate that has been written reads as itself, in exactly its bits, and nothing else can be read.
pub proof fn lemma_bitcoord_round_trip(s: BitStream, coord: BitCoord, fields: Seq<Field>)
    requires
        is_coord_code(fields, coord),
    ensures
        holds(s, fields) ==> s.bitcoord() == (
            Ok::<BitCoord, BitError>(coord),
            s.skip(width_of(fields) as int),
        ),
{
    lemma_coord_fields(s, coord, true);
    lemma_coord_fields(s, coord, false);
    let integer_bits: int = if coord.intval > 0 {
        14
    } else {
        0
    };
    assert(s.skip(3).skip(integer_bits) == s.skip(3 + integer_bits));
    assert(s.skip(3).skip(integer_bits).bits(0) == 0);
    assert(s.skip(3).skip(integer_bits + 5) == s.skip(3 + integer_bits + 5));
}

/// Only what has been written as a coordinate reads as one.
pub proof fn lemma_bitcoord_reads_codes(s: BitStream)
    requires
        s.bitcoord().0 is Ok,
    ensures
        exists|fields: Seq<Field>| #[trigger]
            is_coord_code(fields, s.bitcoord().0->Ok_0) && holds(s, fields) && s.bitcoord().1
                == s.skip(width_of(fields) as int),
{
    lemma2_to64();
    let coord = s.bitcoord().0->Ok_0;
    let has_fraction = s.skip(1).bit() == 1;
    lemma_four_bits(s);
    lemma_coord_fields(s, coord, has_fraction);
    crate::bitreader::lemma_bits_bound(s.skip(3), 14);
    crate::bitreader::lemma_bits_bound(s.skip(3), 5);
    crate::bitreader::lemma_bits_bound(s.skip(17), 5);
    assert(s.skip(3).skip(0) == s.skip(3));
    assert(s.skip(3).skip(14) == s.skip(17));
    assert(s.skip(3).bits(0) == 0);
    assert(s.skip(17).bits(0) == 0);
    assert(is_coord_code(coord_fields(coord, has_fraction), coord));
    assert(holds(s, coord_fields(coord, has_fraction)));
}

/// A component of a normal: its sign, then its fraction in 11 bits.
pub open spec fn normal_fields(normal: BitNormal) -> Seq<Field> {
    seq![flag(normal.negative), (normal.fractval as nat, 11nat)]
}

/// A component of a normal that has been written reads as itself, in exactly its bits, and nothing else
/// can be read.
pub proof fn lemma_bitnormal_round_trip(s: BitStream, normal: BitNormal)
    ensures
        holds(s, normal_fields(normal)) ==> s.bitnormal() == (
            Ok::<BitNormal, BitError>(normal),
            s.skip(12),
        ),
        width_of(normal_fields(normal)) == 12,
        s.bitnormal().0 is Ok ==> holds(s, normal_fields(s.bitnormal().0->Ok_0)),
{
    lemma2_to64();
    lemma_one_bit(s);
    crate::bitreader::lemma_bits_bound(s.skip(1), 11);
    lemma_holds_two(s, flag(normal.negative), (normal.fractval as nat, 11nat));
    assert(s.skip(1).skip(11) == s.skip(12));
    if let (Ok(read), _) = s.bitnormal() {
        lemma_holds_two(s, flag(read.negative), (read.fractval as nat, 11nat));
    }
}

/// Whether a coordinate of a vector can be written as these fields. One that is absent is zero.
pub open spec fn is_coord_code_if(present: bool, fields: Seq<Field>, coord: BitCoord) -> bool {
    if present {
        is_coord_code(fields, coord)
    } else {
        &&& fields == Seq::<Field>::empty()
        &&& coord == (BitCoord { negative: false, intval: 0, fractval: 0 })
    }
}

proof fn lemma_bitcoord_if(s: BitStream, present: bool, fields: Seq<Field>, coord: BitCoord)
    requires
        is_coord_code_if(present, fields, coord),
        holds(s, fields),
    ensures
        s.bitcoord_if(present) == (
            Ok::<BitCoord, BitError>(coord),
            s.skip(width_of(fields) as int),
        ),
{
    if present {
        lemma_bitcoord_round_trip(s, coord, fields);
    } else {
        assert(s.skip(0) == s);
    }
}

proof fn lemma_bitvec3coord_parts(
    s: BitStream,
    xyz: (BitCoord, BitCoord, BitCoord),
    at_y: BitStream,
    at_z: BitStream,
    end: BitStream,
)
    requires
        3 <= s.bits_left(),
        s.skip(3).bitcoord_if(s.bit() == 1) == (Ok::<BitCoord, BitError>(xyz.0), at_y),
        at_y.bitcoord_if(s.skip(1).bit() == 1) == (Ok::<BitCoord, BitError>(xyz.1), at_z),
        at_z.bitcoord_if(s.skip(2).bit() == 1) == (Ok::<BitCoord, BitError>(xyz.2), end),
    ensures
        s.bitvec3coord() == (
            Ok::<Seq<BitCoord>, BitError>(seq![xyz.0, xyz.1, xyz.2]),
            end,
        ),
{
}

proof fn lemma_three_flags(s: BitStream, present: (bool, bool, bool))
    ensures
        ({
            let flags = seq![flag(present.0), flag(present.1), flag(present.2)];
            &&& width_of(flags) == 3
            &&& holds(s, flags) ==> {
                &&& 3 <= s.bits_left()
                &&& (s.bit() == 1) == present.0
                &&& (s.skip(1).bit() == 1) == present.1
                &&& (s.skip(2).bit() == 1) == present.2
            }
        }),
{
    let flags = seq![flag(present.0), flag(present.1), flag(present.2)];
    lemma_holds_three(s, flags[0], flags[1], flags[2]);
    assert(flags =~= seq![flags[0], flags[1], flags[2]]);
    lemma_one_bit(s);
    lemma_one_bit(s.skip(1));
    lemma_one_bit(s.skip(2));
}

/// Three coordinates that have been written, first a flag for each of x, y and z and then, in the same
/// order, those that are present, read as themselves, component by component, in exactly their bits.
pub proof fn lemma_bitvec3coord_round_trip(
    s: BitStream,
    xyz: (BitCoord, BitCoord, BitCoord),
    present: (bool, bool, bool),
    fields: (Seq<Field>, Seq<Field>, Seq<Field>),
)
    requires
        is_coord_code_if(present.0, fields.0, xyz.0),
        is_coord_code_if(present.1, fields.1, xyz.1),
        is_coord_code_if(present.2, fields.2, xyz.2),
    ensures
        ({
            let flags = seq![flag(present.0), flag(present.1), flag(present.2)];
            let all = flags + fields.0 + fields.1 + fields.2;
            holds(s, all) ==> {
                let (read, next) = s.bitvec3coord();
                &&& read is Ok
                &&& read->Ok_0.len() == 3
                &&& read->Ok_0[0] == xyz.0
                &&& read->Ok_0[1] == xyz.1
                &&& read->Ok_0[2] == xyz.2
                &&& next == s.skip(width_of(all) as int)
            }
        }),
{
    let flags = seq![flag(present.0), flag(present.1), flag(present.2)];
    let all = flags + fields.0 + fields.1 + fields.2;
    if holds(s, all) {
        lemma_three_flags(s, present);
        lemma_holds_concat(s, flags + fields.0 + fields.1, fields.2);
        lemma_holds_concat(s, flags + fields.0, fields.1);
        lemma_holds_concat(s, flags, fields.0);
        let at_x = s.skip(3);
        let at_y = at_x.skip(width_of(fields.0) as int);
        let at_z = at_y.skip(width_of(fields.1) as int);
        let end = at_z.skip(width_of(fields.2) as int);
        assert(at_y == s.skip(width_of(flags + fields.0) as int));
        assert(at_z == s.skip(width_of(flags + fields.0 + fields.1) as int));
        assert(end == s.skip(width_of(all) as int));
        lemma_bitcoord_if(at_x, present.0, fields.0, xyz.0);
        lemma_bitcoord_if(at_y, present.1, fields.1, xyz.1);
        lemma_bitcoord_if(at_z, present.2, fields.2, xyz.2);
        lemma_bitvec3coord_parts(s, xyz, at_y, at_z, end);
    }
}

/// A component of a normal where it is present, and otherwise nothing.
pub open spec fn normal_fields_if(present: bool, normal: BitNormal) -> Seq<Field> {
    if present {
        normal_fields(normal)
    } else {
        Seq::empty()
    }
}

proof fn lemma_bitnormal_if(s: BitStream, present: bool, normal: BitNormal)
    requires
        holds(s, normal_fields_if(present, normal)),
        present || normal == (BitNormal { negative: false, fractval: 0 }),
    ensures
        s.bitnormal_if(present) == (
            Ok::<BitNormal, BitError>(normal),
            s.skip(width_of(normal_fields_if(present, normal)) as int),
        ),
{
    if present {
        lemma_bitnormal_round_trip(s, normal);
    } else {
        assert(s.skip(0) == s);
    }
}

/// A normal that has been written, first a flag for each of x and y, then, in the same order, those that
/// are present, and then the sign of z, reads as itself, in exactly its bits.
pub proof fn lemma_bitvec3normal_round_trip(
    s: BitStream,
    normal: BitVec3Normal,
    present: (bool, bool),
)
    requires
        present.0 || normal.x == (BitNormal { negative: false, fractval: 0 }),
        present.1 || normal.y == (BitNormal { negative: false, fractval: 0 }),
    ensures
        ({
            let all = seq![flag(present.0), flag(present.1)] + normal_fields_if(
                present.0,
                normal.x,
            ) + normal_fields_if(present.1, normal.y) + seq![flag(normal.znegative)];
            holds(s, all) ==> s.bitvec3normal() == (
                Ok::<BitVec3Normal, BitError>(normal),
                s.skip(width_of(all) as int),
            )
        }),
{
    let flags = seq![flag(present.0), flag(present.1)];
    let x = normal_fields_if(present.0, normal.x);
    let y = normal_fields_if(present.1, normal.y);
    let sign = seq![flag(normal.znegative)];
    let all = flags + x + y + sign;
    if holds(s, all) {
        lemma_four_bits(s);
        lemma_one_bit(s.skip(1));
        lemma_holds_two(s, flags[0], flags[1]);
        assert(flags =~= seq![flags[0], flags[1]]);
        lemma_holds_concat(s, flags + x + y, sign);
        lemma_holds_concat(s, flags + x, y);
        lemma_holds_concat(s, flags, x);
        let at_x = s.skip(2);
        let at_y = at_x.skip(width_of(x) as int);
        let at_z = at_y.skip(width_of(y) as int);
        assert(at_y == s.skip(width_of(flags + x) as int));
        assert(at_z == s.skip(width_of(flags + x + y) as int));
        lemma_bitnormal_if(at_x, present.0, normal.x);
        lemma_bitnormal_if(at_y, present.1, normal.y);
        lemma_holds_one(at_z, flag(normal.znegative));
        lemma_one_bit(at_z);
        assert(at_z.skip(1) == s.skip(width_of(all) as int));
    }
}

/// Bytes as fields of eight bits each.
pub open spec fn byte_fields(bytes: Seq<u8>) -> Seq<Field> {
    bytes.map_values(|byte: u8| (byte as nat, 8nat))
}

/// Bytes that have been written, at whatever bit they begin, are the bytes that can be read there.
pub proof fn lemma_bytes_round_trip(s: BitStream, bytes: Seq<u8>)
    requires
        0 <= s.bits_left(),
    ensures
        width_of(byte_fields(bytes)) == 8 * bytes.len(),
        holds(s, byte_fields(bytes)) ==> {
            &&& bytes.len() <= s.bytes().len()
            &&& s.bytes().take(bytes.len() as int) == bytes
        },
    decreases bytes.len(),
{
    let fields = byte_fields(bytes);
    if bytes.len() > 0 {
        let next = s.skip(8);
        assert(fields.skip(1) =~= byte_fields(bytes.skip(1)));
        if holds(s, fields) {
            lemma_bytes_round_trip(next, bytes.skip(1));
            lemma2_to64();
            crate::bitreader::lemma_bits_bound(s, 8);
            assert(s.skip(0) == s);
            assert(s.bytes()[0] == bytes[0]);
            crate::bitreader::lemma_bytes_skip(s, 1);
            assert(s.bytes().take(bytes.len() as int) =~= seq![bytes[0]] + next.bytes().take(
                bytes.len() - 1,
            ));
            assert(bytes =~= seq![bytes[0]] + bytes.skip(1));
        } else {
            lemma_byte_fields_width(bytes.skip(1));
        }
    } else {
        assert(s.bytes().take(0) =~= bytes);
    }
}

proof fn lemma_byte_fields_width(bytes: Seq<u8>)
    ensures
        width_of(byte_fields(bytes)) == 8 * bytes.len(),
    decreases bytes.len(),
{
    if bytes.len() > 0 {
        assert(byte_fields(bytes).skip(1) =~= byte_fields(bytes.skip(1)));
        lemma_byte_fields_width(bytes.skip(1));
    }
}

proof fn lemma_aligned_bits(s: BitStream, k: nat)
    requires
        0 <= s.pos,
        s.pos % 8 == 0,
        k <= 8,
    ensures
        s.bits(k) == s.data[s.pos / 8] as nat % pow2(k),
{
    crate::bitreader::lemma_bits_in_byte(s, k);
    lemma2_to64();
    let byte = s.data[s.pos / 8] as nat;
    assert(byte / pow2((s.pos % 8) as nat) == byte / 1);
}

/// Where a stream stands between two bytes, the bytes that can be read are those of the data.
pub proof fn lemma_aligned_bytes(s: BitStream)
    requires
        0 <= s.pos <= 8 * s.data.len(),
        s.pos % 8 == 0,
    ensures
        s.bytes() == s.data.skip(s.pos / 8),
{
    assert forall|i: int| 0 <= i < s.bytes().len() implies s.bytes()[i] == s.data[s.pos / 8
        + i] by {
        let t = s.skip(8 * i);
        assert(t.pos / 8 == s.pos / 8 + i && t.pos % 8 == 0);
        lemma_aligned_bits(t, 8);
        lemma2_to64();
    }
    assert(s.bytes() =~= s.data.skip(s.pos / 8));
}

/// Bits packed into bytes are the same bits: read back from there they give the same number, in as few
/// bytes as hold them.
pub proof fn lemma_packed_round_trip(s: BitStream, n: nat)
    requires
        0 <= s.pos,
        n <= s.bits_left(),
    ensures
        s.packed(n as int).len() == (n + 7) / 8,
        (BitStream { data: s.packed(n as int), pos: 0 }).bits(n) == s.bits(n),
        n % 8 != 0 ==> s.packed(n as int).last() < pow2(n % 8),
{
    let packed = BitStream { data: s.packed(n as int), pos: 0 };
    lemma2_to64();
    lemma_packed_from(s, packed, n, 0);
    assert(s.skip(0) == s && packed.skip(0) == packed);
    if n % 8 != 0 {
        let last = n as int / 8;
        crate::bitreader::lemma_bits_bound(s.skip(8 * last), n % 8);
        assert(packed.data.last() == s.skip(8 * last).bits(n % 8) as u8);
        lemma_pow2_strictly_increases(n % 8, 8);
    }
}

proof fn lemma_packed_from(s: BitStream, packed: BitStream, n: nat, i: int)
    requires
        0 <= s.pos,
        n <= s.bits_left(),
        packed == (BitStream { data: s.packed(n as int), pos: 0 }),
        0 <= 8 * i <= n + 7,
    ensures
        8 * i <= n ==> packed.skip(8 * i).bits((n - 8 * i) as nat) == s.skip(8 * i).bits(
            (n - 8 * i) as nat,
        ),
    decreases n + 8 - 8 * i,
{
    if 8 * i < n {
        lemma2_to64();
        let left = (n - 8 * i) as nat;
        let k: nat = if left < 8 {
            left
        } else {
            8
        };
        let there = packed.skip(8 * i);
        let here = s.skip(8 * i);
        assert(there.pos / 8 == i && there.pos % 8 == 0);
        lemma_aligned_bits(there, k);
        crate::bitreader::lemma_bits_bound(here, k);
        if k < 8 {
            lemma_pow2_strictly_increases(k, 8);
        }
        assert(packed.data[i] == here.bits(k) as u8);
        lemma_small_mod(here.bits(k), pow2(k));
        assert(there.bits(k) == here.bits(k));
        if left > 8 {
            lemma_packed_from(s, packed, n, i + 1);
            crate::bitreader::lemma_bits_split(there, 8, (left - 8) as nat);
            crate::bitreader::lemma_bits_split(here, 8, (left - 8) as nat);
            assert(there.skip(8) == packed.skip(8 * (i + 1)));
            assert(here.skip(8) == s.skip(8 * (i + 1)));
        }
    }
}

/// A variable-length integer that has been written among bits reads as itself, in exactly its bytes.
pub proof fn lemma_uvarint_bits_round_trip(s: BitStream, value: u64)
    requires
        0 <= s.bits_left(),
        holds(s, byte_fields(crate::varint::encode(value as nat))),
    ensures
        s.uvarint64() == (
            Ok::<nat, BitError>(value as nat),
            s.skip(8 * crate::varint::encode(value as nat).len() as int),
        ),
        value <= u32::MAX ==> s.uvarint32() == (
            Ok::<nat, BitError>(value as nat),
            s.skip(8 * crate::varint::encode(value as nat).len() as int),
        ),
{
    let code = crate::varint::encode(value as nat);
    lemma_bytes_round_trip(s, code);
    let tail = s.bytes().skip(code.len() as int);
    assert(s.bytes() =~= code + tail);
    crate::varint::lemma_uvarint64_round_trip(value, tail);
    if value <= u32::MAX {
        crate::varint::lemma_uvarint32_round_trip(value as u32, tail);
    }
}

/// A string ends at its first null byte or, where a line is read, at its first line feed if that comes
/// earlier, and nowhere else.
pub proof fn lemma_string_round_trip(text: Seq<u8>, terminator: u8, rest: Seq<u8>, line: bool)
    requires
        forall|i: int|
            0 <= i < text.len() ==> (#[trigger] text[i]) != 0 && (line ==> text[i] != 0x0a),
        terminator == 0 || (line && terminator == 0x0a),
    ensures
        crate::bitreader::string_len(text + seq![terminator] + rest, line) == text.len(),
        crate::bitreader::string_len(text, line) == text.len(),
    decreases text.len(),
{
    let all = text + seq![terminator] + rest;
    if text.len() > 0 {
        lemma_string_round_trip(text.skip(1), terminator, rest, line);
        assert(all.skip(1) =~= text.skip(1) + seq![terminator] + rest);
        assert(all[0] == text[0]);
    } else {
        assert(all[0] == terminator);
    }
}

/// A number that has been written in so many bits reads as itself.
pub proof fn lemma_ubits_round_trip(s: BitStream, value: nat, width: nat)
    ensures
        holds(s, seq![(value, width)]) ==> s.ubits(width) == (
            Ok::<nat, BitError>(value),
            s.skip(width as int),
        ),
{
    lemma_holds_one(s, (value, width));
}

proof fn lemma_coord_stays_within(s: BitStream)
    requires
        0 <= s.pos <= 8 * s.data.len(),
    ensures
        stays_within(s, s.bitcoord()),
        stays_within(s, s.bitnormal()),
{
}

proof fn lemma_ubitvarfp_stays_within(s: BitStream)
    requires
        0 <= s.pos <= 8 * s.data.len(),
    ensures
        stays_within(s, s.ubitvarfp()),
{
    reveal_with_fuel(BitStream::flags_unset, 5);
}

proof fn lemma_vec3_stays_within(s: BitStream)
    requires
        0 <= s.pos <= 8 * s.data.len(),
    ensures
        stays_within(s, s.bitvec3coord()),
{
    if s.bits_left() >= 3 {
        let at_x = s.skip(3);
        lemma_coord_stays_within(at_x);
        let at_y = at_x.bitcoord_if(s.bit() == 1).1;
        lemma_coord_stays_within(at_y);
        let at_z = at_y.bitcoord_if(s.skip(1).bit() == 1).1;
        lemma_coord_stays_within(at_z);
    }
}

proof fn lemma_vec3normal_stays_within(s: BitStream)
    requires
        0 <= s.pos <= 8 * s.data.len(),
    ensures
        stays_within(s, s.bitvec3normal()),
{
    if s.bits_left() >= 2 {
        let at_x = s.skip(2);
        lemma_coord_stays_within(at_x);
        let at_y = at_x.bitnormal_if(s.bit() == 1).1;
        lemma_coord_stays_within(at_y);
    }
}

/// Nothing is read from beyond the end, and the data stays. What cannot be read for want of bits is an
/// overflow.
pub proof fn lemma_reads_stay_within(s: BitStream, width: nat)
    requires
        0 <= s.pos <= 8 * s.data.len(),
    ensures
        stays_within(s, s.ubits(width)),
        stays_within(s, s.ubitvar()),
        stays_within(s, s.ubitvarfp()),
        stays_within(s, s.bitcoord()),
        stays_within(s, s.bitnormal()),
        stays_within(s, s.bitvec3coord()),
        stays_within(s, s.bitvec3normal()),
        s.ubits(width).0 is Ok <==> width <= s.bits_left(),
{
    lemma_coord_stays_within(s);
    lemma_ubitvarfp_stays_within(s);
    lemma_vec3_stays_within(s);
    lemma_vec3normal_stays_within(s);
}

/// Whether reading from `s` ends within its data, and the only error is an overflow.
pub open spec fn stays_within<T>(s: BitStream, read: crate::bitreader::Read<T>) -> bool {
    &&& read.1.data == s.data
    &&& s.pos <= read.1.pos <= 8 * s.data.len()
    &&& read.0 is Err ==> read.0->Err_0 == BitError::Overflow
}

/// A variable-length integer that is cut off is read to the end of the data, and one that is too long as far
/// as its type allows.
pub proof fn lemma_uvarint_bits_refused(s: BitStream)
    requires
        forall|i: int| 0 <= i < s.bytes().len() ==> (#[trigger] s.bytes()[i]) >= 0x80,
    ensures
        s.bytes().len() < 5 ==> s.uvarint32() == (
            Err::<nat, BitError>(BitError::Overflow),
            s.skip(8 * s.bytes().len() as int),
        ),
        s.bytes().len() >= 5 ==> s.uvarint32() == (
            Err::<nat, BitError>(BitError::MalformedVarint),
            s.skip(40),
        ),
        s.bytes().len() < 10 ==> s.uvarint64() == (
            Err::<nat, BitError>(BitError::Overflow),
            s.skip(8 * s.bytes().len() as int),
        ),
        s.bytes().len() >= 10 ==> s.uvarint64() == (
            Err::<nat, BitError>(BitError::MalformedVarint),
            s.skip(80),
        ),
{
    crate::varint::lemma_endless_is_refused(s.bytes(), 5, 32);
    crate::varint::lemma_endless_is_refused(s.bytes(), 10, 64);
}

/// Where a number in one of four or five widths is cut off, all that has been read is what says how wide it
/// is.
pub proof fn lemma_cut_number_position(s: BitStream, form: nat)
    requires
        form < 5,
    ensures
        s.bits_left() < 6 ==> s.ubitvar() == (Err::<nat, BitError>(BitError::Overflow), s),
        s.bits_left() >= 6 && s.ubitvar().0 is Err ==> s.ubitvar().1 == s.skip(6),
        ({
            let selector = ubitvarfp_fields(0, form)[0];
            let width = ubitvarfp_fields(0, form)[1].1;
            holds(s, seq![selector]) && s.bits_left() < selector.1 + width ==> s.ubitvarfp() == (
                Err::<nat, BitError>(BitError::Overflow),
                s.skip(selector.1 as int),
            )
        }),
{
    lemma_four_bits(s);
    reveal_with_fuel(BitStream::flags_unset, 5);
    assert(s.skip(1).skip(1) == s.skip(2));
    assert(s.skip(2).skip(1) == s.skip(3));
    lemma_holds_one(s, ubitvarfp_fields(0, form)[0]);
}

/// Where a coordinate is cut off, all of its parts that are there have been read.
pub proof fn lemma_cut_coord_position(s: BitStream, coord: BitCoord, fields: Seq<Field>, n: int)
    requires
        is_coord_code(fields, coord),
        0 <= n < fields.len(),
        holds(s, fields.take(n)),
        0 <= s.bits_left() < width_of(fields.take(n + 1)),
    ensures
        s.bitcoord() == (
            Err::<BitCoord, BitError>(BitError::Overflow),
            s.skip(width_of(fields.take(n)) as int),
        ),
{
    reveal_with_fuel(holds, 6);
    reveal_with_fuel(width_of, 6);
    lemma_four_bits(s);
    lemma_one_bit(s.skip(1));
    lemma_one_bit(s.skip(2));
    assert(s.skip(1).skip(1) == s.skip(2));
    assert(s.skip(2).skip(1) == s.skip(3));
    assert(s.skip(3).skip(14) == s.skip(17));
    assert(s.skip(3).skip(0) == s.skip(3));
    assert(s.skip(0) == s);
    let part = fields.take(n);
    let more = fields.take(n + 1);
    if n >= 1 {
        assert(part[0] == fields[0]);
    }
    if n >= 2 {
        assert(part.skip(1)[0] == fields[1]);
    }
    if n >= 3 {
        assert(part.skip(1).skip(1)[0] == fields[2]);
    }
    if n >= 4 {
        assert(part.skip(1).skip(1).skip(1)[0] == fields[3]);
    }
    assert(more[0] == fields[0]);
    if n >= 1 {
        assert(more.skip(1)[0] == fields[1]);
    }
    if n >= 2 {
        assert(more.skip(1).skip(1)[0] == fields[2]);
    }
    if n >= 3 {
        assert(more.skip(1).skip(1).skip(1)[0] == fields[3]);
    }
    if n >= 4 {
        assert(more.skip(1).skip(1).skip(1).skip(1)[0] == fields[4]);
    }
}

/// Where a component of a normal is cut off, its sign has been read if it is there.
pub proof fn lemma_cut_normal_position(s: BitStream)
    requires
        0 <= s.bits_left() < 12,
    ensures
        s.bitnormal() == (
            Err::<BitNormal, BitError>(BitError::Overflow),
            if s.bits_left() == 0 {
                s
            } else {
                s.skip(1)
            },
        ),
{
}

/// Where a coordinate of a vector cannot be read, the vector cannot be for the same reason, and as much has
/// been read.
pub proof fn lemma_cut_vector_position(
    s: BitStream,
    x: (bool, Seq<Field>, BitCoord),
    y: (bool, Seq<Field>, BitCoord),
    z: bool,
)
    requires
        0 <= s.bits_left(),
        is_coord_code_if(x.0, x.1, x.2),
        is_coord_code_if(y.0, y.1, y.2),
    ensures
        ({
            let flags = seq![flag(x.0), flag(y.0), flag(z)];
            let (read, next) = s.bitvec3coord();
            let at_x = s.skip(3);
            let at_y = at_x.skip(width_of(x.1) as int);
            let at_z = at_y.skip(width_of(y.1) as int);
            &&& s.bits_left() < 3 ==> {
                &&& read == Err::<Seq<BitCoord>, BitError>(BitError::Overflow)
                &&& next == s.skip(s.bits_left())
            }
            &&& holds(s, flags) && x.0 && at_x.bitcoord().0 is Err ==> {
                &&& read == Err::<Seq<BitCoord>, BitError>(at_x.bitcoord().0->Err_0)
                &&& next == at_x.bitcoord().1
            }
            &&& holds(s, flags + x.1) && y.0 && at_y.bitcoord().0 is Err ==> {
                &&& read == Err::<Seq<BitCoord>, BitError>(at_y.bitcoord().0->Err_0)
                &&& next == at_y.bitcoord().1
            }
            &&& holds(s, flags + x.1 + y.1) && z && at_z.bitcoord().0 is Err ==> {
                &&& read == Err::<Seq<BitCoord>, BitError>(at_z.bitcoord().0->Err_0)
                &&& next == at_z.bitcoord().1
            }
        }),
{
    let flags = seq![flag(x.0), flag(y.0), flag(z)];
    let at_x = s.skip(3);
    let at_y = at_x.skip(width_of(x.1) as int);
    lemma_four_bits(s);
    lemma_one_bit(s.skip(1));
    lemma_one_bit(s.skip(2));
    lemma_holds_three(s, flags[0], flags[1], flags[2]);
    assert(flags =~= seq![flags[0], flags[1], flags[2]]);
    lemma_holds_concat(s, flags + x.1, y.1);
    lemma_holds_concat(s, flags, x.1);
    assert(at_y == s.skip(width_of(flags + x.1) as int));
    if holds(at_x, x.1) {
        lemma_bitcoord_if(at_x, x.0, x.1, x.2);
    }
    if holds(at_y, y.1) {
        lemma_bitcoord_if(at_y, y.0, y.1, y.2);
    }
}

/// A number written in so many bits, the lowest first.
pub open spec fn bits_of(value: nat, width: nat) -> Seq<bool> {
    Seq::new(width, |i: int| (value / pow2(i as nat)) % 2 == 1)
}

/// Fields written one after the other.
pub open spec fn bits_of_fields(fields: Seq<Field>) -> Seq<bool>
    decreases fields.len(),
{
    if fields.len() == 0 {
        Seq::empty()
    } else {
        bits_of(fields[0].0, fields[0].1) + bits_of_fields(fields.skip(1))
    }
}

pub open spec fn bit_or_zero(bits: Seq<bool>, i: int) -> nat {
    if i < bits.len() && bits[i] {
        1
    } else {
        0
    }
}

/// Bits written into bytes, eight to a byte, the first in the lowest place. What is left of the last byte
/// is zero.
pub open spec fn bytes_of_bits(bits: Seq<bool>) -> Seq<u8> {
    Seq::new(
        (bits.len() + 7) / 8,
        |i: int|
            (bit_or_zero(bits, 8 * i) + 2 * bit_or_zero(bits, 8 * i + 1) + 4 * bit_or_zero(
                bits,
                8 * i + 2,
            ) + 8 * bit_or_zero(bits, 8 * i + 3) + 16 * bit_or_zero(bits, 8 * i + 4) + 32
                * bit_or_zero(bits, 8 * i + 5) + 64 * bit_or_zero(bits, 8 * i + 6) + 128
                * bit_or_zero(bits, 8 * i + 7)) as u8,
    )
}

proof fn lemma_written_bit(bits: Seq<bool>, i: int)
    requires
        0 <= i < bits.len(),
    ensures
        (BitStream { data: bytes_of_bits(bits), pos: i }).bit() == bit_or_zero(bits, i),
        i < 8 * bytes_of_bits(bits).len(),
{
    lemma2_to64();
    let q = i / 8;
    let byte = bytes_of_bits(bits)[q] as nat;
    let b0 = bit_or_zero(bits, 8 * q);
    let b1 = bit_or_zero(bits, 8 * q + 1);
    let b2 = bit_or_zero(bits, 8 * q + 2);
    let b3 = bit_or_zero(bits, 8 * q + 3);
    let b4 = bit_or_zero(bits, 8 * q + 4);
    let b5 = bit_or_zero(bits, 8 * q + 5);
    let b6 = bit_or_zero(bits, 8 * q + 6);
    let b7 = bit_or_zero(bits, 8 * q + 7);
    assert(byte == b0 + 2 * b1 + 4 * b2 + 8 * b3 + 16 * b4 + 32 * b5 + 64 * b6 + 128 * b7);
    assert((byte / 1) % 2 == b0);
    assert((byte / 2) % 2 == b1);
    assert((byte / 4) % 2 == b2);
    assert((byte / 8) % 2 == b3);
    assert((byte / 16) % 2 == b4);
    assert((byte / 32) % 2 == b5);
    assert((byte / 64) % 2 == b6);
    assert((byte / 128) % 2 == b7);
    assert(i == 8 * q + i % 8);
}

proof fn lemma_bits_from_each(s: BitStream, value: nat, width: nat)
    requires
        value < pow2(width),
        forall|j: int|
            0 <= j < width ==> (#[trigger] s.skip(j)).bit() == (value / pow2(j as nat)) % 2,
    ensures
        s.bits(width) == value,
    decreases width,
{
    lemma2_to64();
    if width > 0 {
        lemma_pow2_unfold(width);
        let next = s.skip(1);
        assert forall|j: int| 0 <= j < width - 1 implies (#[trigger] next.skip(j)).bit() == (
        value / 2 / pow2(j as nat)) % 2 by {
            assert(next.skip(j) == s.skip(j + 1));
            lemma_pow2_unfold((j + 1) as nat);
            lemma_pow2_pos(j as nat);
            lemma_div_denominator(value as int, 2, pow2(j as nat) as int);
        }
        lemma_bits_from_each(next, value / 2, (width - 1) as nat);
        assert(s.skip(0) == s);
        assert(s.bit() == (value / pow2(0)) % 2);
        assert(value / 1 == value);
    }
}

/// Fields that fit their widths, written into bytes behind any bits and in front of any, are what the
/// stream starts with where they were written: everything that is said of fields holds of written bytes.
pub proof fn lemma_written_fields_are_held(
    before: Seq<bool>,
    fields: Seq<Field>,
    after: Seq<bool>,
)
    requires
        forall|i: int| 0 <= i < fields.len() ==> (#[trigger] fields[i]).0 < pow2(fields[i].1),
    ensures
        ({
            let data = bytes_of_bits(before + bits_of_fields(fields) + after);
            holds(BitStream { data, pos: before.len() as int }, fields)
        }),
    decreases fields.len(),
{
    if fields.len() > 0 {
        let (value, width) = fields[0];
        let first = bits_of(value, width);
        let rest = bits_of_fields(fields.skip(1));
        let all = before + bits_of_fields(fields) + after;
        let s = BitStream { data: bytes_of_bits(all), pos: before.len() as int };
        assert(value < pow2(width));
        assert forall|j: int| 0 <= j < width implies (#[trigger] s.skip(j)).bit() == (value
            / pow2(j as nat)) % 2 by {
            lemma_written_bit(all, before.len() + j);
            assert(all[before.len() + j] == first[j]);
        }
        lemma_bits_from_each(s, value, width);
        assert(all =~= (before + first) + rest + after);
        assert forall|i: int| 0 <= i < fields.skip(1).len() implies (#[trigger] fields.skip(
            1,
        )[i]).0 < pow2(fields.skip(1)[i].1) by {
            assert(fields.skip(1)[i] == fields[i + 1]);
        }
        lemma_written_fields_are_held(before + first, fields.skip(1), after);
        assert(s.skip(width as int).pos == (before + first).len());
    }
}

} // verus!
