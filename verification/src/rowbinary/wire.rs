//! The wire format of the leaves, as mathematics: fixed-width little-endian
//! numbers and the variable-length unsigned integer used for length prefixes.

use crate::error::Fault;
use vstd::prelude::*;

verus! {

/// What reading from the front of a byte sequence gives: how many bytes were
/// passed over, and the value or the failure. `used` is stated for a failure
/// too, since a reader does not go back.
pub struct Parsed<T> {
    pub used: nat,
    pub outcome: Result<T, Fault>,
}

/// The fixed-width number types of the wire format. The two float kinds carry
/// their IEEE-754 bit pattern as an unsigned number.
#[derive(Clone, Copy, Debug, PartialEq, Eq, Structural)]
pub enum Scalar {
    UInt8,
    UInt16,
    UInt32,
    UInt64,
    Int8,
    Int16,
    Int32,
    Int64,
    Float32,
    Float64,
}

/// `256` to the power `width`: the number of values that `width` bytes hold.
pub open spec fn radix(width: nat) -> nat
    decreases width,
{
    if width == 0 {
        1
    } else {
        256 * radix((width - 1) as nat)
    }
}

/// `value` written in `width` bytes, least significant byte first.
pub open spec fn le_bytes(value: nat, width: nat) -> Seq<u8>
    decreases width,
{
    if width == 0 {
        Seq::empty()
    } else {
        seq![(value % 256) as u8] + le_bytes(value / 256, (width - 1) as nat)
    }
}

/// The number that `bytes` spell, least significant byte first.
pub open spec fn le_value(bytes: Seq<u8>) -> nat
    decreases bytes.len(),
{
    if bytes.len() == 0 {
        0
    } else {
        bytes[0] as nat + 256 * le_value(bytes.drop_first())
    }
}

impl Scalar {
    /// Bytes on the wire.
    pub open spec fn width(self) -> nat {
        match self {
            Scalar::UInt8 | Scalar::Int8 => 1,
            Scalar::UInt16 | Scalar::Int16 => 2,
            Scalar::UInt32 | Scalar::Int32 | Scalar::Float32 => 4,
            Scalar::UInt64 | Scalar::Int64 | Scalar::Float64 => 8,
        }
    }

    /// Whether the kind is a two's-complement signed integer.
    pub open spec fn signed(self) -> bool {
        match self {
            Scalar::Int8 | Scalar::Int16 | Scalar::Int32 | Scalar::Int64 => true,
            _ => false,
        }
    }

    /// Whether `value` is a number of this kind.
    pub open spec fn holds(self, value: int) -> bool {
        if self.signed() {
            -(radix(self.width()) / 2) <= value < radix(self.width()) / 2
        } else {
            0 <= value < radix(self.width())
        }
    }

    /// The unsigned number whose bytes stand for `value`: the value itself, or
    /// its two's complement when it is negative.
    pub open spec fn raw(self, value: int) -> nat {
        if value < 0 {
            (value + radix(self.width())) as nat
        } else {
            value as nat
        }
    }

    /// The number that the unsigned `raw` stands for.
    pub open spec fn value(self, raw: nat) -> int {
        if self.signed() && raw >= radix(self.width()) / 2 {
            raw - radix(self.width())
        } else {
            raw as int
        }
    }

    /// The bytes of `value` on the wire.
    pub open spec fn encoding(self, value: int) -> Seq<u8> {
        le_bytes(self.raw(value), self.width())
    }

    /// Reads one number of this kind from the front of `bytes`. Too few bytes
    /// is `NotEnoughData`, with nothing passed over.
    pub open spec fn parse(self, bytes: Seq<u8>) -> Parsed<int> {
        if bytes.len() < self.width() {
            Parsed { used: 0, outcome: Err(Fault::NotEnoughData) }
        } else {
            Parsed {
                used: self.width(),
                outcome: Ok(self.value(le_value(bytes.take(self.width() as int)))),
            }
        }
    }
}

/// The byte of a boolean: `1` for true, `0` for false.
pub open spec fn bool_encoding(value: bool) -> Seq<u8> {
    seq![if value { 1u8 } else { 0u8 }]
}

/// Reads a boolean: any byte but zero is true.
pub open spec fn parse_bool(bytes: Seq<u8>) -> Parsed<bool> {
    if bytes.len() < 1 {
        Parsed { used: 0, outcome: Err(Fault::NotEnoughData) }
    } else {
        Parsed { used: 1, outcome: Ok(bytes[0] != 0) }
    }
}

/// The shortest variable-length encoding of `value`: seven bits per byte, the
/// low group first, the high bit set on every byte but the last.
pub open spec fn varuint_bytes(value: nat) -> Seq<u8>
    decreases value,
{
    if value < 128 {
        seq![value as u8]
    } else {
        seq![(128 + value % 128) as u8] + varuint_bytes(value / 128)
    }
}

/// Reads a variable-length integer whose first byte is group number `depth`.
///
/// Bytes are passed over as they are read. Running out of bytes is
/// `NotEnoughData`. The tenth group may only hold the one bit that is left of
/// 64 and must be the last: any other byte there is `InvalidTagEncoding` of
/// that byte.
pub open spec fn varuint_scan(bytes: Seq<u8>, depth: nat) -> Parsed<nat>
    decreases bytes.len(),
{
    if bytes.len() == 0 {
        Parsed { used: 0, outcome: Err(Fault::NotEnoughData) }
    } else if depth >= 9 && bytes[0] > 1 {
        Parsed { used: 1, outcome: Err(Fault::InvalidTagEncoding(bytes[0] as nat)) }
    } else if bytes[0] < 128 {
        Parsed { used: 1, outcome: Ok(bytes[0] as nat) }
    } else {
        let tail = varuint_scan(bytes.drop_first(), depth + 1);
        Parsed {
            used: 1 + tail.used,
            outcome: match tail.outcome {
                Ok(high) => Ok((bytes[0] - 128) as nat + 128 * high),
                Err(fault) => Err(fault),
            },
        }
    }
}

/// Reads a variable-length integer from the front of `bytes`.
pub open spec fn parse_varuint(bytes: Seq<u8>) -> Parsed<nat> {
    varuint_scan(bytes, 0)
}

/// One more than the largest number that the groups from `depth` on can hold
/// within 64 bits.
pub open spec fn varuint_limit(depth: nat) -> nat
    decreases 9 - depth,
{
    if depth >= 9 {
        2
    } else {
        128 * varuint_limit(depth + 1)
    }
}

/// The first nine powers of `256`, written out.
pub proof fn lemma_radix_values()
    ensures
        radix(0) == 1,
        radix(1) == 0x100,
        radix(2) == 0x1_0000,
        radix(3) == 0x100_0000,
        radix(4) == 0x1_0000_0000,
        radix(5) == 0x100_0000_0000,
        radix(6) == 0x1_0000_0000_0000,
        radix(7) == 0x100_0000_0000_0000,
        radix(8) == 0x1_0000_0000_0000_0000,
{
    reveal_with_fuel(radix, 10);
}

/// The limit of each of the ten groups, written out.
pub proof fn lemma_varuint_limit_values()
    ensures
        varuint_limit(0) == 0x1_0000_0000_0000_0000,
        varuint_limit(1) == 0x200_0000_0000_0000,
        varuint_limit(2) == 0x4_0000_0000_0000,
        varuint_limit(3) == 0x800_0000_0000,
        varuint_limit(4) == 0x10_0000_0000,
        varuint_limit(5) == 0x2000_0000,
        varuint_limit(6) == 0x40_0000,
        varuint_limit(7) == 0x8000,
        varuint_limit(8) == 0x100,
        varuint_limit(9) == 2,
{
    reveal_with_fuel(varuint_limit, 11);
}

/// `le_bytes` gives exactly `width` bytes.
pub proof fn lemma_le_bytes_len(value: nat, width: nat)
    ensures
        le_bytes(value, width).len() == width,
    decreases width,
{
    if width > 0 {
        lemma_le_bytes_len(value / 256, (width - 1) as nat);
    }
}

/// What `bytes` spell is below `256` to the power of their number.
pub proof fn lemma_le_value_bound(bytes: Seq<u8>)
    ensures
        le_value(bytes) < radix(bytes.len()),
    decreases bytes.len(),
{
    if bytes.len() > 0 {
        lemma_le_value_bound(bytes.drop_first());
    }
}

/// Reading back the bytes of a number that fits gives the number.
pub proof fn lemma_le_value_of_le_bytes(value: nat, width: nat)
    requires
        value < radix(width),
    ensures
        le_value(le_bytes(value, width)) == value,
    decreases width,
{
    if width > 0 {
        let tail = le_bytes(value / 256, (width - 1) as nat);
        lemma_le_value_of_le_bytes(value / 256, (width - 1) as nat);
        assert(le_bytes(value, width).drop_first() =~= tail);
    }
}

/// A number of a kind and the unsigned number that stands for it determine
/// each other.
pub proof fn lemma_scalar_raw_value(kind: Scalar, value: int)
    requires
        kind.holds(value),
    ensures
        kind.raw(value) < radix(kind.width()),
        kind.value(kind.raw(value)) == value,
{
    lemma_radix_values();
}

/// A number of a kind, written and read back, is the same number, whatever
/// follows it.
pub proof fn lemma_scalar_round_trip(kind: Scalar, value: int, rest: Seq<u8>)
    requires
        kind.holds(value),
    ensures
        kind.encoding(value).len() == kind.width(),
        kind.parse(kind.encoding(value) + rest) == (Parsed {
            used: kind.width(),
            outcome: Ok(value),
        }),
{
    let bytes = kind.encoding(value);
    lemma_le_bytes_len(kind.raw(value), kind.width());
    lemma_scalar_raw_value(kind, value);
    lemma_le_value_of_le_bytes(kind.raw(value), kind.width());
    assert((bytes + rest).take(kind.width() as int) =~= bytes);
}

/// A variable-length integer, written and read back, is the same number,
/// whatever follows it, and exactly its own bytes are passed over.
pub proof fn lemma_varuint_scan_of_bytes(value: nat, depth: nat, rest: Seq<u8>)
    requires
        depth <= 9,
        value < varuint_limit(depth),
    ensures
        varuint_scan(varuint_bytes(value) + rest, depth) == (Parsed {
            used: varuint_bytes(value).len(),
            outcome: Ok(value),
        }),
    decreases value,
{
    let bytes = varuint_bytes(value) + rest;
    if value >= 128 {
        assert(depth < 9);
        lemma_varuint_scan_of_bytes(value / 128, depth + 1, rest);
        assert(bytes.drop_first() =~= varuint_bytes(value / 128) + rest);
        assert(bytes[0] == 128 + value % 128);
    } else {
        assert(bytes[0] == value);
    }
}

/// Whatever a scan accepts is below the limit of its depth: a length prefix
/// fits in 64 bits.
pub proof fn lemma_varuint_scan_bound(bytes: Seq<u8>, depth: nat)
    requires
        depth <= 9,
    ensures
        varuint_scan(bytes, depth).used <= bytes.len(),
        varuint_scan(bytes, depth).used <= 10 - depth,
        varuint_scan(bytes, depth).outcome is Ok ==> varuint_scan(bytes, depth).outcome->Ok_0
            < varuint_limit(depth) && varuint_scan(bytes, depth).used >= 1,
    decreases bytes.len(),
{
    lemma_varuint_limit_values();
    if bytes.len() > 0 && !(depth >= 9 && bytes[0] > 1) && bytes[0] >= 128 {
        lemma_varuint_scan_bound(bytes.drop_first(), depth + 1);
    }
}

/// No accepted spelling of a number is shorter than `varuint_bytes` of it.
pub proof fn lemma_varuint_bytes_shortest(bytes: Seq<u8>, depth: nat)
    requires
        varuint_scan(bytes, depth).outcome is Ok,
    ensures
        varuint_bytes(varuint_scan(bytes, depth).outcome->Ok_0).len() <= varuint_scan(
            bytes,
            depth,
        ).used,
    decreases bytes.len(),
{
    if bytes[0] >= 128 {
        let tail = varuint_scan(bytes.drop_first(), depth + 1);
        lemma_varuint_bytes_shortest(bytes.drop_first(), depth + 1);
        let high = tail.outcome->Ok_0;
        let value = (bytes[0] - 128) as nat + 128 * high;
        if value >= 128 {
            assert(value / 128 == high);
        }
    }
}

/// A variable-length integer cut short is `NotEnoughData`, with every byte
/// that is there passed over.
pub proof fn lemma_varuint_scan_truncated(value: nat, depth: nat, cut: int)
    requires
        depth <= 9,
        value < varuint_limit(depth),
        0 <= cut < varuint_bytes(value).len(),
    ensures
        varuint_scan(varuint_bytes(value).take(cut), depth) == (Parsed::<nat> {
            used: cut as nat,
            outcome: Err(Fault::NotEnoughData),
        }),
    decreases value,
{
    let short = varuint_bytes(value).take(cut);
    if cut > 0 {
        assert(value >= 128);
        assert(depth < 9);
        lemma_varuint_scan_truncated(value / 128, depth + 1, cut - 1);
        assert(short.drop_first() =~= varuint_bytes(value / 128).take(cut - 1));
        assert(short[0] == 128 + value % 128);
    }
}

/// What follows a variable-length integer has no part in how it is read.
pub proof fn lemma_varuint_scan_ignores_rest(bytes: Seq<u8>, depth: nat, extra: Seq<u8>)
    requires
        varuint_scan(bytes, depth).outcome is Ok,
    ensures
        varuint_scan(bytes + extra, depth) == varuint_scan(bytes, depth),
    decreases bytes.len(),
{
    assert((bytes + extra)[0] == bytes[0]);
    if bytes[0] >= 128 {
        lemma_varuint_scan_ignores_rest(bytes.drop_first(), depth + 1, extra);
        assert((bytes + extra).drop_first() =~= bytes.drop_first() + extra);
    }
}

} // verus!
