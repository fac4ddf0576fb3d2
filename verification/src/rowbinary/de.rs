//! Reading: the deserializer that turns bytes into values.

use crate::error::{fails_with, Error, Fault};
use crate::rowbinary::cursor::Cursor;
use crate::rowbinary::model::{
    parse_array, parse_enum, parse_fields, parse_nullable, parse_number, parse_presence,
    parse_string, parse_variant, tag_width, text_of,
};
use crate::rowbinary::text::lossy_text;
use crate::rowbinary::value::{data_of, layouts_of, Datum, Shape, TextPolicy, Value};
use crate::rowbinary::wire::{
    le_value, lemma_le_value_bound, lemma_radix_values, lemma_varuint_limit_values,
    lemma_varuint_scan_bound, parse_bool, parse_varuint, varuint_scan, Parsed, Scalar,
};
use vstd::prelude::*;
use vstd::slice::slice_to_vec;

verus! {

/// Reads values from the front of a byte region, each where the one before
/// it ended.
pub struct Deserializer<'a> {
    input: Cursor<'a>,
}

impl<'a> View for Deserializer<'a> {
    type V = Seq<u8>;

    /// The bytes that have not been read yet.
    closed spec fn view(&self) -> Seq<u8> {
        self.input@
    }
}

/// `128` to the power `depth`: the weight of group number `depth` of a
/// variable-length integer.
spec fn group_weight(depth: nat) -> nat
    decreases depth,
{
    if depth == 0 {
        1
    } else {
        128 * group_weight((depth - 1) as nat)
    }
}

/// The weight of each of the ten groups, written out.
proof fn lemma_group_weight_values()
    ensures
        group_weight(0) == 1,
        group_weight(1) == 0x80,
        group_weight(2) == 0x4000,
        group_weight(3) == 0x20_0000,
        group_weight(4) == 0x1000_0000,
        group_weight(5) == 0x8_0000_0000,
        group_weight(6) == 0x400_0000_0000,
        group_weight(7) == 0x2_0000_0000_0000,
        group_weight(8) == 0x100_0000_0000_0000,
        group_weight(9) == 0x8000_0000_0000_0000,
{
    reveal_with_fuel(group_weight, 11);
}

/// Whether a read that began before `before` and ended before `after` did
/// what `parsed` says: passed over as many bytes, none of them beyond the
/// end, and came to the same value or the same failure.
pub open spec fn reads(
    before: Seq<u8>,
    after: Seq<u8>,
    outcome: Result<Value, Error>,
    parsed: Parsed<Datum>,
) -> bool {
    &&& parsed.used <= before.len()
    &&& after == before.skip(parsed.used as int)
    &&& match parsed.outcome {
        Ok(datum) => outcome is Ok && outcome->Ok_0@ == datum,
        Err(fault) => fails_with(outcome, fault),
    }
}

/// The same for a read of several values.
pub open spec fn reads_all(
    before: Seq<u8>,
    after: Seq<u8>,
    outcome: Result<Vec<Value>, Error>,
    parsed: Parsed<Seq<Datum>>,
) -> bool {
    &&& parsed.used <= before.len()
    &&& after == before.skip(parsed.used as int)
    &&& match parsed.outcome {
        Ok(data) => outcome is Ok && data_of(outcome->Ok_0@) == data,
        Err(fault) => fails_with(outcome, fault),
    }
}

impl<'a> Deserializer<'a> {
    /// Starts reading at the first byte of `data`.
    pub fn new(data: &'a [u8]) -> (deserializer: Self)
        ensures
            deserializer@ == data@,
    {
        Deserializer { input: Cursor::new(data) }
    }

    /// Goes on reading where `input` stands.
    pub fn from_cursor(input: Cursor<'a>) -> (deserializer: Self)
        ensures
            deserializer@ == input@,
    {
        Deserializer { input }
    }

    /// The cursor, where reading has come to.
    pub fn into_cursor(self) -> (input: Cursor<'a>)
        ensures
            input@ == self@,
    {
        self.input
    }

    /// How many bytes are left to read.
    pub fn remaining(&self) -> (count: usize)
        ensures
            count == self@.len(),
    {
        self.input.remaining()
    }

    /// Reads `width` bytes as an unsigned number, least significant first.
    fn get_fixed(&mut self, width: usize) -> (outcome: Result<u64, Error>)
        requires
            width <= 8,
        ensures
            old(self)@.len() < width ==> fails_with(outcome, Fault::NotEnoughData) && final(self)@
                == old(self)@,
            old(self)@.len() >= width ==> outcome is Ok && outcome->Ok_0 == le_value(
                old(self)@.take(width as int),
            ) && final(self)@ == old(self)@.skip(width as int),
    {
        let bytes = match self.input.take(width) {
            Ok(bytes) => bytes,
            Err(error) => {
                return Err(error);
            },
        };
        let mut number: u64 = 0;
        let mut at: usize = width;
        while at > 0
            invariant
                at <= width <= 8,
                bytes@.len() == width,
                number == le_value(bytes@.skip(at as int)),
            decreases at,
        {
            proof {
                lemma_le_value_bound(bytes@.skip(at as int));
                lemma_radix_values();
                let held = (width - at) as nat;
                assert(held == 0 || held == 1 || held == 2 || held == 3 || held == 4 || held == 5
                    || held == 6 || held == 7);
                assert(bytes@.skip(at - 1).drop_first() =~= bytes@.skip(at as int));
            }
            at = at - 1;
            number = number * 256 + bytes[at] as u64;
        }
        assert(bytes@.skip(0) =~= bytes@);
        Ok(number)
    }

    pub fn deserialize_u8(&mut self) -> (outcome: Result<u8, Error>)
        ensures
            final(self)@ == old(self)@.skip(Scalar::UInt8.parse(old(self)@).used as int),
            match Scalar::UInt8.parse(old(self)@).outcome {
                Ok(value) => outcome is Ok && outcome->Ok_0 == value,
                Err(fault) => fails_with(outcome, fault),
            },
    {
        proof {
            lemma_le_value_bound(old(self)@.take(1));
            lemma_radix_values();
        }
        match self.get_fixed(1) {
            Ok(raw) => Ok(raw as u8),
            Err(error) => Err(error),
        }
    }

    pub fn deserialize_u16(&mut self) -> (outcome: Result<u16, Error>)
        ensures
            final(self)@ == old(self)@.skip(Scalar::UInt16.parse(old(self)@).used as int),
            match Scalar::UInt16.parse(old(self)@).outcome {
                Ok(value) => outcome is Ok && outcome->Ok_0 == value,
                Err(fault) => fails_with(outcome, fault),
            },
    {
        proof {
            lemma_le_value_bound(old(self)@.take(2));
            lemma_radix_values();
        }
        match self.get_fixed(2) {
            Ok(raw) => Ok(raw as u16),
            Err(error) => Err(error),
        }
    }

    pub fn deserialize_u32(&mut self) -> (outcome: Result<u32, Error>)
        ensures
            final(self)@ == old(self)@.skip(Scalar::UInt32.parse(old(self)@).used as int),
            match Scalar::UInt32.parse(old(self)@).outcome {
                Ok(value) => outcome is Ok && outcome->Ok_0 == value,
                Err(fault) => fails_with(outcome, fault),
            },
    {
        proof {
            lemma_le_value_bound(old(self)@.take(4));
            lemma_radix_values();
        }
        match self.get_fixed(4) {
            Ok(raw) => Ok(raw as u32),
            Err(error) => Err(error),
        }
    }

    pub fn deserialize_u64(&mut self) -> (outcome: Result<u64, Error>)
        ensures
            final(self)@ == old(self)@.skip(Scalar::UInt64.parse(old(self)@).used as int),
            match Scalar::UInt64.parse(old(self)@).outcome {
                Ok(value) => outcome is Ok && outcome->Ok_0 == value,
                Err(fault) => fails_with(outcome, fault),
            },
    {
        self.get_fixed(8)
    }

    pub fn deserialize_i8(&mut self) -> (outcome: Result<i8, Error>)
        ensures
            final(self)@ == old(self)@.skip(Scalar::Int8.parse(old(self)@).used as int),
            match Scalar::Int8.parse(old(self)@).outcome {
                Ok(value) => outcome is Ok && outcome->Ok_0 == value,
                Err(fault) => fails_with(outcome, fault),
            },
    {
        proof {
            lemma_le_value_bound(old(self)@.take(1));
            lemma_radix_values();
        }
        match self.get_fixed(1) {
            Ok(raw) => Ok(
                if raw >= 0x80 {
                    (raw as i64 - 0x100) as i8
                } else {
                    raw as i8
                },
            ),
            Err(error) => Err(error),
        }
    }

    pub fn deserialize_i16(&mut self) -> (outcome: Result<i16, Error>)
        ensures
            final(self)@ == old(self)@.skip(Scalar::Int16.parse(old(self)@).used as int),
            match Scalar::Int16.parse(old(self)@).outcome {
                Ok(value) => outcome is Ok && outcome->Ok_0 == value,
                Err(fault) => fails_with(outcome, fault),
            },
    {
        proof {
            lemma_le_value_bound(old(self)@.take(2));
            lemma_radix_values();
        }
        match self.get_fixed(2) {
            Ok(raw) => Ok(
                if raw >= 0x8000 {
                    (raw as i64 - 0x1_0000) as i16
                } else {
                    raw as i16
                },
            ),
            Err(error) => Err(error),
        }
    }

    pub fn deserialize_i32(&mut self) -> (outcome: Result<i32, Error>)
        ensures
            final(self)@ == old(self)@.skip(Scalar::Int32.parse(old(self)@).used as int),
            match Scalar::Int32.parse(old(self)@).outcome {
                Ok(value) => outcome is Ok && outcome->Ok_0 == value,
                Err(fault) => fails_with(outcome, fault),
            },
    {
        proof {
            lemma_le_value_bound(old(self)@.take(4));
            lemma_radix_values();
        }
        match self.get_fixed(4) {
            Ok(raw) => Ok(
                if raw >= 0x8000_0000 {
                    (raw as i64 - 0x1_0000_0000) as i32
                } else {
                    raw as i32
                },
            ),
            Err(error) => Err(error),
        }
    }

    pub fn deserialize_i64(&mut self) -> (outcome: Result<i64, Error>)
        ensures
            final(self)@ == old(self)@.skip(Scalar::Int64.parse(old(self)@).used as int),
            match Scalar::Int64.parse(old(self)@).outcome {
                Ok(value) => outcome is Ok && outcome->Ok_0 == value,
                Err(fault) => fails_with(outcome, fault),
            },
    {
        proof {
            lemma_radix_values();
        }
        match self.get_fixed(8) {
            Ok(raw) => Ok(
                if raw >= 0x8000_0000_0000_0000 {
                    ((raw - 0x8000_0000_0000_0000) as i64) + i64::MIN
                } else {
                    raw as i64
                },
            ),
            Err(error) => Err(error),
        }
    }

    /// Reads a 32-bit float as its IEEE-754 bit pattern.
    pub fn deserialize_f32(&mut self) -> (outcome: Result<u32, Error>)
        ensures
            final(self)@ == old(self)@.skip(Scalar::Float32.parse(old(self)@).used as int),
            match Scalar::Float32.parse(old(self)@).outcome {
                Ok(value) => outcome is Ok && outcome->Ok_0 == value,
                Err(fault) => fails_with(outcome, fault),
            },
    {
        proof {
            lemma_le_value_bound(old(self)@.take(4));
            lemma_radix_values();
        }
        match self.get_fixed(4) {
            Ok(raw) => Ok(raw as u32),
            Err(error) => Err(error),
        }
    }

    /// Reads a 64-bit float as its IEEE-754 bit pattern.
    pub fn deserialize_f64(&mut self) -> (outcome: Result<u64, Error>)
        ensures
            final(self)@ == old(self)@.skip(Scalar::Float64.parse(old(self)@).used as int),
            match Scalar::Float64.parse(old(self)@).outcome {
                Ok(value) => outcome is Ok && outcome->Ok_0 == value,
                Err(fault) => fails_with(outcome, fault),
            },
    {
        self.get_fixed(8)
    }

    /// Reads a boolean. Any byte but zero counts as true.
    pub fn deserialize_bool(&mut self) -> (outcome: Result<bool, Error>)
        ensures
            final(self)@ == old(self)@.skip(parse_bool(old(self)@).used as int),
            match parse_bool(old(self)@).outcome {
                Ok(value) => outcome is Ok && outcome->Ok_0 == value,
                Err(fault) => fails_with(outcome, fault),
            },
    {
        match self.input.take(1) {
            Ok(bytes) => Ok(bytes[0] != 0),
            Err(error) => Err(error),
        }
    }

    /// Reads a length or a count in the variable-length encoding.
    pub fn deserialize_length(&mut self) -> (outcome: Result<u64, Error>)
        ensures
            final(self)@ == old(self)@.skip(parse_varuint(old(self)@).used as int),
            match parse_varuint(old(self)@).outcome {
                Ok(value) => outcome is Ok && outcome->Ok_0 == value,
                Err(fault) => fails_with(outcome, fault),
            },
    {
        let ghost whole = parse_varuint(old(self)@);
        let mut number: u64 = 0;
        let mut weight: u64 = 1;
        let mut depth: usize = 0;
        proof {
            lemma_group_weight_values();
            assert(old(self)@.skip(0) =~= old(self)@);
        }
        loop
            invariant
                depth <= 9,
                weight == group_weight(depth as nat),
                number < weight,
                depth <= old(self)@.len(),
                self@ == old(self)@.skip(depth as int),
                whole == parse_varuint(old(self)@),
                whole.used == depth + varuint_scan(self@, depth as nat).used,
                whole.outcome == match varuint_scan(self@, depth as nat).outcome {
                    Ok(high) => Ok::<nat, Fault>((number + weight * high) as nat),
                    Err(fault) => Err(fault),
                },
            decreases 10 - depth,
        {
            let ghost here = self@;
            proof {
                lemma_group_weight_values();
                lemma_varuint_limit_values();
            }
            let byte: u8 = match self.input.take(1) {
                Ok(bytes) => bytes[0],
                Err(error) => {
                    return Err(error);
                },
            };
            assert(byte == here[0]);
            assert(self@ =~= old(self)@.skip(depth + 1));
            assert(self@ =~= here.drop_first());
            if depth >= 9 && byte > 1 {
                return Err(Error::InvalidTagEncoding(byte as usize));
            }
            if byte < 128 {
                assert(weight * byte <= weight * 127) by (nonlinear_arith)
                    requires
                        byte <= 127,
                        weight >= 0,
                ;
                assert(depth >= 9 ==> weight * byte <= weight) by (nonlinear_arith)
                    requires
                        depth >= 9 ==> byte <= 1,
                        weight >= 0,
                ;
                return Ok(number + weight * (byte as u64));
            }
            assert(depth < 9);
            let group: u64 = (byte - 128) as u64;
            proof {
                let next = varuint_scan(self@, (depth + 1) as nat);
                assert(weight * group <= weight * 127) by (nonlinear_arith)
                    requires
                        group <= 127,
                        weight >= 0,
                ;
                if next.outcome is Ok {
                    let high = next.outcome->Ok_0;
                    assert(number + weight * (group + 128 * high) == (number + weight * group) + (
                    weight * 128) * high) by (nonlinear_arith);
                }
            }
            number = number + weight * group;
            weight = weight * 128;
            depth = depth + 1;
        }
    }

    /// Reads a string and hands out its payload as it is, unvalidated.
    pub fn deserialize_bytes(&mut self) -> (outcome: Result<&'a [u8], Error>)
        ensures
            final(self)@ == old(self)@.skip(parse_string(old(self)@).used as int),
            match parse_string(old(self)@).outcome {
                Ok(payload) => outcome is Ok && outcome->Ok_0@ == payload,
                Err(fault) => fails_with(outcome, fault),
            },
    {
        proof {
            lemma_varuint_scan_bound(old(self)@, 0);
        }
        let length = match self.deserialize_length() {
            Ok(length) => length,
            Err(error) => {
                return Err(error);
            },
        };
        if length > self.input.remaining() as u64 {
            return Err(Error::NotEnoughData);
        }
        let ghost prefix = parse_varuint(old(self)@).used;
        match self.input.take(length as usize) {
            Ok(payload) => {
                assert(payload@ =~= old(self)@.subrange(prefix as int, prefix + length));
                assert(self@ =~= old(self)@.skip(prefix + length));
                Ok(payload)
            },
            Err(error) => Err(error),
        }
    }

    /// Reads a string as text under `policy`.
    pub fn deserialize_text(&mut self, policy: TextPolicy) -> (outcome: Result<String, Error>)
        ensures
            final(self)@ == old(self)@.skip(parse_string(old(self)@).used as int),
            match parse_string(old(self)@).outcome {
                Ok(payload) => match text_of(policy, payload) {
                    Ok(chars) => outcome is Ok && outcome->Ok_0@ == chars,
                    Err(fault) => fails_with(outcome, fault),
                },
                Err(fault) => fails_with(outcome, fault),
            },
    {
        let payload = match self.deserialize_bytes() {
            Ok(payload) => payload,
            Err(error) => {
                return Err(error);
            },
        };
        match policy {
            TextPolicy::Strict => match core::str::from_utf8(payload) {
                Ok(text) => Ok(text.to_owned()),
                Err(error) => Err(Error::InvalidUtf8Sequence(error)),
            },
            TextPolicy::Lossy => Ok(lossy_text(payload)),
        }
    }

    /// Reads the flag of a nullable value: whether a value follows.
    pub fn deserialize_option(&mut self) -> (outcome: Result<bool, Error>)
        ensures
            final(self)@ == old(self)@.skip(parse_presence(old(self)@).used as int),
            match parse_presence(old(self)@).outcome {
                Ok(present) => outcome is Ok && outcome->Ok_0 == present,
                Err(fault) => fails_with(outcome, fault),
            },
    {
        match self.input.take(1) {
            Ok(bytes) => {
                let flag: u8 = bytes[0];
                if flag == 0 {
                    Ok(true)
                } else if flag == 1 {
                    Ok(false)
                } else {
                    Err(Error::InvalidTagEncoding(flag as usize))
                }
            },
            Err(error) => Err(error),
        }
    }

    /// Reads the discriminator of an enum that declares `declared` variants
    /// and checks that it names one of them.
    pub fn deserialize_variant(&mut self, declared: usize) -> (outcome: Result<usize, Error>)
        ensures
            final(self)@ == old(self)@.skip(parse_variant(old(self)@, declared as nat).used as int),
            match parse_variant(old(self)@, declared as nat).outcome {
                Ok(index) => outcome is Ok && outcome->Ok_0 == index,
                Err(fault) => fails_with(outcome, fault),
            },
    {
        let width: usize = if declared <= 0x100 {
            1
        } else if declared <= 0x1_0000 {
            2
        } else if declared as u64 <= 0x1_0000_0000 {
            4
        } else {
            8
        };
        proof {
            lemma_le_value_bound(old(self)@.take(width as int));
            lemma_radix_values();
        }
        match self.get_fixed(width) {
            Ok(index) => {
                if index < declared as u64 {
                    Ok(index as usize)
                } else {
                    Err(Error::VariantDiscriminatorIsOutOfBound(index as usize))
                }
            },
            Err(error) => Err(error),
        }
    }

    /// Refuses to read a value of unknown type: the format describes nothing
    /// about itself, so there is nothing to go by. Nothing is read.
    pub fn deserialize_any(&mut self) -> (outcome: Result<(), Error>)
        ensures
            fails_with(outcome, Fault::DeserializeAnyNotSupported),
            final(self)@ == old(self)@,
    {
        Err(Error::DeserializeAnyNotSupported)
    }

    /// Reads one number of the given kind.
    pub fn deserialize_scalar(&mut self, kind: Scalar) -> (outcome: Result<Value, Error>)
        ensures
            reads(old(self)@, final(self)@, outcome, parse_number(kind, old(self)@)),
    {
        match kind {
            Scalar::UInt8 => match self.deserialize_u8() {
                Ok(number) => Ok(Value::UInt8(number)),
                Err(error) => Err(error),
            },
            Scalar::UInt16 => match self.deserialize_u16() {
                Ok(number) => Ok(Value::UInt16(number)),
                Err(error) => Err(error),
            },
            Scalar::UInt32 => match self.deserialize_u32() {
                Ok(number) => Ok(Value::UInt32(number)),
                Err(error) => Err(error),
            },
            Scalar::UInt64 => match self.deserialize_u64() {
                Ok(number) => Ok(Value::UInt64(number)),
                Err(error) => Err(error),
            },
            Scalar::Int8 => match self.deserialize_i8() {
                Ok(number) => Ok(Value::Int8(number)),
                Err(error) => Err(error),
            },
            Scalar::Int16 => match self.deserialize_i16() {
                Ok(number) => Ok(Value::Int16(number)),
                Err(error) => Err(error),
            },
            Scalar::Int32 => match self.deserialize_i32() {
                Ok(number) => Ok(Value::Int32(number)),
                Err(error) => Err(error),
            },
            Scalar::Int64 => match self.deserialize_i64() {
                Ok(number) => Ok(Value::Int64(number)),
                Err(error) => Err(error),
            },
            Scalar::Float32 => match self.deserialize_f32() {
                Ok(bits) => Ok(Value::Float32(bits)),
                Err(error) => Err(error),
            },
            Scalar::Float64 => match self.deserialize_f64() {
                Ok(bits) => Ok(Value::Float64(bits)),
                Err(error) => Err(error),
            },
        }
    }

    /// Reads one value of the declared `shape`: its own bytes, then what it
    /// holds, in declared order. Reading stops at the first failure, with
    /// the input left where the failing read left it.
    pub fn deserialize_value(&mut self, shape: &Shape) -> (outcome: Result<Value, Error>)
        ensures
            reads(old(self)@, final(self)@, outcome, shape@.parse(old(self)@)),
        decreases shape, 0nat, 0nat,
    {
        match shape {
            Shape::Scalar(kind) => self.deserialize_scalar(*kind),
            Shape::Bool => match self.deserialize_bool() {
                Ok(flag) => Ok(Value::Bool(flag)),
                Err(error) => Err(error),
            },
            Shape::Text(policy) => {
                proof {
                    lemma_varuint_scan_bound(old(self)@, 0);
                }
                match self.deserialize_text(*policy) {
                    Ok(text) => Ok(Value::Text(text)),
                    Err(error) => Err(error),
                }
            },
            Shape::Bytes => {
                proof {
                    lemma_varuint_scan_bound(old(self)@, 0);
                }
                match self.deserialize_bytes() {
                    Ok(payload) => Ok(Value::Bytes(slice_to_vec(payload))),
                    Err(error) => Err(error),
                }
            },
            Shape::Nullable(inner) => self.deserialize_nullable(inner),
            Shape::Array(item) => self.deserialize_array(item),
            Shape::Tuple(fields) => match self.deserialize_fields(fields) {
                Ok(values) => Ok(Value::Tuple(values)),
                Err(error) => Err(error),
            },
            Shape::Enum(variants) => self.deserialize_enum(variants),
        }
    }

    /// Reads one nullable value whose inner shape is `inner`.
    fn deserialize_nullable(&mut self, inner: &Shape) -> (outcome: Result<Value, Error>)
        ensures
            reads(old(self)@, final(self)@, outcome, parse_nullable(inner@, old(self)@)),
        decreases inner, 1nat, 0nat,
    {
        let ghost before = self@;
        match self.deserialize_option() {
            Err(error) => Err(error),
            Ok(false) => Ok(Value::Nullable(None)),
            Ok(true) => {
                let outcome = self.deserialize_value(inner);
                assert(self@ =~= before.skip((1 + inner@.parse(before.skip(1)).used) as int));
                match outcome {
                    Ok(present) => Ok(Value::Nullable(Some(Box::new(present)))),
                    Err(error) => Err(error),
                }
            },
        }
    }

    /// Reads one array whose elements have the shape `item`.
    fn deserialize_array(&mut self, item: &Shape) -> (outcome: Result<Value, Error>)
        ensures
            reads(old(self)@, final(self)@, outcome, parse_array(item@, old(self)@)),
        decreases item, 2nat, 0nat,
    {
        let ghost before = self@;
        proof {
            lemma_varuint_scan_bound(before, 0);
        }
        match self.deserialize_length() {
            Err(error) => Err(error),
            Ok(count) => {
                let ghost prefix = parse_varuint(before).used;
                let outcome = self.deserialize_many(item, count);
                assert(self@ =~= before.skip(
                    (prefix + item@.parse_many(before.skip(prefix as int), count as nat).used) as int,
                ));
                match outcome {
                    Ok(items) => Ok(Value::Array(items)),
                    Err(error) => Err(error),
                }
            },
        }
    }

    /// Reads one enum whose variants have the payload shapes `variants`.
    fn deserialize_enum(&mut self, variants: &Vec<Shape>) -> (outcome: Result<Value, Error>)
        ensures
            reads(old(self)@, final(self)@, outcome, parse_enum(layouts_of(variants@), old(self)@)),
        decreases variants, 0nat, 0nat,
    {
        let ghost before = self@;
        let declared = variants.len();
        match self.deserialize_variant(declared) {
            Err(error) => Err(error),
            Ok(index) => {
                let ghost width = tag_width(declared as nat);
                let outcome = self.deserialize_value(&variants[index]);
                assert(self@ =~= before.skip(
                    (width + variants@[index as int]@.parse(before.skip(width as int)).used) as int,
                ));
                match outcome {
                    Ok(payload) => Ok(Value::Enum { declared, index, payload: Box::new(payload) }),
                    Err(error) => Err(error),
                }
            },
        }
    }

    /// Reads `count` values of the declared `shape`, one after the other,
    /// and stops at the first that fails. What follows the last value is
    /// left unread.
    pub fn deserialize_many(&mut self, shape: &Shape, count: u64) -> (outcome: Result<
        Vec<Value>,
        Error,
    >)
        ensures
            reads_all(
                old(self)@,
                final(self)@,
                outcome,
                shape@.parse_many(old(self)@, count as nat),
            ),
        decreases shape, 1nat, count,
    {
        let ghost whole = shape@.parse_many(old(self)@, count as nat);
        let ghost used: nat = 0;
        let mut values: Vec<Value> = Vec::new();
        let mut done: u64 = 0;
        proof {
            assert(self@ =~= old(self)@.skip(0));
            assert(data_of(values@) + whole.outcome->Ok_0 =~= whole.outcome->Ok_0);
        }
        while done < count
            invariant
                done <= count,
                whole == shape@.parse_many(old(self)@, count as nat),
                used <= old(self)@.len(),
                self@ == old(self)@.skip(used as int),
                whole.used == used + shape@.parse_many(self@, (count - done) as nat).used,
                whole.outcome == match shape@.parse_many(self@, (count - done) as nat).outcome {
                    Ok(data) => Ok::<Seq<Datum>, Fault>(data_of(values@) + data),
                    Err(fault) => Err(fault),
                },
            decreases count - done,
        {
            let ghost held = data_of(values@);
            let ghost head = shape@.parse(self@);
            let outcome = self.deserialize_value(shape);
            assert(self@ =~= old(self)@.skip((used + head.used) as int));
            match outcome {
                Err(error) => {
                    return Err(error);
                },
                Ok(value) => {
                    values.push(value);
                    proof {
                        let tail = shape@.parse_many(self@, (count - done - 1) as nat);
                        assert(data_of(values@) =~= held.push(value@));
                        if tail.outcome is Ok {
                            let data = tail.outcome->Ok_0;
                            assert(held + (seq![value@] + data) =~= held.push(value@) + data);
                        }
                        used = used + head.used;
                    }
                },
            }
            done = done + 1;
        }
        assert(data_of(values@) + Seq::<Datum>::empty() =~= data_of(values@));
        Ok(values)
    }

    /// Reads one value for each of `shapes`, in order, and stops at the
    /// first that fails.
    fn deserialize_fields(&mut self, shapes: &Vec<Shape>) -> (outcome: Result<Vec<Value>, Error>)
        ensures
            reads_all(
                old(self)@,
                final(self)@,
                outcome,
                parse_fields(layouts_of(shapes@), old(self)@, 0),
            ),
        decreases shapes, shapes.len(), 0nat,
    {
        let ghost layouts = layouts_of(shapes@);
        let ghost whole = parse_fields(layouts, old(self)@, 0);
        let ghost used: nat = 0;
        let mut values: Vec<Value> = Vec::new();
        let mut at: usize = 0;
        proof {
            assert(self@ =~= old(self)@.skip(0));
            assert(data_of(values@) + whole.outcome->Ok_0 =~= whole.outcome->Ok_0);
        }
        while at < shapes.len()
            invariant
                at <= shapes.len(),
                layouts == layouts_of(shapes@),
                whole == parse_fields(layouts, old(self)@, 0),
                used <= old(self)@.len(),
                self@ == old(self)@.skip(used as int),
                whole.used == used + parse_fields(layouts, self@, at as nat).used,
                whole.outcome == match parse_fields(layouts, self@, at as nat).outcome {
                    Ok(data) => Ok::<Seq<Datum>, Fault>(data_of(values@) + data),
                    Err(fault) => Err(fault),
                },
            decreases shapes.len() - at,
        {
            let ghost held = data_of(values@);
            let ghost head = layouts[at as int].parse(self@);
            let outcome = self.deserialize_value(&shapes[at]);
            assert(self@ =~= old(self)@.skip((used + head.used) as int));
            match outcome {
                Err(error) => {
                    return Err(error);
                },
                Ok(value) => {
                    values.push(value);
                    proof {
                        let tail = parse_fields(layouts, self@, (at + 1) as nat);
                        assert(data_of(values@) =~= held.push(value@));
                        if tail.outcome is Ok {
                            let data = tail.outcome->Ok_0;
                            assert(held + (seq![value@] + data) =~= held.push(value@) + data);
                        }
                        used = used + head.used;
                    }
                },
            }
            at = at + 1;
        }
        assert(data_of(values@) + Seq::<Datum>::empty() =~= data_of(values@));
        Ok(values)
    }
}

/// Reads one value of the declared `shape` where `input` stands and moves
/// `input` behind what was read.
pub fn deserialize_from<'a>(input: &mut Cursor<'a>, shape: &Shape) -> (outcome: Result<
    Value,
    Error,
>)
    ensures
        reads(old(input)@, final(input)@, outcome, shape@.parse(old(input)@)),
{
    let mut deserializer = Deserializer::from_cursor(*input);
    let outcome = deserializer.deserialize_value(shape);
    *input = deserializer.into_cursor();
    outcome
}

/// The first `row_count` rows of `buffer`, each of the declared `shape`.
/// Bytes after the last row are ignored. One row that fails fails the whole
/// call, and the rows before it are dropped.
pub fn decode_rows(buffer: &[u8], row_count: u64, shape: &Shape) -> (outcome: Result<
    Vec<Value>,
    Error,
>)
    ensures
        match shape@.parse_many(buffer@, row_count as nat).outcome {
            Ok(data) => outcome is Ok && data_of(outcome->Ok_0@) == data,
            Err(fault) => fails_with(outcome, fault),
        },
{
    let mut deserializer = Deserializer::new(buffer);
    deserializer.deserialize_many(shape, row_count)
}

} // verus!
