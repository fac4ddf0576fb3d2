//! Writing: the serializer that turns values into bytes.

use crate::error::{fails_with, Error, Fault};
use crate::rowbinary::model::{emit_all, emitted_after, string_encoding, tag_width};
use crate::rowbinary::value::{data_of, Value};
use crate::rowbinary::wire::{
    bool_encoding, le_bytes, lemma_radix_values, varuint_bytes, Scalar,
};
use vstd::prelude::*;
use vstd::string::StringSliceAdditionalSpecFns;

verus! {

/// Collects the bytes of what is written to it, in order.
pub struct Serializer {
    buffer: Vec<u8>,
}

impl View for Serializer {
    type V = Seq<u8>;

    /// The bytes written so far.
    closed spec fn view(&self) -> Seq<u8> {
        self.buffer@
    }
}

impl Serializer {
    /// A serializer that has written nothing.
    pub fn new() -> (serializer: Self)
        ensures
            serializer@ == Seq::<u8>::empty(),
    {
        Serializer { buffer: Vec::new() }
    }

    /// The bytes written, handed over.
    pub fn into_bytes(self) -> (bytes: Vec<u8>)
        ensures
            bytes@ == self@,
    {
        self.buffer
    }

    /// Writes the low `width` bytes of `raw`, least significant first.
    fn put_fixed(&mut self, raw: u64, width: usize)
        requires
            width <= 8,
        ensures
            final(self)@ == old(self)@ + le_bytes(raw as nat, width as nat),
    {
        let mut rest: u64 = raw;
        let mut done: usize = 0;
        while done < width
            invariant
                done <= width <= 8,
                old(self)@ + le_bytes(raw as nat, width as nat) == self@ + le_bytes(
                    rest as nat,
                    (width - done) as nat,
                ),
            decreases width - done,
        {
            let ghost before = self@;
            let low: u8 = (rest % 256) as u8;
            self.buffer.push(low);
            proof {
                let tail = le_bytes((rest / 256) as nat, (width - done - 1) as nat);
                assert(before + (seq![low] + tail) =~= before.push(low) + tail);
            }
            rest = rest / 256;
            done = done + 1;
        }
        assert(self@ + le_bytes(rest as nat, 0) =~= self@);
    }

    pub fn serialize_u8(&mut self, value: u8)
        ensures
            final(self)@ == old(self)@ + Scalar::UInt8.encoding(value as int),
    {
        self.put_fixed(value as u64, 1)
    }

    pub fn serialize_u16(&mut self, value: u16)
        ensures
            final(self)@ == old(self)@ + Scalar::UInt16.encoding(value as int),
    {
        self.put_fixed(value as u64, 2)
    }

    pub fn serialize_u32(&mut self, value: u32)
        ensures
            final(self)@ == old(self)@ + Scalar::UInt32.encoding(value as int),
    {
        self.put_fixed(value as u64, 4)
    }

    pub fn serialize_u64(&mut self, value: u64)
        ensures
            final(self)@ == old(self)@ + Scalar::UInt64.encoding(value as int),
    {
        self.put_fixed(value, 8)
    }

    pub fn serialize_i8(&mut self, value: i8)
        ensures
            final(self)@ == old(self)@ + Scalar::Int8.encoding(value as int),
    {
        proof {
            lemma_radix_values();
        }
        let raw: u64 = if value >= 0 {
            value as u64
        } else {
            (value as i64 + 0x100) as u64
        };
        self.put_fixed(raw, 1)
    }

    pub fn serialize_i16(&mut self, value: i16)
        ensures
            final(self)@ == old(self)@ + Scalar::Int16.encoding(value as int),
    {
        proof {
            lemma_radix_values();
        }
        let raw: u64 = if value >= 0 {
            value as u64
        } else {
            (value as i64 + 0x1_0000) as u64
        };
        self.put_fixed(raw, 2)
    }

    pub fn serialize_i32(&mut self, value: i32)
        ensures
            final(self)@ == old(self)@ + Scalar::Int32.encoding(value as int),
    {
        proof {
            lemma_radix_values();
        }
        let raw: u64 = if value >= 0 {
            value as u64
        } else {
            (value as i64 + 0x1_0000_0000) as u64
        };
        self.put_fixed(raw, 4)
    }

    pub fn serialize_i64(&mut self, value: i64)
        ensures
            final(self)@ == old(self)@ + Scalar::Int64.encoding(value as int),
    {
        proof {
            lemma_radix_values();
        }
        let raw: u64 = if value >= 0 {
            value as u64
        } else {
            ((value - i64::MIN) as u64) + 0x8000_0000_0000_0000
        };
        self.put_fixed(raw, 8)
    }

    /// Writes a 32-bit float, given as its IEEE-754 bit pattern.
    pub fn serialize_f32(&mut self, bits: u32)
        ensures
            final(self)@ == old(self)@ + Scalar::Float32.encoding(bits as int),
    {
        self.put_fixed(bits as u64, 4)
    }

    /// Writes a 64-bit float, given as its IEEE-754 bit pattern.
    pub fn serialize_f64(&mut self, bits: u64)
        ensures
            final(self)@ == old(self)@ + Scalar::Float64.encoding(bits as int),
    {
        self.put_fixed(bits, 8)
    }

    pub fn serialize_bool(&mut self, value: bool)
        ensures
            final(self)@ == old(self)@ + bool_encoding(value),
    {
        let ghost before = self@;
        let byte: u8 = if value {
            1
        } else {
            0
        };
        self.buffer.push(byte);
        assert(self@ =~= before + bool_encoding(value));
    }

    /// Writes a length or a count in the variable-length encoding.
    pub fn serialize_length(&mut self, length: u64)
        ensures
            final(self)@ == old(self)@ + varuint_bytes(length as nat),
    {
        let mut rest: u64 = length;
        while rest >= 128
            invariant
                old(self)@ + varuint_bytes(length as nat) == self@ + varuint_bytes(rest as nat),
            decreases rest,
        {
            let ghost before = self@;
            let group: u8 = (128 + rest % 128) as u8;
            self.buffer.push(group);
            proof {
                let tail = varuint_bytes((rest / 128) as nat);
                assert(before + (seq![group] + tail) =~= before.push(group) + tail);
            }
            rest = rest / 128;
        }
        let ghost before = self@;
        self.buffer.push(rest as u8);
        assert(before + seq![rest as u8] =~= before.push(rest as u8));
    }

    /// Writes a string: the number of payload bytes, then the payload.
    pub fn serialize_bytes(&mut self, payload: &[u8])
        ensures
            final(self)@ == old(self)@ + string_encoding(payload@),
    {
        let ghost before = self@;
        self.serialize_length(payload.len() as u64);
        self.buffer.extend_from_slice(payload);
        assert(self@ =~= before + string_encoding(payload@));
    }

    /// Writes a text as a string of its UTF-8 bytes.
    pub fn serialize_str(&mut self, text: &str)
        ensures
            final(self)@ == old(self)@ + string_encoding(text.spec_bytes()),
    {
        self.serialize_bytes(text.as_bytes())
    }

    /// Writes the flag of an absent nullable value. Nothing follows it.
    pub fn serialize_none(&mut self)
        ensures
            final(self)@ == old(self)@ + seq![1u8],
    {
        let ghost before = self@;
        self.buffer.push(1);
        assert(self@ =~= before + seq![1u8]);
    }

    /// Writes the flag of a present nullable value. The value follows.
    pub fn serialize_some(&mut self)
        ensures
            final(self)@ == old(self)@ + seq![0u8],
    {
        let ghost before = self@;
        self.buffer.push(0);
        assert(self@ =~= before + seq![0u8]);
    }

    /// Opens a sequence by writing its element count. The count has to be
    /// known before the first element: without one nothing is written and
    /// the sequence is refused.
    pub fn serialize_seq(&mut self, length: Option<usize>) -> (outcome: Result<(), Error>)
        ensures
            match length {
                Some(count) => outcome is Ok && final(self)@ == old(self)@ + varuint_bytes(
                    count as nat,
                ),
                None => outcome is Err && outcome->Err_0@ == Fault::SequenceMustHaveLength
                    && final(self)@ == old(self)@,
            },
    {
        match length {
            Some(count) => {
                self.serialize_length(count as u64);
                Ok(())
            },
            None => Err(Error::SequenceMustHaveLength),
        }
    }

    /// Writes the discriminator of variant number `index` of an enum that
    /// declares `declared` variants. A number that is not below `declared`
    /// is refused and nothing is written.
    pub fn serialize_variant(&mut self, declared: usize, index: usize) -> (outcome: Result<
        (),
        Error,
    >)
        ensures
            index < declared ==> outcome is Ok && final(self)@ == old(self)@ + le_bytes(
                index as nat,
                tag_width(declared as nat),
            ),
            index >= declared ==> outcome is Err && outcome->Err_0@
                == Fault::VariantDiscriminatorIsOutOfBound(index as nat) && final(self)@ == old(
                self,
            )@,
    {
        if index >= declared {
            return Err(Error::VariantDiscriminatorIsOutOfBound(index));
        }
        let width: usize = if declared <= 0x100 {
            1
        } else if declared <= 0x1_0000 {
            2
        } else if declared as u64 <= 0x1_0000_0000 {
            4
        } else {
            8
        };
        self.put_fixed(index as u64, width);
        Ok(())
    }

    /// Writes a whole value: its own bytes, then those of what it holds, in
    /// declared order. Writing stops at the first enum whose variant number
    /// is out of bounds; what was written before it stays written.
    pub fn serialize_value(&mut self, value: &Value) -> (outcome: Result<(), Error>)
        ensures
            final(self)@ == old(self)@ + value@.emit().bytes,
            match value@.emit().fault {
                None => outcome is Ok,
                Some(fault) => fails_with(outcome, fault),
            },
        decreases value, 0nat,
    {
        let ghost before = self@;
        match value {
            Value::UInt8(number) => {
                self.serialize_u8(*number);
                Ok(())
            },
            Value::UInt16(number) => {
                self.serialize_u16(*number);
                Ok(())
            },
            Value::UInt32(number) => {
                self.serialize_u32(*number);
                Ok(())
            },
            Value::UInt64(number) => {
                self.serialize_u64(*number);
                Ok(())
            },
            Value::Int8(number) => {
                self.serialize_i8(*number);
                Ok(())
            },
            Value::Int16(number) => {
                self.serialize_i16(*number);
                Ok(())
            },
            Value::Int32(number) => {
                self.serialize_i32(*number);
                Ok(())
            },
            Value::Int64(number) => {
                self.serialize_i64(*number);
                Ok(())
            },
            Value::Float32(bits) => {
                self.serialize_f32(*bits);
                Ok(())
            },
            Value::Float64(bits) => {
                self.serialize_f64(*bits);
                Ok(())
            },
            Value::Bool(flag) => {
                self.serialize_bool(*flag);
                Ok(())
            },
            Value::Text(text) => {
                self.serialize_str(text.as_str());
                Ok(())
            },
            Value::Bytes(payload) => {
                self.serialize_bytes(payload.as_slice());
                Ok(())
            },
            Value::Nullable(None) => {
                self.serialize_none();
                Ok(())
            },
            Value::Nullable(Some(present)) => {
                self.serialize_some();
                let outcome = self.serialize_value(present);
                assert(self@ =~= before + (seq![0u8] + present@.emit().bytes));
                outcome
            },
            Value::Array(items) => {
                self.serialize_length(items.len() as u64);
                let outcome = self.serialize_all(items);
                assert(self@ =~= before + (varuint_bytes(items@.len()) + emit_all(
                    data_of(items@),
                    0,
                ).bytes));
                outcome
            },
            Value::Tuple(fields) => self.serialize_all(fields),
            Value::Enum { declared, index, payload } => {
                match self.serialize_variant(*declared, *index) {
                    Err(error) => {
                        assert(self@ =~= before + Seq::<u8>::empty());
                        Err(error)
                    },
                    Ok(()) => {
                        let outcome = self.serialize_value(payload);
                        assert(self@ =~= before + (le_bytes(
                            *index as nat,
                            tag_width(*declared as nat),
                        ) + payload@.emit().bytes));
                        outcome
                    },
                }
            },
        }
    }

    /// Writes `values` one after the other and stops at the first that
    /// fails.
    fn serialize_all(&mut self, values: &Vec<Value>) -> (outcome: Result<(), Error>)
        ensures
            final(self)@ == old(self)@ + emit_all(data_of(values@), 0).bytes,
            match emit_all(data_of(values@), 0).fault {
                None => outcome is Ok,
                Some(fault) => fails_with(outcome, fault),
            },
        decreases values, 1nat,
    {
        let ghost data = data_of(values@);
        let ghost written = Seq::<u8>::empty();
        let mut at: usize = 0;
        assert(self@ =~= old(self)@ + written);
        assert(emitted_after(written, emit_all(data, 0)) =~= emit_all(data, 0)) by {
            assert(written + emit_all(data, 0).bytes =~= emit_all(data, 0).bytes);
        }
        while at < values.len()
            invariant
                at <= values.len(),
                data == data_of(values@),
                self@ == old(self)@ + written,
                emit_all(data, 0) == emitted_after(written, emit_all(data, at as nat)),
            decreases values.len() - at,
        {
            let ghost head = data[at as int].emit();
            let ghost start = self@;
            let outcome = self.serialize_value(&values[at]);
            proof {
                assert(self@ =~= old(self)@ + (written + head.bytes));
                if head.fault is None {
                    let tail = emit_all(data, (at + 1) as nat);
                    assert(written + (head.bytes + tail.bytes) =~= (written + head.bytes)
                        + tail.bytes);
                }
                written = written + head.bytes;
            }
            match outcome {
                Err(error) => {
                    return Err(error);
                },
                Ok(()) => {},
            }
            at = at + 1;
        }
        assert(self@ =~= old(self)@ + (written + Seq::<u8>::empty()));
        Ok(())
    }
}

/// Appends the bytes of `value` to `buffer`. Where writing fails, what was
/// written before the failure has been appended.
pub fn serialize_into(buffer: &mut Vec<u8>, value: &Value) -> (outcome: Result<(), Error>)
    ensures
        final(buffer)@ == old(buffer)@ + value@.emit().bytes,
        match value@.emit().fault {
            None => outcome is Ok,
            Some(fault) => fails_with(outcome, fault),
        },
{
    let mut serializer = Serializer::new();
    let outcome = serializer.serialize_value(value);
    let mut written = serializer.into_bytes();
    assert(written@ =~= value@.emit().bytes);
    buffer.append(&mut written);
    outcome
}

/// The bytes of `value`, or the failure that stopped the writing.
pub fn encode_value(value: &Value) -> (outcome: Result<Vec<u8>, Error>)
    ensures
        match value@.emit().fault {
            None => outcome is Ok && outcome->Ok_0@ == value@.emit().bytes,
            Some(fault) => fails_with(outcome, fault),
        },
{
    let mut serializer = Serializer::new();
    match serializer.serialize_value(value) {
        Ok(()) => {
            let bytes = serializer.into_bytes();
            assert(bytes@ =~= value@.emit().bytes);
            Ok(bytes)
        },
        Err(error) => Err(error),
    }
}

} // verus!
