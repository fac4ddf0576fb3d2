//! The format of whole values, as mathematics: what the bytes of a datum
//! are, and what reading a layout from the front of a byte sequence gives.

use crate::error::Fault;
use crate::rowbinary::text::utf8_lossy;
use crate::rowbinary::value::{Datum, Layout, TextPolicy};
use crate::rowbinary::wire::{
    bool_encoding, le_bytes, le_value, parse_bool, parse_varuint, varuint_bytes, Parsed, Scalar,
};
use vstd::prelude::*;
use vstd::utf8::{decode_utf8, encode_utf8, valid_utf8};

verus! {

/// What writing a datum gives: the bytes that were written, and the failure
/// that stopped the writing, if one did. A writer does not take back what it
/// wrote before it failed.
pub struct Emitted {
    pub bytes: Seq<u8>,
    pub fault: Option<Fault>,
}

/// One more than the largest length or count that a prefix can announce.
pub open spec fn length_limit() -> nat {
    0x1_0000_0000_0000_0000
}

/// Bytes of the discriminator of an enum that declares `declared` variants.
pub open spec fn tag_width(declared: nat) -> nat {
    if declared <= 0x100 {
        1
    } else if declared <= 0x1_0000 {
        2
    } else if declared <= 0x1_0000_0000 {
        4
    } else {
        8
    }
}

/// `head`, then what `tail` wrote.
pub open spec fn emitted_after(head: Seq<u8>, tail: Emitted) -> Emitted {
    Emitted { bytes: head + tail.bytes, fault: tail.fault }
}

/// A string on the wire: the length of the payload, then the payload.
pub open spec fn string_encoding(payload: Seq<u8>) -> Seq<u8> {
    varuint_bytes(payload.len()) + payload
}

/// Reads a string: the length, then that many bytes. A length beyond what is
/// left is `NotEnoughData`, with the prefix passed over.
pub open spec fn parse_string(bytes: Seq<u8>) -> Parsed<Seq<u8>> {
    let prefix = parse_varuint(bytes);
    match prefix.outcome {
        Err(fault) => Parsed { used: prefix.used, outcome: Err(fault) },
        Ok(length) => if length > bytes.len() - prefix.used {
            Parsed { used: prefix.used, outcome: Err(Fault::NotEnoughData) }
        } else {
            Parsed {
                used: prefix.used + length,
                outcome: Ok(bytes.subrange(prefix.used as int, (prefix.used + length) as int)),
            }
        },
    }
}

/// Reads the discriminator of an enum that declares `declared` variants. A
/// number with no variant is `VariantDiscriminatorIsOutOfBound` of that
/// number, with the discriminator passed over.
pub open spec fn parse_variant(bytes: Seq<u8>, declared: nat) -> Parsed<nat> {
    let width = tag_width(declared);
    if bytes.len() < width {
        Parsed { used: 0, outcome: Err(Fault::NotEnoughData) }
    } else {
        let index = le_value(bytes.take(width as int));
        Parsed {
            used: width,
            outcome: if index < declared {
                Ok(index)
            } else {
                Err(Fault::VariantDiscriminatorIsOutOfBound(index))
            },
        }
    }
}

/// Reads the flag of a nullable value: whether a value follows. `0` says
/// that one does, `1` that none does; any other byte is `InvalidTagEncoding`
/// of that byte.
pub open spec fn parse_presence(bytes: Seq<u8>) -> Parsed<bool> {
    if bytes.len() == 0 {
        Parsed { used: 0, outcome: Err(Fault::NotEnoughData) }
    } else {
        Parsed {
            used: 1,
            outcome: if bytes[0] == 0 {
                Ok(true)
            } else if bytes[0] == 1 {
                Ok(false)
            } else {
                Err(Fault::InvalidTagEncoding(bytes[0] as nat))
            },
        }
    }
}

/// The text that a policy makes of a payload. Well-formed UTF-8 is the text
/// that it encodes under either policy; of anything else the strict policy
/// makes a failure and the lossy one a text with replacement characters.
pub open spec fn text_of(policy: TextPolicy, payload: Seq<u8>) -> Result<Seq<char>, Fault> {
    if valid_utf8(payload) {
        Ok(decode_utf8(payload))
    } else {
        match policy {
            TextPolicy::Strict => Err(Fault::InvalidUtf8Sequence),
            TextPolicy::Lossy => Ok(utf8_lossy(payload)),
        }
    }
}

impl Datum {
    /// The bytes of this datum on the wire. The only failure is an enum whose
    /// variant number is not below the number of variants that it declares.
    pub open spec fn emit(self) -> Emitted
        decreases self, 0nat,
    {
        match self {
            Datum::Scalar(kind, value) => Emitted { bytes: kind.encoding(value), fault: None },
            Datum::Bool(value) => Emitted { bytes: bool_encoding(value), fault: None },
            Datum::Text(chars) => Emitted {
                bytes: string_encoding(encode_utf8(chars)),
                fault: None,
            },
            Datum::Bytes(payload) => Emitted { bytes: string_encoding(payload), fault: None },
            Datum::Nullable(None) => Emitted { bytes: seq![1u8], fault: None },
            Datum::Nullable(Some(present)) => emitted_after(seq![0u8], present.emit()),
            Datum::Array(items) => emitted_after(varuint_bytes(items.len()), emit_all(items, 0)),
            Datum::Tuple(fields) => emit_all(fields, 0),
            Datum::Enum { declared, index, payload } => if index >= declared {
                Emitted {
                    bytes: Seq::empty(),
                    fault: Some(Fault::VariantDiscriminatorIsOutOfBound(index)),
                }
            } else {
                emitted_after(le_bytes(index, tag_width(declared)), payload.emit())
            },
        }
    }

    /// Whether this datum is a value of `layout` that the format can carry:
    /// numbers within their kind, lengths and counts within 64 bits, an enum
    /// that declares the layout's variants and holds one of them.
    pub open spec fn fits(self, layout: Layout) -> bool
        decreases self,
    {
        match (self, layout) {
            (Datum::Scalar(kind, value), Layout::Scalar(declared)) => kind == declared
                && kind.holds(value),
            (Datum::Bool(_), Layout::Bool) => true,
            (Datum::Text(chars), Layout::Text(_)) => encode_utf8(chars).len() < length_limit(),
            (Datum::Bytes(payload), Layout::Bytes) => payload.len() < length_limit(),
            (Datum::Nullable(None), Layout::Nullable(_)) => true,
            (Datum::Nullable(Some(present)), Layout::Nullable(inner)) => present.fits(*inner),
            (Datum::Array(items), Layout::Array(item)) => items.len() < length_limit()
                && forall|i: int| 0 <= i < items.len() ==> (#[trigger] items[i]).fits(*item),
            (Datum::Tuple(fields), Layout::Tuple(layouts)) => fields.len() == layouts.len()
                && forall|i: int|
                0 <= i < fields.len() ==> (#[trigger] fields[i]).fits(layouts[i]),
            (Datum::Enum { declared, index, payload }, Layout::Enum(variants)) => declared
                == variants.len() && index < declared && declared <= length_limit()
                && payload.fits(variants[index as int]),
            _ => false,
        }
    }
}

/// The bytes of `items[from..]`, one after the other, up to the first that
/// fails.
pub open spec fn emit_all(items: Seq<Datum>, from: nat) -> Emitted
    decreases items, items.len() - from,
{
    if from >= items.len() {
        Emitted { bytes: Seq::empty(), fault: None }
    } else {
        let head = items[from as int].emit();
        if head.fault is Some {
            head
        } else {
            emitted_after(head.bytes, emit_all(items, from + 1))
        }
    }
}

/// Reads one number of the given kind.
pub open spec fn parse_number(kind: Scalar, bytes: Seq<u8>) -> Parsed<Datum> {
    let number = kind.parse(bytes);
    Parsed {
        used: number.used,
        outcome: match number.outcome {
            Ok(value) => Ok(Datum::Scalar(kind, value)),
            Err(fault) => Err(fault),
        },
    }
}

/// Reads one boolean.
pub open spec fn parse_truth(bytes: Seq<u8>) -> Parsed<Datum> {
    let flag = parse_bool(bytes);
    Parsed {
        used: flag.used,
        outcome: match flag.outcome {
            Ok(value) => Ok(Datum::Bool(value)),
            Err(fault) => Err(fault),
        },
    }
}

/// Reads one string as text under `policy`. Whether the payload is well
/// formed is looked at after the payload has been passed over.
pub open spec fn parse_text(policy: TextPolicy, bytes: Seq<u8>) -> Parsed<Datum> {
    let string = parse_string(bytes);
    Parsed {
        used: string.used,
        outcome: match string.outcome {
            Ok(payload) => match text_of(policy, payload) {
                Ok(chars) => Ok(Datum::Text(chars)),
                Err(fault) => Err(fault),
            },
            Err(fault) => Err(fault),
        },
    }
}

/// Reads one string as its payload.
pub open spec fn parse_blob(bytes: Seq<u8>) -> Parsed<Datum> {
    let string = parse_string(bytes);
    Parsed {
        used: string.used,
        outcome: match string.outcome {
            Ok(payload) => Ok(Datum::Bytes(payload)),
            Err(fault) => Err(fault),
        },
    }
}

/// Reads one nullable value: the flag, then a value of layout `inner` if
/// the flag announces one.
pub open spec fn parse_nullable(inner: Layout, bytes: Seq<u8>) -> Parsed<Datum>
    decreases inner, 1nat, 0nat,
{
    let flag = parse_presence(bytes);
    match flag.outcome {
        Err(fault) => Parsed { used: flag.used, outcome: Err(fault) },
        Ok(false) => Parsed { used: flag.used, outcome: Ok(Datum::Nullable(None)) },
        Ok(true) => {
            let present = inner.parse(bytes.skip(flag.used as int));
            Parsed {
                used: flag.used + present.used,
                outcome: match present.outcome {
                    Ok(datum) => Ok(Datum::Nullable(Some(Box::new(datum)))),
                    Err(fault) => Err(fault),
                },
            }
        },
    }
}

/// Reads one array: the count, then that many values of layout `item`.
pub open spec fn parse_array(item: Layout, bytes: Seq<u8>) -> Parsed<Datum>
    decreases item, 2nat, 0nat,
{
    let prefix = parse_varuint(bytes);
    match prefix.outcome {
        Err(fault) => Parsed { used: prefix.used, outcome: Err(fault) },
        Ok(count) => {
            let items = item.parse_many(bytes.skip(prefix.used as int), count);
            Parsed {
                used: prefix.used + items.used,
                outcome: match items.outcome {
                    Ok(data) => Ok(Datum::Array(data)),
                    Err(fault) => Err(fault),
                },
            }
        },
    }
}

/// Reads one struct or tuple: a value for each of `layouts`, in order.
pub open spec fn parse_tuple(layouts: Seq<Layout>, bytes: Seq<u8>) -> Parsed<Datum>
    decreases layouts, layouts.len() + 1, 0nat,
{
    let fields = parse_fields(layouts, bytes, 0);
    Parsed {
        used: fields.used,
        outcome: match fields.outcome {
            Ok(data) => Ok(Datum::Tuple(data)),
            Err(fault) => Err(fault),
        },
    }
}

/// Reads one enum: the discriminator, then the payload of the variant that
/// it names among `variants`.
pub open spec fn parse_enum(variants: Seq<Layout>, bytes: Seq<u8>) -> Parsed<Datum>
    decreases variants, 0nat, 0nat,
{
    let tag = parse_variant(bytes, variants.len());
    match tag.outcome {
        Err(fault) => Parsed { used: tag.used, outcome: Err(fault) },
        Ok(index) => {
            let payload = variants[index as int].parse(bytes.skip(tag.used as int));
            Parsed {
                used: tag.used + payload.used,
                outcome: match payload.outcome {
                    Ok(datum) => Ok(
                        Datum::Enum { declared: variants.len(), index, payload: Box::new(datum) },
                    ),
                    Err(fault) => Err(fault),
                },
            }
        },
    }
}

impl Layout {
    /// Reads one datum of this layout from the front of `bytes`.
    pub open spec fn parse(self, bytes: Seq<u8>) -> Parsed<Datum>
        decreases self, 0nat, 0nat,
    {
        match self {
            Layout::Scalar(kind) => parse_number(kind, bytes),
            Layout::Bool => parse_truth(bytes),
            Layout::Text(policy) => parse_text(policy, bytes),
            Layout::Bytes => parse_blob(bytes),
            Layout::Nullable(inner) => parse_nullable(*inner, bytes),
            Layout::Array(item) => parse_array(*item, bytes),
            Layout::Tuple(fields) => parse_tuple(fields, bytes),
            Layout::Enum(variants) => parse_enum(variants, bytes),
        }
    }

    /// Reads `count` data of this layout, one after the other, and stops at
    /// the first that fails. What follows the last one is not looked at.
    pub open spec fn parse_many(self, bytes: Seq<u8>, count: nat) -> Parsed<Seq<Datum>>
        decreases self, 1nat, count,
    {
        if count == 0 {
            Parsed { used: 0, outcome: Ok(Seq::empty()) }
        } else {
            let head = self.parse(bytes);
            match head.outcome {
                Err(fault) => Parsed { used: head.used, outcome: Err(fault) },
                Ok(datum) => {
                    let tail = self.parse_many(bytes.skip(head.used as int), (count - 1) as nat);
                    Parsed {
                        used: head.used + tail.used,
                        outcome: match tail.outcome {
                            Ok(data) => Ok(seq![datum] + data),
                            Err(fault) => Err(fault),
                        },
                    }
                },
            }
        }
    }
}

/// Reads one datum for each of `layouts[from..]`, in order, and stops at the
/// first that fails.
pub open spec fn parse_fields(layouts: Seq<Layout>, bytes: Seq<u8>, from: nat) -> Parsed<
    Seq<Datum>,
>
    decreases layouts, layouts.len() - from, 0nat,
{
    if from >= layouts.len() {
        Parsed { used: 0, outcome: Ok(Seq::empty()) }
    } else {
        let head = layouts[from as int].parse(bytes);
        match head.outcome {
            Err(fault) => Parsed { used: head.used, outcome: Err(fault) },
            Ok(datum) => {
                let tail = parse_fields(layouts, bytes.skip(head.used as int), from + 1);
                Parsed {
                    used: head.used + tail.used,
                    outcome: match tail.outcome {
                        Ok(data) => Ok(seq![datum] + data),
                        Err(fault) => Err(fault),
                    },
                }
            },
        }
    }
}

} // verus!
