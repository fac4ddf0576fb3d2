//! What holds of the format as a whole: writing and reading are inverse to
//! each other, a reader never goes past what belongs to the value, and a
//! value cut short is never mistaken for a whole one.

use crate::error::Fault;
use crate::rowbinary::model::{
    emit_all, length_limit, parse_enum, parse_fields, parse_presence, parse_string,
    parse_variant, string_encoding, tag_width,
};
use crate::rowbinary::value::{Datum, Layout};
use crate::rowbinary::wire::{
    le_bytes, le_value, lemma_le_bytes_len, lemma_le_value_of_le_bytes, lemma_radix_values,
    lemma_scalar_round_trip, lemma_varuint_limit_values, lemma_varuint_scan_bound,
    lemma_varuint_scan_ignores_rest, lemma_varuint_scan_of_bytes, lemma_varuint_scan_truncated,
    parse_varuint, varuint_bytes, Parsed,
};
use vstd::prelude::*;
use vstd::utf8::{encode_utf8, encode_utf8_decode_utf8, encode_utf8_valid_utf8};

verus! {

/// A string that is read back takes exactly its prefix and its payload from
/// the input, whatever follows, and the payload comes back as it was. The
/// prefix is `varuint_bytes` of the length, the shortest spelling there is.
pub proof fn lemma_string_round_trip(payload: Seq<u8>, rest: Seq<u8>)
    requires
        payload.len() < length_limit(),
    ensures
        parse_string(string_encoding(payload) + rest) == (Parsed {
            used: varuint_bytes(payload.len()).len() + payload.len(),
            outcome: Ok(payload),
        }),
{
    let prefix = varuint_bytes(payload.len());
    let bytes = string_encoding(payload) + rest;
    lemma_varuint_limit_values();
    lemma_varuint_scan_of_bytes(payload.len(), 0, payload + rest);
    assert(bytes =~= prefix + (payload + rest));
    assert(bytes.subrange(prefix.len() as int, (prefix.len() + payload.len()) as int)
        =~= payload);
}

/// A string cut short anywhere, in its prefix or in its payload, is
/// `NotEnoughData`.
pub proof fn lemma_string_truncated(payload: Seq<u8>, cut: int)
    requires
        payload.len() < length_limit(),
        0 <= cut < string_encoding(payload).len(),
    ensures
        parse_string(string_encoding(payload).take(cut)).outcome == Err::<Seq<u8>, Fault>(
            Fault::NotEnoughData,
        ),
{
    let prefix = varuint_bytes(payload.len());
    let short = string_encoding(payload).take(cut);
    lemma_varuint_limit_values();
    if cut < prefix.len() {
        lemma_varuint_scan_truncated(payload.len(), 0, cut);
        assert(short =~= prefix.take(cut));
    } else {
        let kept = payload.take(cut - prefix.len());
        lemma_varuint_scan_of_bytes(payload.len(), 0, kept);
        assert(short =~= prefix + kept);
    }
}

/// A discriminator that is read back is the variant number that was
/// written.
pub proof fn lemma_variant_round_trip(declared: nat, index: nat, rest: Seq<u8>)
    requires
        index < declared <= length_limit(),
    ensures
        le_bytes(index, tag_width(declared)).len() == tag_width(declared),
        parse_variant(le_bytes(index, tag_width(declared)) + rest, declared) == (Parsed {
            used: tag_width(declared),
            outcome: Ok(index),
        }),
{
    let width = tag_width(declared);
    let tag = le_bytes(index, width);
    lemma_radix_values();
    lemma_le_bytes_len(index, width);
    lemma_le_value_of_le_bytes(index, width);
    assert((tag + rest).take(width as int) =~= tag);
}

/// Round trip: a datum that fits a layout is written without failure, and
/// reading that layout from what was written gives the datum back. Exactly
/// the bytes that were written are passed over: whatever follows them in
/// the input is ignored.
pub proof fn lemma_round_trip(datum: Datum, layout: Layout, rest: Seq<u8>)
    requires
        datum.fits(layout),
    ensures
        datum.emit().fault is None,
        layout.parse(datum.emit().bytes + rest) == (Parsed {
            used: datum.emit().bytes.len(),
            outcome: Ok(datum),
        }),
    decreases datum, 0nat,
{
    let bytes = datum.emit().bytes;
    match (datum, layout) {
        (Datum::Scalar(kind, value), Layout::Scalar(_)) => {
            lemma_scalar_round_trip(kind, value, rest);
        },
        (Datum::Bool(value), Layout::Bool) => {
            assert((bytes + rest)[0] == bytes[0]);
        },
        (Datum::Text(chars), Layout::Text(policy)) => {
            encode_utf8_valid_utf8(chars);
            encode_utf8_decode_utf8(chars);
            lemma_string_round_trip(encode_utf8(chars), rest);
        },
        (Datum::Bytes(payload), Layout::Bytes) => {
            lemma_string_round_trip(payload, rest);
        },
        (Datum::Nullable(None), Layout::Nullable(_)) => {
            assert((bytes + rest)[0] == 1);
        },
        (Datum::Nullable(Some(present)), Layout::Nullable(inner)) => {
            lemma_round_trip(*present, *inner, rest);
            assert((bytes + rest)[0] == 0);
            assert((bytes + rest).skip(1) =~= present.emit().bytes + rest);
        },
        (Datum::Array(items), Layout::Array(item)) => {
            let body = emit_all(items, 0).bytes;
            lemma_round_trip_items(items, *item, 0, rest);
            lemma_varuint_limit_values();
            lemma_varuint_scan_of_bytes(items.len(), 0, body + rest);
            let prefix = varuint_bytes(items.len());
            assert(bytes + rest =~= prefix + (body + rest));
            assert((bytes + rest).skip(prefix.len() as int) =~= body + rest);
            assert(items.skip(0) =~= items);
        },
        (Datum::Tuple(fields), Layout::Tuple(layouts)) => {
            lemma_round_trip_fields(fields, layouts, 0, rest);
            assert(fields.skip(0) =~= fields);
        },
        (Datum::Enum { declared, index, payload }, Layout::Enum(variants)) => {
            let body = payload.emit().bytes;
            let tag = le_bytes(index, tag_width(declared));
            lemma_round_trip(*payload, variants[index as int], rest);
            lemma_variant_round_trip(declared, index, body + rest);
            assert(bytes + rest =~= tag + (body + rest));
            assert((bytes + rest).skip(tag.len() as int) =~= body + rest);
        },
        _ => {},
    }
}

/// Round trip of the elements of an array from number `from` on.
pub proof fn lemma_round_trip_items(items: Seq<Datum>, item: Layout, from: nat, rest: Seq<u8>)
    requires
        from <= items.len(),
        forall|i: int| 0 <= i < items.len() ==> (#[trigger] items[i]).fits(item),
    ensures
        emit_all(items, from).fault is None,
        item.parse_many(emit_all(items, from).bytes + rest, (items.len() - from) as nat) == (Parsed {
            used: emit_all(items, from).bytes.len(),
            outcome: Ok(items.skip(from as int)),
        }),
    decreases items, items.len() - from,
{
    let bytes = emit_all(items, from).bytes;
    if from < items.len() {
        let head = items[from as int].emit().bytes;
        let tail = emit_all(items, from + 1).bytes;
        lemma_round_trip(items[from as int], item, tail + rest);
        lemma_round_trip_items(items, item, from + 1, rest);
        assert(bytes + rest =~= head + (tail + rest));
        assert((bytes + rest).skip(head.len() as int) =~= tail + rest);
        assert(seq![items[from as int]] + items.skip(from + 1 as int) =~= items.skip(from as int));
    } else {
        assert(items.skip(from as int) =~= Seq::<Datum>::empty());
    }
}

/// Round trip of the fields of a struct or tuple from number `from` on.
pub proof fn lemma_round_trip_fields(
    fields: Seq<Datum>,
    layouts: Seq<Layout>,
    from: nat,
    rest: Seq<u8>,
)
    requires
        from <= fields.len(),
        fields.len() == layouts.len(),
        forall|i: int| 0 <= i < fields.len() ==> (#[trigger] fields[i]).fits(layouts[i]),
    ensures
        emit_all(fields, from).fault is None,
        parse_fields(layouts, emit_all(fields, from).bytes + rest, from) == (Parsed {
            used: emit_all(fields, from).bytes.len(),
            outcome: Ok(fields.skip(from as int)),
        }),
    decreases fields, fields.len() - from,
{
    let bytes = emit_all(fields, from).bytes;
    if from < fields.len() {
        let head = fields[from as int].emit().bytes;
        let tail = emit_all(fields, from + 1).bytes;
        lemma_round_trip(fields[from as int], layouts[from as int], tail + rest);
        lemma_round_trip_fields(fields, layouts, from + 1, rest);
        assert(bytes + rest =~= head + (tail + rest));
        assert((bytes + rest).skip(head.len() as int) =~= tail + rest);
        assert(seq![fields[from as int]] + fields.skip(from + 1 as int) =~= fields.skip(from as int));
    } else {
        assert(fields.skip(from as int) =~= Seq::<Datum>::empty());
    }
}

/// Underrun: what was written for a datum, cut short anywhere before its
/// end, does not read as a datum of its layout. The reader reports
/// `NotEnoughData`, whichever part of the datum the cut falls in.
pub proof fn lemma_truncated(datum: Datum, layout: Layout, cut: int)
    requires
        datum.fits(layout),
        0 <= cut < datum.emit().bytes.len(),
    ensures
        layout.parse(datum.emit().bytes.take(cut)).outcome == Err::<Datum, Fault>(
            Fault::NotEnoughData,
        ),
    decreases datum, 0nat,
{
    let bytes = datum.emit().bytes;
    let short = bytes.take(cut);
    match (datum, layout) {
        (Datum::Scalar(kind, value), Layout::Scalar(_)) => {
            lemma_le_bytes_len(kind.raw(value), kind.width());
        },
        (Datum::Bool(_), Layout::Bool) => {},
        (Datum::Text(chars), Layout::Text(_)) => {
            lemma_string_truncated(encode_utf8(chars), cut);
        },
        (Datum::Bytes(payload), Layout::Bytes) => {
            lemma_string_truncated(payload, cut);
        },
        (Datum::Nullable(None), Layout::Nullable(_)) => {},
        (Datum::Nullable(Some(present)), Layout::Nullable(inner)) => {
            if cut >= 1 {
                lemma_truncated(*present, *inner, cut - 1);
                assert(short[0] == 0);
                assert(short.skip(1) =~= present.emit().bytes.take(cut - 1));
            }
        },
        (Datum::Array(items), Layout::Array(item)) => {
            let prefix = varuint_bytes(items.len());
            let body = emit_all(items, 0).bytes;
            lemma_varuint_limit_values();
            if cut < prefix.len() {
                lemma_varuint_scan_truncated(items.len(), 0, cut);
                assert(short =~= prefix.take(cut));
            } else {
                let kept = body.take(cut - prefix.len());
                lemma_varuint_scan_of_bytes(items.len(), 0, kept);
                lemma_truncated_items(items, *item, 0, cut - prefix.len());
                assert(short =~= prefix + kept);
                assert(short.skip(prefix.len() as int) =~= kept);
            }
        },
        (Datum::Tuple(fields), Layout::Tuple(layouts)) => {
            lemma_truncated_fields(fields, layouts, 0, cut);
        },
        (Datum::Enum { declared, index, payload }, Layout::Enum(variants)) => {
            let width = tag_width(declared);
            let tag = le_bytes(index, width);
            let body = payload.emit().bytes;
            lemma_le_bytes_len(index, width);
            if cut >= width {
                let kept = body.take(cut - width);
                lemma_variant_round_trip(declared, index, kept);
                lemma_truncated(*payload, variants[index as int], cut - width);
                assert(short =~= tag + kept);
                assert(short.skip(width as int) =~= kept);
            }
        },
        _ => {},
    }
}

/// Underrun within the elements of an array from number `from` on.
pub proof fn lemma_truncated_items(items: Seq<Datum>, item: Layout, from: nat, cut: int)
    requires
        from <= items.len(),
        forall|i: int| 0 <= i < items.len() ==> (#[trigger] items[i]).fits(item),
        0 <= cut < emit_all(items, from).bytes.len(),
    ensures
        item.parse_many(emit_all(items, from).bytes.take(cut), (items.len() - from) as nat).outcome
            == Err::<Seq<Datum>, Fault>(Fault::NotEnoughData),
    decreases items, items.len() - from,
{
    let short = emit_all(items, from).bytes.take(cut);
    let head = items[from as int].emit().bytes;
    let tail = emit_all(items, from + 1).bytes;
    if cut < head.len() {
        lemma_round_trip(items[from as int], item, Seq::empty());
        lemma_truncated(items[from as int], item, cut);
        assert(short =~= head.take(cut));
    } else {
        let kept = tail.take(cut - head.len());
        lemma_round_trip(items[from as int], item, kept);
        lemma_truncated_items(items, item, from + 1, cut - head.len());
        assert(short =~= head + kept);
        assert(short.skip(head.len() as int) =~= kept);
    }
}

/// Underrun within the fields of a struct or tuple from number `from` on.
pub proof fn lemma_truncated_fields(
    fields: Seq<Datum>,
    layouts: Seq<Layout>,
    from: nat,
    cut: int,
)
    requires
        from <= fields.len(),
        fields.len() == layouts.len(),
        forall|i: int| 0 <= i < fields.len() ==> (#[trigger] fields[i]).fits(layouts[i]),
        0 <= cut < emit_all(fields, from).bytes.len(),
    ensures
        parse_fields(layouts, emit_all(fields, from).bytes.take(cut), from).outcome == Err::<
            Seq<Datum>,
            Fault,
        >(Fault::NotEnoughData),
    decreases fields, fields.len() - from,
{
    let short = emit_all(fields, from).bytes.take(cut);
    let head = fields[from as int].emit().bytes;
    let tail = emit_all(fields, from + 1).bytes;
    if cut < head.len() {
        lemma_round_trip(fields[from as int], layouts[from as int], Seq::empty());
        lemma_truncated(fields[from as int], layouts[from as int], cut);
        assert(short =~= head.take(cut));
    } else {
        let kept = tail.take(cut - head.len());
        lemma_round_trip(fields[from as int], layouts[from as int], kept);
        lemma_truncated_fields(fields, layouts, from + 1, cut - head.len());
        assert(short =~= head + kept);
        assert(short.skip(head.len() as int) =~= kept);
    }
}

/// Enum bound check: a discriminator that names no declared variant is
/// `VariantDiscriminatorIsOutOfBound` of the number that was read, whatever
/// follows it.
pub proof fn lemma_variant_out_of_bound(variants: Seq<Layout>, bytes: Seq<u8>)
    requires
        bytes.len() >= tag_width(variants.len()),
        le_value(bytes.take(tag_width(variants.len()) as int)) >= variants.len(),
    ensures
        parse_enum(variants, bytes) == (Parsed::<Datum> {
            used: tag_width(variants.len()),
            outcome: Err(
                Fault::VariantDiscriminatorIsOutOfBound(
                    le_value(bytes.take(tag_width(variants.len()) as int)),
                ),
            ),
        }),
{
}

/// Variants are numbered in declared order: a discriminator below the
/// number of variants selects the variant at that place, so zero selects
/// the first, and the payload is read with that variant's layout from what
/// follows the discriminator.
pub proof fn lemma_variant_selects(variants: Seq<Layout>, bytes: Seq<u8>)
    requires
        bytes.len() >= tag_width(variants.len()),
        le_value(bytes.take(tag_width(variants.len()) as int)) < variants.len(),
    ensures
        ({
            let width = tag_width(variants.len());
            let index = le_value(bytes.take(width as int));
            let payload = variants[index as int].parse(bytes.skip(width as int));
            &&& parse_enum(variants, bytes).used == width + payload.used
            &&& parse_enum(variants, bytes).outcome == match payload.outcome {
                Ok(datum) => Ok::<Datum, Fault>(
                    Datum::Enum { declared: variants.len(), index, payload: Box::new(datum) },
                ),
                Err(fault) => Err(fault),
            }
        }),
{
}

/// A reader stays within its input: it never passes over more bytes than
/// there are, whether it succeeds or fails.
pub proof fn lemma_parse_within(layout: Layout, bytes: Seq<u8>)
    ensures
        layout.parse(bytes).used <= bytes.len(),
    decreases layout, 0nat, 0nat,
{
    match layout {
        Layout::Scalar(_) => {},
        Layout::Bool => {},
        Layout::Text(_) => {
            lemma_varuint_scan_bound(bytes, 0);
        },
        Layout::Bytes => {
            lemma_varuint_scan_bound(bytes, 0);
        },
        Layout::Nullable(inner) => {
            if parse_presence(bytes).outcome == Ok::<bool, Fault>(true) {
                lemma_parse_within(*inner, bytes.skip(1));
            }
        },
        Layout::Array(item) => {
            let prefix = parse_varuint(bytes);
            lemma_varuint_scan_bound(bytes, 0);
            if prefix.outcome is Ok {
                lemma_parse_many_within(
                    *item,
                    bytes.skip(prefix.used as int),
                    prefix.outcome->Ok_0,
                );
            }
        },
        Layout::Tuple(fields) => {
            lemma_parse_fields_within(fields, bytes, 0);
        },
        Layout::Enum(variants) => {
            let tag = parse_variant(bytes, variants.len());
            if tag.outcome is Ok {
                lemma_parse_within(
                    variants[tag.outcome->Ok_0 as int],
                    bytes.skip(tag.used as int),
                );
            }
        },
    }
}

/// A reader of several values of one layout stays within its input.
pub proof fn lemma_parse_many_within(item: Layout, bytes: Seq<u8>, count: nat)
    ensures
        item.parse_many(bytes, count).used <= bytes.len(),
    decreases item, 1nat, count,
{
    if count > 0 {
        let head = item.parse(bytes);
        lemma_parse_within(item, bytes);
        if head.outcome is Ok {
            lemma_parse_many_within(item, bytes.skip(head.used as int), (count - 1) as nat);
        }
    }
}

/// A reader of the fields of a struct or tuple stays within its input.
pub proof fn lemma_parse_fields_within(layouts: Seq<Layout>, bytes: Seq<u8>, from: nat)
    ensures
        parse_fields(layouts, bytes, from).used <= bytes.len(),
    decreases layouts, layouts.len() - from, 0nat,
{
    if from < layouts.len() {
        let head = layouts[from as int].parse(bytes);
        lemma_parse_within(layouts[from as int], bytes);
        if head.outcome is Ok {
            lemma_parse_fields_within(layouts, bytes.skip(head.used as int), from + 1);
        }
    }
}

/// What follows a value has no part in how the value is read: a read that
/// succeeds gives the same value, and passes over as many bytes, whatever
/// is appended to the input. An array is read up to its count and no
/// further.
pub proof fn lemma_parse_ignores_rest(layout: Layout, bytes: Seq<u8>, extra: Seq<u8>)
    requires
        layout.parse(bytes).outcome is Ok,
    ensures
        layout.parse(bytes + extra) == layout.parse(bytes),
    decreases layout, 0nat, 0nat,
{
    let longer = bytes + extra;
    match layout {
        Layout::Scalar(kind) => {
            assert(longer.take(kind.width() as int) =~= bytes.take(kind.width() as int));
        },
        Layout::Bool => {
            assert(longer[0] == bytes[0]);
        },
        Layout::Text(_) => {
            lemma_string_ignores_rest(bytes, extra);
        },
        Layout::Bytes => {
            lemma_string_ignores_rest(bytes, extra);
        },
        Layout::Nullable(inner) => {
            assert(longer[0] == bytes[0]);
            if parse_presence(bytes).outcome == Ok::<bool, Fault>(true) {
                lemma_parse_ignores_rest(*inner, bytes.skip(1), extra);
                assert(longer.skip(1) =~= bytes.skip(1) + extra);
            }
        },
        Layout::Array(item) => {
            let prefix = parse_varuint(bytes);
            lemma_varuint_scan_bound(bytes, 0);
            lemma_varuint_scan_ignores_rest(bytes, 0, extra);
            lemma_parse_many_ignores_rest(
                *item,
                bytes.skip(prefix.used as int),
                prefix.outcome->Ok_0,
                extra,
            );
            assert(longer.skip(prefix.used as int) =~= bytes.skip(prefix.used as int) + extra);
        },
        Layout::Tuple(fields) => {
            lemma_parse_fields_ignores_rest(fields, bytes, 0, extra);
        },
        Layout::Enum(variants) => {
            let tag = parse_variant(bytes, variants.len());
            let width = tag_width(variants.len());
            assert(longer.take(width as int) =~= bytes.take(width as int));
            lemma_parse_ignores_rest(
                variants[tag.outcome->Ok_0 as int],
                bytes.skip(width as int),
                extra,
            );
            assert(longer.skip(width as int) =~= bytes.skip(width as int) + extra);
        },
    }
}

/// What follows a string has no part in how the string is read.
pub proof fn lemma_string_ignores_rest(bytes: Seq<u8>, extra: Seq<u8>)
    requires
        parse_string(bytes).outcome is Ok,
    ensures
        parse_string(bytes + extra) == parse_string(bytes),
{
    let prefix = parse_varuint(bytes);
    let end = prefix.used + prefix.outcome->Ok_0;
    lemma_varuint_scan_bound(bytes, 0);
    lemma_varuint_scan_ignores_rest(bytes, 0, extra);
    assert((bytes + extra).subrange(prefix.used as int, end as int) =~= bytes.subrange(
        prefix.used as int,
        end as int,
    ));
}

/// What follows the last of several values of one layout has no part in
/// how they are read.
pub proof fn lemma_parse_many_ignores_rest(
    item: Layout,
    bytes: Seq<u8>,
    count: nat,
    extra: Seq<u8>,
)
    requires
        item.parse_many(bytes, count).outcome is Ok,
    ensures
        item.parse_many(bytes + extra, count) == item.parse_many(bytes, count),
    decreases item, 1nat, count,
{
    if count > 0 {
        let head = item.parse(bytes);
        lemma_parse_within(item, bytes);
        lemma_parse_ignores_rest(item, bytes, extra);
        lemma_parse_many_ignores_rest(
            item,
            bytes.skip(head.used as int),
            (count - 1) as nat,
            extra,
        );
        assert((bytes + extra).skip(head.used as int) =~= bytes.skip(head.used as int) + extra);
    }
}

/// What follows the last field of a struct or tuple has no part in how the
/// fields are read.
pub proof fn lemma_parse_fields_ignores_rest(
    layouts: Seq<Layout>,
    bytes: Seq<u8>,
    from: nat,
    extra: Seq<u8>,
)
    requires
        parse_fields(layouts, bytes, from).outcome is Ok,
    ensures
        parse_fields(layouts, bytes + extra, from) == parse_fields(layouts, bytes, from),
    decreases layouts, layouts.len() - from, 0nat,
{
    if from < layouts.len() {
        let head = layouts[from as int].parse(bytes);
        lemma_parse_within(layouts[from as int], bytes);
        lemma_parse_ignores_rest(layouts[from as int], bytes, extra);
        lemma_parse_fields_ignores_rest(layouts, bytes.skip(head.used as int), from + 1, extra);
        assert((bytes + extra).skip(head.used as int) =~= bytes.skip(head.used as int) + extra);
    }
}

} // verus!
