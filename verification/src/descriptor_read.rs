//! Reading descriptor structures: the format as spec functions over the
//! bytes, and the readers that follow it.
use vstd::prelude::*;
use vstd::slice::slice_to_vec;

use crate::cursor::{
    be32, be64, signed32, signed64, unicode_string_end, unicode_string_ok, unicode_units,
    PsdCursor,
};
use crate::descriptor::{
    descriptor_view, field_view, fields_view, unit_float_view, AliasStructure, ClassStructure,
    DescriptorField, DescriptorStructure, DescriptorView, EnumeratedDescriptor, EnumeratedReference,
    FieldView, ImageResourcesDescriptorError, NameStructure, OffsetStructure, PropertyStructure,
    UnitFloatStructure, UnitFloatView, OS_TYPE_ALIAS, OS_TYPE_BOOL, OS_TYPE_CLASS, OS_TYPE_CLASS2,
    OS_TYPE_CLASS3, OS_TYPE_DESCRIPTOR, OS_TYPE_DOUBLE, OS_TYPE_ENUMERATED,
    OS_TYPE_ENUMERATED_REFERENCE, OS_TYPE_GLOBAL_OBJECT, OS_TYPE_IDENTIFIER, OS_TYPE_INDEX,
    OS_TYPE_INTEGER, OS_TYPE_LARGE_INTEGER, OS_TYPE_LIST, OS_TYPE_NAME, OS_TYPE_OFFSET,
    OS_TYPE_PROPERTY, OS_TYPE_RAW_DATA, OS_TYPE_REFERENCE, OS_TYPE_TEXT, OS_TYPE_UNIT_FLOAT,
    UNIT_FLOAT_ANGLE, UNIT_FLOAT_DENSITY, UNIT_FLOAT_DISTANCE, UNIT_FLOAT_NONE, UNIT_FLOAT_PERCENT,
    UNIT_FLOAT_PIXELS,
};
use crate::text::{string_from_utf8_lossy, utf16_decode, utf8_lossy};

verus! {

/// What reading a part of a descriptor at a position of the bytes gives.
pub enum Read<T> {
    /// The value read, and the position after it.
    Value(T, int),
    /// A key or unit that a descriptor does not use.
    Invalid(ImageResourcesDescriptorError),
    /// The bytes end before the part does, or hold text that is not UTF-16.
    Unreadable,
}

impl<T> Read<T> {
    /// Read on from where this read ended, with `f`.
    pub open spec fn and_then<U>(self, f: spec_fn(T, int) -> Read<U>) -> Read<U> {
        match self {
            Read::Value(v, e) => f(v, e),
            Read::Invalid(x) => Read::Invalid(x),
            Read::Unreadable => Read::Unreadable,
        }
    }

    /// The same read, with its value changed by `f`.
    pub open spec fn map<U>(self, f: spec_fn(T) -> U) -> Read<U> {
        match self {
            Read::Value(v, e) => Read::Value(f(v), e),
            Read::Invalid(x) => Read::Invalid(x),
            Read::Unreadable => Read::Unreadable,
        }
    }
}

/// `n` bytes from `p` lie within `s`.
pub open spec fn fits(s: Seq<u8>, p: int, n: int) -> bool {
    0 <= p && 0 <= n && p + n <= s.len()
}

/// A key: a 4-byte length, then that many bytes, or 4 bytes for length 0.
pub open spec fn key_at(s: Seq<u8>, p: int) -> Read<Seq<u8>> {
    if !fits(s, p, 4) {
        Read::Unreadable
    } else {
        let n = if be32(s, p) > 0 {
            be32(s, p)
        } else {
            4
        };
        if fits(s, p + 4, n) {
            Read::Value(s.subrange(p + 4, p + 4 + n), p + 4 + n)
        } else {
            Read::Unreadable
        }
    }
}

/// A Unicode string padded to `padding` bytes.
pub open spec fn unicode_at(s: Seq<u8>, p: int, padding: int) -> Read<Seq<char>> {
    if unicode_string_ok(s, p, padding) {
        Read::Value(utf16_decode(unicode_units(s, p)), unicode_string_end(s, p, padding))
    } else {
        Read::Unreadable
    }
}

/// Bytes after their 4-byte length.
pub open spec fn sized_at(s: Seq<u8>, p: int) -> Read<Seq<u8>> {
    if fits(s, p, 4) && fits(s, p + 4, be32(s, p)) {
        Read::Value(s.subrange(p + 4, p + 4 + be32(s, p)), p + 4 + be32(s, p))
    } else {
        Read::Unreadable
    }
}

/// A class structure: a name and a class id.
pub open spec fn class_at(s: Seq<u8>, p: int) -> Read<(Seq<char>, Seq<u8>)> {
    unicode_at(s, p, 4).and_then(
        |n: Seq<char>, q: int| key_at(s, q).map(|c: Seq<u8>| (n, c)),
    )
}

/// A property structure: a name, a class id and a key id.
pub open spec fn property_at(s: Seq<u8>, p: int) -> Read<(Seq<char>, Seq<u8>, Seq<u8>)> {
    class_at(s, p).and_then(
        |nc: (Seq<char>, Seq<u8>), q: int| key_at(s, q).map(|k: Seq<u8>| (nc.0, nc.1, k)),
    )
}

/// An enumerated reference: a name, a class id, a key id and an enum.
pub open spec fn enumerated_reference_at(s: Seq<u8>, p: int) -> Read<
    (Seq<char>, Seq<u8>, Seq<u8>, Seq<u8>),
> {
    property_at(s, p).and_then(
        |nck: (Seq<char>, Seq<u8>, Seq<u8>), q: int|
            key_at(s, q).map(|e: Seq<u8>| (nck.0, nck.1, nck.2, e)),
    )
}

/// An offset structure: a name, a class id and a 4-byte offset.
pub open spec fn offset_at(s: Seq<u8>, p: int) -> Read<(Seq<char>, Seq<u8>, u32)> {
    class_at(s, p).and_then(
        |nc: (Seq<char>, Seq<u8>), q: int|
            if fits(s, q, 4) {
                Read::Value((nc.0, nc.1, be32(s, q) as u32), q + 4)
            } else {
                Read::Unreadable
            },
    )
}

/// An enumerated descriptor: a type and an enum, both keys.
pub open spec fn enumerated_descriptor_at(s: Seq<u8>, p: int) -> Read<(Seq<u8>, Seq<u8>)> {
    key_at(s, p).and_then(|t: Seq<u8>, q: int| key_at(s, q).map(|e: Seq<u8>| (t, e)))
}

/// A name structure: a name, a class id and a value.
pub open spec fn name_at(s: Seq<u8>, p: int) -> Read<(Seq<char>, Seq<u8>, Seq<char>)> {
    class_at(s, p).and_then(
        |nc: (Seq<char>, Seq<u8>), q: int|
            unicode_at(s, q, 4).map(|v: Seq<char>| (nc.0, nc.1, v)),
    )
}

/// Eight bytes, as the bits of a double.
pub open spec fn double_at(s: Seq<u8>, p: int) -> Read<u64> {
    if fits(s, p, 8) {
        Read::Value(be64(s, p) as u64, p + 8)
    } else {
        Read::Unreadable
    }
}

/// A unit float: a 4-byte unit, then the value's eight bytes unless the unit
/// is none.
pub open spec fn unit_float_at(s: Seq<u8>, p: int) -> Read<UnitFloatView> {
    if !fits(s, p, 4) {
        Read::Unreadable
    } else {
        let u = be32(s, p);
        let q = p + 4;
        if u == UNIT_FLOAT_ANGLE {
            double_at(s, q).map(|v: u64| UnitFloatView::Angle(v))
        } else if u == UNIT_FLOAT_DENSITY {
            double_at(s, q).map(|v: u64| UnitFloatView::Density(v))
        } else if u == UNIT_FLOAT_DISTANCE {
            double_at(s, q).map(|v: u64| UnitFloatView::Distance(v))
        } else if u == UNIT_FLOAT_NONE {
            Read::Value(UnitFloatView::Unitless, q)
        } else if u == UNIT_FLOAT_PERCENT {
            double_at(s, q).map(|v: u64| UnitFloatView::Percent(v))
        } else if u == UNIT_FLOAT_PIXELS {
            double_at(s, q).map(|v: u64| UnitFloatView::Pixels(v))
        } else {
            Read::Invalid(ImageResourcesDescriptorError::InvalidUnitName {  })
        }
    }
}

/// One item of a reference: a key (skipped), a 4-byte OSType, then the item.
pub open spec fn reference_item_at(s: Seq<u8>, p: int) -> Read<FieldView> {
    key_at(s, p).and_then(
        |k: Seq<u8>, q: int|
            if !fits(s, q, 4) {
                Read::Unreadable
            } else {
                let t = be32(s, q);
                let r = q + 4;
                if t == OS_TYPE_PROPERTY {
                    property_at(s, r).map(
                        |x: (Seq<char>, Seq<u8>, Seq<u8>)| FieldView::Property(x.0, x.1, x.2),
                    )
                } else if t == OS_TYPE_CLASS3 {
                    class_at(s, r).map(|x: (Seq<char>, Seq<u8>)| FieldView::Class(x.0, x.1))
                } else if t == OS_TYPE_ENUMERATED_REFERENCE {
                    enumerated_reference_at(s, r).map(
                        |x: (Seq<char>, Seq<u8>, Seq<u8>, Seq<u8>)|
                            FieldView::EnumeratedReference(x.0, x.1, x.2, x.3),
                    )
                } else if t == OS_TYPE_OFFSET {
                    offset_at(s, r).map(
                        |x: (Seq<char>, Seq<u8>, u32)| FieldView::Offset(x.0, x.1, x.2),
                    )
                } else if t == OS_TYPE_IDENTIFIER {
                    if fits(s, r, 4) {
                        Read::Value(FieldView::Identifier(signed32(be32(s, r)) as i32), r + 4)
                    } else {
                        Read::Unreadable
                    }
                } else if t == OS_TYPE_INDEX {
                    if fits(s, r, 4) {
                        Read::Value(FieldView::Index(signed32(be32(s, r)) as i32), r + 4)
                    } else {
                        Read::Unreadable
                    }
                } else if t == OS_TYPE_NAME {
                    name_at(s, r).map(
                        |x: (Seq<char>, Seq<u8>, Seq<char>)| FieldView::Name(x.0, x.1, x.2),
                    )
                } else {
                    Read::Invalid(ImageResourcesDescriptorError::InvalidTypeOS {  })
                }
            },
    )
}

/// The `n` items of a reference from `p`, after those in `acc`.
pub open spec fn reference_items_at(s: Seq<u8>, p: int, n: nat, acc: Seq<FieldView>) -> Read<
    Seq<FieldView>,
>
    decreases n,
{
    if n == 0 {
        Read::Value(acc, p)
    } else {
        match reference_item_at(s, p) {
            Read::Value(f, e) => reference_items_at(s, e, (n - 1) as nat, acc.push(f)),
            Read::Invalid(x) => Read::Invalid(x),
            Read::Unreadable => Read::Unreadable,
        }
    }
}

/// A reference: a 4-byte count, then the items.
pub open spec fn reference_at(s: Seq<u8>, p: int) -> Read<Seq<FieldView>> {
    if fits(s, p, 4) {
        reference_items_at(s, p + 4, be32(s, p) as nat, Seq::empty())
    } else {
        Read::Unreadable
    }
}

/// The fields of `fields` with the field `k` set to `v`: the first field
/// with key `k` takes the value, or the field is added at the end.
pub open spec fn keyed_insert(fields: Seq<(Seq<char>, FieldView)>, k: Seq<char>, v: FieldView) -> Seq<
    (Seq<char>, FieldView),
>
    decreases fields.len(),
{
    if fields.len() == 0 {
        seq![(k, v)]
    } else if fields[0].0 == k {
        fields.update(0, (k, v))
    } else {
        seq![fields[0]] + keyed_insert(fields.skip(1), k, v)
    }
}

/// A field whose OSType `t` is not that of a descriptor or a list, with its
/// value at `q`.
#[verifier::opaque]
pub open spec fn leaf_field_at(s: Seq<u8>, t: int, q: int) -> Read<FieldView> {
    if t == OS_TYPE_REFERENCE {
        reference_at(s, q).map(|v: Seq<FieldView>| FieldView::Reference(v))
    } else if t == OS_TYPE_DOUBLE {
        double_at(s, q).map(|v: u64| FieldView::Double(v))
    } else if t == OS_TYPE_UNIT_FLOAT {
        unit_float_at(s, q).map(|u: UnitFloatView| FieldView::UnitFloat(u))
    } else if t == OS_TYPE_TEXT {
        unicode_at(s, q, 1).map(|v: Seq<char>| FieldView::String(v))
    } else if t == OS_TYPE_ENUMERATED {
        enumerated_descriptor_at(s, q).map(
            |x: (Seq<u8>, Seq<u8>)| FieldView::EnumeratedDescriptor(x.0, x.1),
        )
    } else if t == OS_TYPE_LARGE_INTEGER {
        if fits(s, q, 8) {
            Read::Value(FieldView::LargeInteger(signed64(be64(s, q)) as i64), q + 8)
        } else {
            Read::Unreadable
        }
    } else if t == OS_TYPE_INTEGER {
        if fits(s, q, 4) {
            Read::Value(FieldView::Integer(signed32(be32(s, q)) as i32), q + 4)
        } else {
            Read::Unreadable
        }
    } else if t == OS_TYPE_BOOL {
        if fits(s, q, 1) {
            Read::Value(FieldView::Boolean(s[q] > 0), q + 1)
        } else {
            Read::Unreadable
        }
    } else if t == OS_TYPE_CLASS {
        class_at(s, q).map(|x: (Seq<char>, Seq<u8>)| FieldView::Class(x.0, x.1))
    } else if t == OS_TYPE_CLASS2 {
        class_at(s, q).map(|x: (Seq<char>, Seq<u8>)| FieldView::Class2(x.0, x.1))
    } else if t == OS_TYPE_ALIAS {
        sized_at(s, q).map(|d: Seq<u8>| FieldView::Alias(d))
    } else if t == OS_TYPE_RAW_DATA {
        sized_at(s, q).map(|d: Seq<u8>| FieldView::RawData(d))
    } else {
        Read::Invalid(ImageResourcesDescriptorError::InvalidTypeOS {  })
    }
}

/// A field: a 4-byte OSType, then its value.
pub open spec fn field_at(s: Seq<u8>, p: int) -> Read<FieldView>
    decreases s.len() - p, 0nat,
{
    if !fits(s, p, 4) {
        Read::Unreadable
    } else {
        let t = be32(s, p);
        let q = p + 4;
        if t == OS_TYPE_DESCRIPTOR || t == OS_TYPE_GLOBAL_OBJECT {
            match descriptor_at(s, q) {
                Read::Value(d, e) => Read::Value(FieldView::Descriptor(d), e),
                Read::Invalid(x) => Read::Invalid(x),
                Read::Unreadable => Read::Unreadable,
            }
        } else if t == OS_TYPE_LIST {
            match list_at(s, q) {
                Read::Value(v, e) => Read::Value(FieldView::List(v), e),
                Read::Invalid(x) => Read::Invalid(x),
                Read::Unreadable => Read::Unreadable,
            }
        } else {
            leaf_field_at(s, t, q)
        }
    }
}

/// The `n` fields of a list from `p`, after those in `acc`. A field ends
/// after it starts.
pub open spec fn list_items_at(s: Seq<u8>, p: int, n: nat, acc: Seq<FieldView>) -> Read<
    Seq<FieldView>,
>
    decreases s.len() - p, 1nat,
{
    if n == 0 {
        Read::Value(acc, p)
    } else {
        match field_at(s, p) {
            Read::Value(f, e) => if p < e <= s.len() {
                list_items_at(s, e, (n - 1) as nat, acc.push(f))
            } else {
                Read::Unreadable
            },
            Read::Invalid(x) => Read::Invalid(x),
            Read::Unreadable => Read::Unreadable,
        }
    }
}

/// A list: a 4-byte count, then the fields.
pub open spec fn list_at(s: Seq<u8>, p: int) -> Read<Seq<FieldView>>
    decreases s.len() - p, 2nat,
{
    if fits(s, p, 4) {
        list_items_at(s, p + 4, be32(s, p) as nat, Seq::empty())
    } else {
        Read::Unreadable
    }
}

/// The `n` keyed fields of a descriptor from `p`, set into `acc`: each is a
/// key, read as lossy UTF-8, then a field.
pub open spec fn keyed_items_at(
    s: Seq<u8>,
    p: int,
    n: nat,
    acc: Seq<(Seq<char>, FieldView)>,
) -> Read<Seq<(Seq<char>, FieldView)>>
    decreases s.len() - p, 1nat,
{
    if n == 0 {
        Read::Value(acc, p)
    } else {
        match key_at(s, p) {
            Read::Value(k, q) => match field_at(s, q) {
                Read::Value(f, e) => if q < e <= s.len() {
                    keyed_items_at(s, e, (n - 1) as nat, keyed_insert(acc, utf8_lossy(k), f))
                } else {
                    Read::Unreadable
                },
                Read::Invalid(x) => Read::Invalid(x),
                Read::Unreadable => Read::Unreadable,
            },
            Read::Invalid(x) => Read::Invalid(x),
            Read::Unreadable => Read::Unreadable,
        }
    }
}

/// The keyed fields of a descriptor: a 4-byte count, then the fields.
pub open spec fn fields_at(s: Seq<u8>, p: int) -> Read<Seq<(Seq<char>, FieldView)>>
    decreases s.len() - p, 2nat,
{
    if fits(s, p, 4) {
        keyed_items_at(s, p + 4, be32(s, p) as nat, Seq::empty())
    } else {
        Read::Unreadable
    }
}

/// A descriptor: a Unicode string (padded to 1 byte), a class id key, then
/// the keyed fields.
pub open spec fn descriptor_at(s: Seq<u8>, p: int) -> Read<DescriptorView>
    decreases s.len() - p, 3nat,
{
    match unicode_at(s, p, 1) {
        Read::Value(name, q) => match key_at(s, q) {
            Read::Value(class_id, r) => if r <= s.len() {
                match fields_at(s, r) {
                    Read::Value(fields, e) => Read::Value(
                        DescriptorView { name, fields, class_id },
                        e,
                    ),
                    Read::Invalid(x) => Read::Invalid(x),
                    Read::Unreadable => Read::Unreadable,
                }
            } else {
                Read::Unreadable
            },
            Read::Invalid(x) => Read::Invalid(x),
            Read::Unreadable => Read::Unreadable,
        },
        Read::Invalid(x) => Read::Invalid(x),
        Read::Unreadable => Read::Unreadable,
    }
}

/// No two of `fields` have the same key.
pub open spec fn keys_distinct(fields: Seq<(Seq<char>, FieldView)>) -> bool {
    forall|i: int, j: int|
        0 <= i < j < fields.len() ==> #[trigger] fields[i].0 != #[trigger] fields[j].0
}

/// Some field of `fields` has the key `k`.
pub open spec fn has_key(fields: Seq<(Seq<char>, FieldView)>, k: Seq<char>) -> bool {
    exists|i: int| 0 <= i < fields.len() && #[trigger] fields[i].0 == k
}

/// Setting a field keeps the keys distinct, and adds no key but its own.
proof fn lemma_keyed_insert_distinct(fields: Seq<(Seq<char>, FieldView)>, k: Seq<char>, v: FieldView)
    requires
        keys_distinct(fields),
    ensures
        keys_distinct(keyed_insert(fields, k, v)),
        forall|x: Seq<char>|
            #[trigger] has_key(keyed_insert(fields, k, v), x) ==> x == k || has_key(fields, x),
    decreases fields.len(),
{
    let all = keyed_insert(fields, k, v);
    if fields.len() > 0 && fields[0].0 != k {
        let rest = fields.skip(1);
        assert forall|i: int, j: int| 0 <= i < j < rest.len() implies #[trigger] rest[i].0
            != #[trigger] rest[j].0 by {
            assert(rest[i] == fields[i + 1]);
            assert(rest[j] == fields[j + 1]);
        }
        lemma_keyed_insert_distinct(rest, k, v);
        let ins = keyed_insert(rest, k, v);
        assert(all == seq![fields[0]] + ins);
        assert forall|x: Seq<char>| #[trigger] has_key(all, x) implies x == k || has_key(fields, x) by {
            let i = choose|i: int| 0 <= i < all.len() && #[trigger] all[i].0 == x;
            if i == 0 {
                assert(fields[0].0 == x);
            } else {
                assert(all[i] == ins[i - 1]);
                assert(has_key(ins, x));
                if x != k {
                    assert(has_key(rest, x));
                    let m = choose|m: int| 0 <= m < rest.len() && #[trigger] rest[m].0 == x;
                    assert(rest[m] == fields[m + 1]);
                }
            }
        }
        assert forall|i: int, j: int| 0 <= i < j < all.len() implies #[trigger] all[i].0
            != #[trigger] all[j].0 by {
            if i == 0 {
                assert(all[j] == ins[j - 1]);
                if all[j].0 == fields[0].0 {
                    assert(has_key(ins, fields[0].0));
                    assert(has_key(rest, fields[0].0));
                    let m = choose|m: int| 0 <= m < rest.len() && #[trigger] rest[m].0 == fields[0].0;
                    assert(rest[m] == fields[m + 1]);
                }
            } else {
                assert(all[i] == ins[i - 1]);
                assert(all[j] == ins[j - 1]);
            }
        }
    } else if fields.len() == 0 {
        assert(all == seq![(k, v)]);
        assert forall|x: Seq<char>| #[trigger] has_key(all, x) implies x == k || has_key(fields, x) by {
            let i = choose|i: int| 0 <= i < all.len() && #[trigger] all[i].0 == x;
        }
    } else {
        assert(all == fields.update(0, (k, v)));
        assert forall|i: int, j: int| 0 <= i < j < all.len() implies #[trigger] all[i].0
            != #[trigger] all[j].0 by {
            assert(fields[i].0 != fields[j].0);
        }
        assert forall|x: Seq<char>| #[trigger] has_key(all, x) implies x == k || has_key(fields, x) by {
            let i = choose|i: int| 0 <= i < all.len() && #[trigger] all[i].0 == x;
            if i != 0 {
                assert(fields[i].0 == x);
            }
        }
    }
}

/// Reading keyed fields into distinct keys gives distinct keys.
proof fn lemma_keyed_items_distinct(
    s: Seq<u8>,
    p: int,
    n: nat,
    acc: Seq<(Seq<char>, FieldView)>,
)
    requires
        keys_distinct(acc),
    ensures
        keyed_items_at(s, p, n, acc) matches Read::Value(fields, _) ==> keys_distinct(fields),
    decreases s.len() - p,
{
    if n > 0 {
        match key_at(s, p) {
            Read::Value(k, q) => match field_at(s, q) {
                Read::Value(f, e) => if q < e <= s.len() {
                    lemma_keyed_insert_distinct(acc, utf8_lossy(k), f);
                    lemma_keyed_items_distinct(
                        s,
                        e,
                        (n - 1) as nat,
                        keyed_insert(acc, utf8_lossy(k), f),
                    );
                },
                _ => {},
            },
            _ => {},
        }
    }
}

/// No two fields of a descriptor that reads have the same key: a later field
/// with a key replaces the earlier one.
pub proof fn lemma_descriptor_keys_distinct(s: Seq<u8>, p: int)
    ensures
        descriptor_at(s, p) matches Read::Value(d, _) ==> keys_distinct(d.fields),
{
    match unicode_at(s, p, 1) {
        Read::Value(name, q) => match key_at(s, q) {
            Read::Value(class_id, r) => if r <= s.len() && fits(s, r, 4) {
                lemma_keyed_items_distinct(s, r + 4, be32(s, r) as nat, Seq::empty());
            },
            _ => {},
        },
        _ => {},
    }
}

/// The keyed fields of a descriptor, by their views.
pub open spec fn keyed_view(v: Seq<(String, DescriptorField)>) -> Seq<(Seq<char>, FieldView)> {
    Seq::new(v.len(), |i: int| (v[i].0@, field_view(v[i].1)))
}

/// Setting a key whose first field stands at `j` replaces that field.
proof fn lemma_keyed_insert_at(fields: Seq<(Seq<char>, FieldView)>, k: Seq<char>, v: FieldView, j: int)
    requires
        0 <= j < fields.len(),
        fields[j].0 == k,
        forall|i: int| 0 <= i < j ==> fields[i].0 != k,
    ensures
        keyed_insert(fields, k, v) == fields.update(j, (k, v)),
    decreases fields.len(),
{
    if j > 0 {
        lemma_keyed_insert_at(fields.skip(1), k, v, j - 1);
        assert(seq![fields[0]] + fields.skip(1).update(j - 1, (k, v)) =~= fields.update(j, (k, v)));
    }
}

/// Setting a key that no field has adds a field at the end.
pub proof fn lemma_keyed_insert_new(fields: Seq<(Seq<char>, FieldView)>, k: Seq<char>, v: FieldView)
    requires
        forall|i: int| 0 <= i < fields.len() ==> fields[i].0 != k,
    ensures
        keyed_insert(fields, k, v) == fields.push((k, v)),
    decreases fields.len(),
{
    if fields.len() > 0 {
        lemma_keyed_insert_new(fields.skip(1), k, v);
        assert(seq![fields[0]] + fields.skip(1).push((k, v)) =~= fields.push((k, v)));
    }
}

/// Set the field `key` of `fields` to `field`, as `keyed_insert` does.
fn insert_field(fields: &mut Vec<(String, DescriptorField)>, key: String, field: DescriptorField)
    ensures
        keyed_view(final(fields)@) == keyed_insert(keyed_view(old(fields)@), key@, field_view(field)),
{
    let ghost old_view = keyed_view(fields@);
    let mut j: usize = 0;
    while j < fields.len()
        invariant
            j <= fields@.len(),
            keyed_view(fields@) == old_view,
            old_view == keyed_view(old(fields)@),
            forall|i: int| 0 <= i < j ==> old_view[i].0 != key@,
        decreases fields@.len() - j,
    {
        if fields[j].0 == key {
            proof {
                lemma_keyed_insert_at(old_view, key@, field_view(field), j as int);
            }
            fields.set(j, (key, field));
            assert(keyed_view(fields@) =~= old_view.update(j as int, (key@, field_view(field))));
            return;
        }
        j += 1;
    }
    proof {
        lemma_keyed_insert_new(old_view, key@, field_view(field));
    }
    fields.push((key, field));
    assert(keyed_view(fields@) =~= old_view.push((key@, field_view(field))));
}

impl DescriptorStructure {
    /// Read a key: a 4-byte length, then that many bytes, or 4 bytes for
    /// length 0.
    pub fn read_key_length<'a>(cursor: &mut PsdCursor<'a>) -> (r: &'a [u8])
        requires
            key_at(old(cursor).data(), old(cursor).pos()) is Value,
        ensures
            final(cursor).data() == old(cursor).data(),
            key_at(old(cursor).data(), old(cursor).pos()) == Read::Value(r@, final(cursor).pos()),
    {
        let length = cursor.read_u32();
        let length = if length > 0 {
            length
        } else {
            4
        };
        cursor.read(length as usize)
    }

    /// Read a class structure.
    pub fn read_class_structure(cursor: &mut PsdCursor) -> (r: ClassStructure)
        requires
            class_at(old(cursor).data(), old(cursor).pos()) is Value,
        ensures
            final(cursor).data() == old(cursor).data(),
            class_at(old(cursor).data(), old(cursor).pos()) == Read::Value(
                (r.name@, r.class_id@),
                final(cursor).pos(),
            ),
    {
        let name = cursor.read_unicode_string();
        let class_id = slice_to_vec(Self::read_key_length(cursor));
        ClassStructure { name, class_id }
    }

    /// Read a property structure.
    pub fn read_property_structure(cursor: &mut PsdCursor) -> (r: PropertyStructure)
        requires
            property_at(old(cursor).data(), old(cursor).pos()) is Value,
        ensures
            final(cursor).data() == old(cursor).data(),
            property_at(old(cursor).data(), old(cursor).pos()) == Read::Value(
                (r.name@, r.class_id@, r.key_id@),
                final(cursor).pos(),
            ),
    {
        let name = cursor.read_unicode_string();
        let class_id = slice_to_vec(Self::read_key_length(cursor));
        let key_id = slice_to_vec(Self::read_key_length(cursor));
        PropertyStructure { name, class_id, key_id }
    }

    /// Read an enumerated reference.
    pub fn read_enumerated_reference(cursor: &mut PsdCursor) -> (r: EnumeratedReference)
        requires
            enumerated_reference_at(old(cursor).data(), old(cursor).pos()) is Value,
        ensures
            final(cursor).data() == old(cursor).data(),
            enumerated_reference_at(old(cursor).data(), old(cursor).pos()) == Read::Value(
                (r.name@, r.class_id@, r.key_id@, r.enum_field@),
                final(cursor).pos(),
            ),
    {
        let name = cursor.read_unicode_string();
        let class_id = slice_to_vec(Self::read_key_length(cursor));
        let key_id = slice_to_vec(Self::read_key_length(cursor));
        let enum_field = slice_to_vec(Self::read_key_length(cursor));
        EnumeratedReference { name, class_id, key_id, enum_field }
    }

    /// Read an offset structure.
    pub fn read_offset_structure(cursor: &mut PsdCursor) -> (r: OffsetStructure)
        requires
            offset_at(old(cursor).data(), old(cursor).pos()) is Value,
        ensures
            final(cursor).data() == old(cursor).data(),
            offset_at(old(cursor).data(), old(cursor).pos()) == Read::Value(
                (r.name@, r.class_id@, r.offset),
                final(cursor).pos(),
            ),
    {
        let name = cursor.read_unicode_string();
        let class_id = slice_to_vec(Self::read_key_length(cursor));
        let offset = cursor.read_u32();
        OffsetStructure { name, class_id, offset }
    }

    /// Read an alias structure: the length of its data, then the data.
    pub fn read_alias_structure(cursor: &mut PsdCursor) -> (r: AliasStructure)
        requires
            sized_at(old(cursor).data(), old(cursor).pos()) is Value,
        ensures
            final(cursor).data() == old(cursor).data(),
            sized_at(old(cursor).data(), old(cursor).pos()) == Read::Value(
                r.data@,
                final(cursor).pos(),
            ),
    {
        let data = Self::read_raw_data(cursor);
        AliasStructure { data }
    }

    /// Read an enumerated descriptor: a type and an enum.
    pub fn read_enumerated_descriptor(cursor: &mut PsdCursor) -> (r: EnumeratedDescriptor)
        requires
            enumerated_descriptor_at(old(cursor).data(), old(cursor).pos()) is Value,
        ensures
            final(cursor).data() == old(cursor).data(),
            enumerated_descriptor_at(old(cursor).data(), old(cursor).pos()) == Read::Value(
                (r.type_field@, r.enum_field@),
                final(cursor).pos(),
            ),
    {
        let type_field = slice_to_vec(Self::read_key_length(cursor));
        let enum_field = slice_to_vec(Self::read_key_length(cursor));
        EnumeratedDescriptor { type_field, enum_field }
    }

    /// Read raw data: its length, then the bytes.
    pub fn read_raw_data(cursor: &mut PsdCursor) -> (r: Vec<u8>)
        requires
            sized_at(old(cursor).data(), old(cursor).pos()) is Value,
        ensures
            final(cursor).data() == old(cursor).data(),
            sized_at(old(cursor).data(), old(cursor).pos()) == Read::Value(r@, final(cursor).pos()),
    {
        let length = cursor.read_u32();
        slice_to_vec(cursor.read(length as usize))
    }

    /// Read a name structure.
    pub fn read_name(cursor: &mut PsdCursor) -> (r: NameStructure)
        requires
            name_at(old(cursor).data(), old(cursor).pos()) is Value,
        ensures
            final(cursor).data() == old(cursor).data(),
            name_at(old(cursor).data(), old(cursor).pos()) == Read::Value(
                (r.name@, r.class_id@, r.value@),
                final(cursor).pos(),
            ),
    {
        let name = cursor.read_unicode_string();
        let class_id = slice_to_vec(Self::read_key_length(cursor));
        let value = cursor.read_unicode_string();
        NameStructure { name, class_id, value }
    }

    /// Read a unit float: its unit, then its value unless the unit is none.
    pub fn read_unit_float(cursor: &mut PsdCursor) -> (r: Result<
        UnitFloatStructure,
        ImageResourcesDescriptorError,
    >)
        requires
            old(cursor).pos() <= old(cursor).data().len(),
            !(unit_float_at(old(cursor).data(), old(cursor).pos()) is Unreadable),
        ensures
            final(cursor).data() == old(cursor).data(),
            old(cursor).pos() <= final(cursor).pos() <= old(cursor).data().len(),
            match r {
                Ok(u) => unit_float_at(old(cursor).data(), old(cursor).pos()) == Read::Value(
                    unit_float_view(u),
                    final(cursor).pos(),
                ),
                Err(e) => unit_float_at(old(cursor).data(), old(cursor).pos()) == Read::<
                    UnitFloatView,
                >::Invalid(e),
            },
    {
        let unit = cursor.read_u32();
        if unit == UNIT_FLOAT_ANGLE {
            Ok(UnitFloatStructure::Angle(cursor.read_u64()))
        } else if unit == UNIT_FLOAT_DENSITY {
            Ok(UnitFloatStructure::Density(cursor.read_u64()))
        } else if unit == UNIT_FLOAT_DISTANCE {
            Ok(UnitFloatStructure::Distance(cursor.read_u64()))
        } else if unit == UNIT_FLOAT_NONE {
            Ok(UnitFloatStructure::Unitless)
        } else if unit == UNIT_FLOAT_PERCENT {
            Ok(UnitFloatStructure::Percent(cursor.read_u64()))
        } else if unit == UNIT_FLOAT_PIXELS {
            Ok(UnitFloatStructure::Pixels(cursor.read_u64()))
        } else {
            Err(ImageResourcesDescriptorError::InvalidUnitName {  })
        }
    }

    /// Read one item of a reference: a key, which is skipped, an OSType, then
    /// the item.
    fn read_reference_item(cursor: &mut PsdCursor) -> (r: Result<
        DescriptorField,
        ImageResourcesDescriptorError,
    >)
        requires
            old(cursor).pos() <= old(cursor).data().len(),
            !(reference_item_at(old(cursor).data(), old(cursor).pos()) is Unreadable),
        ensures
            final(cursor).data() == old(cursor).data(),
            old(cursor).pos() <= final(cursor).pos() <= old(cursor).data().len(),
            match r {
                Ok(f) => reference_item_at(old(cursor).data(), old(cursor).pos()) == Read::Value(
                    field_view(f),
                    final(cursor).pos(),
                ),
                Err(e) => reference_item_at(old(cursor).data(), old(cursor).pos()) == Read::<
                    FieldView,
                >::Invalid(e),
            },
    {
        Self::read_key_length(cursor);
        let t = cursor.read_u32();
        if t == OS_TYPE_PROPERTY {
            Ok(DescriptorField::Property(Self::read_property_structure(cursor)))
        } else if t == OS_TYPE_CLASS3 {
            Ok(DescriptorField::Class(Self::read_class_structure(cursor)))
        } else if t == OS_TYPE_ENUMERATED_REFERENCE {
            Ok(DescriptorField::EnumeratedReference(Self::read_enumerated_reference(cursor)))
        } else if t == OS_TYPE_OFFSET {
            Ok(DescriptorField::Offset(Self::read_offset_structure(cursor)))
        } else if t == OS_TYPE_IDENTIFIER {
            Ok(DescriptorField::Identifier(cursor.read_i32()))
        } else if t == OS_TYPE_INDEX {
            Ok(DescriptorField::Index(cursor.read_i32()))
        } else if t == OS_TYPE_NAME {
            Ok(DescriptorField::Name(Self::read_name(cursor)))
        } else {
            Err(ImageResourcesDescriptorError::InvalidTypeOS {  })
        }
    }

    /// Read a reference: a count, then the items.
    pub fn read_reference_structure(cursor: &mut PsdCursor) -> (r: Result<
        Vec<DescriptorField>,
        ImageResourcesDescriptorError,
    >)
        requires
            old(cursor).pos() <= old(cursor).data().len(),
            !(reference_at(old(cursor).data(), old(cursor).pos()) is Unreadable),
        ensures
            final(cursor).data() == old(cursor).data(),
            old(cursor).pos() <= final(cursor).pos() <= old(cursor).data().len(),
            match r {
                Ok(v) => reference_at(old(cursor).data(), old(cursor).pos()) == Read::Value(
                    fields_view(v),
                    final(cursor).pos(),
                ),
                Err(e) => reference_at(old(cursor).data(), old(cursor).pos()) == Read::<
                    Seq<FieldView>,
                >::Invalid(e),
            },
    {
        let ghost s = cursor.data();
        let ghost whole = reference_at(s, cursor.pos());
        let count = cursor.read_u32();
        let mut vec: Vec<DescriptorField> = Vec::new();
        assert(fields_view(vec) =~= Seq::empty());
        let mut n: u32 = 0;
        while n < count
            invariant
                cursor.data() == s,
                s == old(cursor).data(),
                whole == reference_at(s, old(cursor).pos()),
                old(cursor).pos() <= cursor.pos() <= s.len(),
                n <= count,
                !(whole is Unreadable),
                whole == reference_items_at(s, cursor.pos(), (count - n) as nat, fields_view(vec)),
            decreases count - n,
        {
            let item = Self::read_reference_item(cursor);
            match item {
                Ok(f) => {
                    let ghost before = fields_view(vec);
                    let ghost fv = field_view(f);
                    vec.push(f);
                    assert(fields_view(vec) =~= before.push(fv));
                },
                Err(e) => {
                    return Err(e);
                },
            }
            n += 1;
        }
        Ok(vec)
    }

    /// Read the value of a field whose OSType `t` is not that of a
    /// descriptor or a list.
    fn read_leaf_field(cursor: &mut PsdCursor, t: u32) -> (r: Result<
        DescriptorField,
        ImageResourcesDescriptorError,
    >)
        requires
            !(leaf_field_at(old(cursor).data(), t as int, old(cursor).pos()) is Unreadable),
            old(cursor).pos() <= old(cursor).data().len(),
        ensures
            final(cursor).data() == old(cursor).data(),
            old(cursor).pos() <= final(cursor).pos() <= old(cursor).data().len(),
            match r {
                Ok(f) => leaf_field_at(old(cursor).data(), t as int, old(cursor).pos())
                    == Read::Value(field_view(f), final(cursor).pos()),
                Err(e) => leaf_field_at(old(cursor).data(), t as int, old(cursor).pos())
                    == Read::<FieldView>::Invalid(e),
            },
    {
        reveal(leaf_field_at);
        if t == OS_TYPE_REFERENCE {
            match Self::read_reference_structure(cursor) {
                Ok(v) => Ok(DescriptorField::Reference(v)),
                Err(e) => Err(e),
            }
        } else if t == OS_TYPE_DOUBLE {
            Ok(DescriptorField::Double(cursor.read_u64()))
        } else if t == OS_TYPE_UNIT_FLOAT {
            match Self::read_unit_float(cursor) {
                Ok(u) => Ok(DescriptorField::UnitFloat(u)),
                Err(e) => Err(e),
            }
        } else if t == OS_TYPE_TEXT {
            Ok(DescriptorField::String(cursor.read_unicode_string_padding(1)))
        } else if t == OS_TYPE_ENUMERATED {
            Ok(DescriptorField::EnumeratedDescriptor(Self::read_enumerated_descriptor(cursor)))
        } else if t == OS_TYPE_LARGE_INTEGER {
            Ok(DescriptorField::LargeInteger(cursor.read_i64()))
        } else if t == OS_TYPE_INTEGER {
            Ok(DescriptorField::Integer(cursor.read_i32()))
        } else if t == OS_TYPE_BOOL {
            Ok(DescriptorField::Boolean(cursor.read_u8() > 0))
        } else if t == OS_TYPE_CLASS {
            Ok(DescriptorField::Class(Self::read_class_structure(cursor)))
        } else if t == OS_TYPE_CLASS2 {
            Ok(DescriptorField::Class2(Self::read_class_structure(cursor)))
        } else if t == OS_TYPE_ALIAS {
            Ok(DescriptorField::Alias(Self::read_alias_structure(cursor)))
        } else if t == OS_TYPE_RAW_DATA {
            Ok(DescriptorField::RawData(Self::read_raw_data(cursor)))
        } else {
            Err(ImageResourcesDescriptorError::InvalidTypeOS {  })
        }
    }

    /// Read a field: its OSType, then its value.
    pub fn read_descriptor_field(cursor: &mut PsdCursor) -> (r: Result<
        DescriptorField,
        ImageResourcesDescriptorError,
    >)
        requires
            !(field_at(old(cursor).data(), old(cursor).pos()) is Unreadable),
        ensures
            final(cursor).data() == old(cursor).data(),
            match r {
                Ok(f) => field_at(old(cursor).data(), old(cursor).pos()) == Read::Value(
                    field_view(f),
                    final(cursor).pos(),
                ),
                Err(e) => field_at(old(cursor).data(), old(cursor).pos()) == Read::<
                    FieldView,
                >::Invalid(e),
            },
            old(cursor).pos() < final(cursor).pos() <= old(cursor).data().len(),
        decreases old(cursor).data().len() - old(cursor).pos(), 0nat,
    {
        let t = cursor.read_u32();
        if t == OS_TYPE_DESCRIPTOR || t == OS_TYPE_GLOBAL_OBJECT {
            match Self::read_descriptor_structure(cursor) {
                Ok(d) => Ok(DescriptorField::Descriptor(d)),
                Err(e) => Err(e),
            }
        } else if t == OS_TYPE_LIST {
            match Self::read_list_structure(cursor) {
                Ok(v) => Ok(DescriptorField::List(v)),
                Err(e) => Err(e),
            }
        } else {
            Self::read_leaf_field(cursor, t)
        }
    }

    /// Read a list: a count, then the fields.
    pub fn read_list(cursor: &mut PsdCursor, sub_list: bool) -> (r: Result<
        Vec<DescriptorField>,
        ImageResourcesDescriptorError,
    >)
        requires
            !(list_at(old(cursor).data(), old(cursor).pos()) is Unreadable),
        ensures
            final(cursor).data() == old(cursor).data(),
            match r {
                Ok(v) => list_at(old(cursor).data(), old(cursor).pos()) == Read::Value(
                    fields_view(v),
                    final(cursor).pos(),
                ),
                Err(e) => list_at(old(cursor).data(), old(cursor).pos()) == Read::<
                    Seq<FieldView>,
                >::Invalid(e),
            },
            old(cursor).pos() < final(cursor).pos() <= old(cursor).data().len(),
        decreases old(cursor).data().len() - old(cursor).pos(), 2nat,
    {
        let ghost s = cursor.data();
        let ghost whole = list_at(s, cursor.pos());
        let count = cursor.read_u32();
        let mut vec: Vec<DescriptorField> = Vec::new();
        assert(fields_view(vec) =~= Seq::empty());
        let mut n: u32 = 0;
        while n < count
            invariant
                cursor.data() == s,
                s == old(cursor).data(),
                whole == list_at(s, old(cursor).pos()),
                old(cursor).pos() < cursor.pos() <= s.len(),
                n <= count,
                !(whole is Unreadable),
                whole == list_items_at(s, cursor.pos(), (count - n) as nat, fields_view(vec)),
            decreases count - n,
        {
            let field = Self::read_descriptor_field(cursor);
            match field {
                Ok(f) => {
                    let ghost before = fields_view(vec);
                    let ghost fv = field_view(f);
                    vec.push(f);
                    assert(fields_view(vec) =~= before.push(fv));
                },
                Err(e) => {
                    return Err(e);
                },
            }
            n += 1;
        }
        Ok(vec)
    }

    /// Read a list that stands as a field.
    pub fn read_list_structure(cursor: &mut PsdCursor) -> (r: Result<
        Vec<DescriptorField>,
        ImageResourcesDescriptorError,
    >)
        requires
            !(list_at(old(cursor).data(), old(cursor).pos()) is Unreadable),
        ensures
            final(cursor).data() == old(cursor).data(),
            match r {
                Ok(v) => list_at(old(cursor).data(), old(cursor).pos()) == Read::Value(
                    fields_view(v),
                    final(cursor).pos(),
                ),
                Err(e) => list_at(old(cursor).data(), old(cursor).pos()) == Read::<
                    Seq<FieldView>,
                >::Invalid(e),
            },
            old(cursor).pos() < final(cursor).pos() <= old(cursor).data().len(),
        decreases old(cursor).data().len() - old(cursor).pos(), 3nat,
    {
        Self::read_list(cursor, true)
    }

    /// Read the keyed fields of a descriptor: a count, then each field's key
    /// (as lossy UTF-8) and value. A later field replaces an earlier one with
    /// the same key.
    pub fn read_fields(cursor: &mut PsdCursor, sub_list: bool) -> (r: Result<
        Vec<(String, DescriptorField)>,
        ImageResourcesDescriptorError,
    >)
        requires
            !(fields_at(old(cursor).data(), old(cursor).pos()) is Unreadable),
        ensures
            final(cursor).data() == old(cursor).data(),
            match r {
                Ok(v) => fields_at(old(cursor).data(), old(cursor).pos()) == Read::Value(
                    keyed_view(v@),
                    final(cursor).pos(),
                ),
                Err(e) => fields_at(old(cursor).data(), old(cursor).pos()) == Read::<
                    Seq<(Seq<char>, FieldView)>,
                >::Invalid(e),
            },
            old(cursor).pos() < final(cursor).pos() <= old(cursor).data().len(),
        decreases old(cursor).data().len() - old(cursor).pos(), 2nat,
    {
        let ghost s = cursor.data();
        let ghost whole = fields_at(s, cursor.pos());
        let count = cursor.read_u32();
        let mut fields: Vec<(String, DescriptorField)> = Vec::new();
        assert(keyed_view(fields@) =~= Seq::empty());
        let mut n: u32 = 0;
        while n < count
            invariant
                cursor.data() == s,
                s == old(cursor).data(),
                whole == fields_at(s, old(cursor).pos()),
                old(cursor).pos() < cursor.pos() <= s.len(),
                n <= count,
                !(whole is Unreadable),
                whole == keyed_items_at(s, cursor.pos(), (count - n) as nat, keyed_view(fields@)),
            decreases count - n,
        {
            let key_bytes = Self::read_key_length(cursor);
            let key = string_from_utf8_lossy(key_bytes);
            let field = Self::read_descriptor_field(cursor);
            match field {
                Ok(f) => {
                    insert_field(&mut fields, key, f);
                },
                Err(e) => {
                    return Err(e);
                },
            }
            n += 1;
        }
        Ok(fields)
    }

    /// Read a descriptor: its name, its class id, then its keyed fields.
    pub fn read_descriptor_structure(cursor: &mut PsdCursor) -> (r: Result<
        DescriptorStructure,
        ImageResourcesDescriptorError,
    >)
        requires
            !(descriptor_at(old(cursor).data(), old(cursor).pos()) is Unreadable),
        ensures
            final(cursor).data() == old(cursor).data(),
            match r {
                Ok(d) => descriptor_at(old(cursor).data(), old(cursor).pos()) == Read::Value(
                    descriptor_view(d),
                    final(cursor).pos(),
                ),
                Err(e) => descriptor_at(old(cursor).data(), old(cursor).pos()) == Read::<
                    DescriptorView,
                >::Invalid(e),
            },
            old(cursor).pos() < final(cursor).pos() <= old(cursor).data().len(),
        decreases old(cursor).data().len() - old(cursor).pos(), 3nat,
    {
        let name = cursor.read_unicode_string_padding(1);
        let class_id = slice_to_vec(Self::read_key_length(cursor));
        match Self::read_fields(cursor, false) {
            Ok(fields) => {
                let d = DescriptorStructure { name, fields, class_id };
                assert(descriptor_view(d).fields =~= keyed_view(d.fields@));
                Ok(d)
            },
            Err(e) => Err(e),
        }
    }
}

} // verus!
