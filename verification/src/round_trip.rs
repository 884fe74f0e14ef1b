//! What reading gives back of what writing wrote: descriptors whose
//! fields are of the kinds that are read the way they are written, and the
//! image resources sections that hold them.
use vstd::prelude::*;
use vstd::utf8::encode_utf8;

use crate::buffer::{
    be32_bytes, be64_bytes, lemma_be32_round_trip, lemma_be64_round_trip, lemma_units_round_trip,
    unicode_encoding, units_be_bytes,
};
use crate::cursor::{
    be16, be16_units, be32, be64, pad_len, pascal_string_end, signed32, signed64, unicode_units,
};
use crate::descriptor::{
    code, descriptor_encoding, field_encoding, key_encoding, keyed_encoding, list_encoding,
    unit_float_encoding, DescriptorView, FieldView, UnitFloatView, OS_TYPE_ALIAS, OS_TYPE_BOOL,
    OS_TYPE_CLASS, OS_TYPE_CLASS2, OS_TYPE_DESCRIPTOR, OS_TYPE_REFERENCE, OS_TYPE_DOUBLE, OS_TYPE_ENUMERATED, OS_TYPE_INTEGER,
    OS_TYPE_LARGE_INTEGER, OS_TYPE_LIST, OS_TYPE_TEXT, OS_TYPE_UNIT_FLOAT, UNIT_FLOAT_ANGLE,
    UNIT_FLOAT_DENSITY, UNIT_FLOAT_DISTANCE, UNIT_FLOAT_NONE, UNIT_FLOAT_PERCENT,
    UNIT_FLOAT_PIXELS,
};
use crate::descriptor_read::{
    class_at, descriptor_at, field_at, fields_at, key_at, leaf_field_at, keyed_insert, keyed_items_at, keys_distinct,
    list_at, list_items_at, unicode_at, unit_float_at, Read,
};
use crate::image_resources::{
    block_at, blocks_at, image_resources_from_bytes, padded_even, resource_encoding,
    resources_encoding, section_encoding, ImageResourcesSectionError, ResourceView,
    EXPECTED_RESOURCE_BLOCK_SIGNATURE, RESOURCE_SLICES_INFO,
};
use crate::buffer::pascal_encoding;
use crate::slices::{
    lemma_slices_v6_encoding, lemma_slices_v7_8_encoding, slice_fields_end, slices_at,
    slices_block_at, slices_block_encoding, slices_blocks_encoding, slices_encoding, SlicesView,
    EXPECTED_DESCRIPTOR_VERSION,
};
use crate::text::{lemma_utf16_round_trip, utf16_decode, utf16_encode, utf8_lossy};

verus! {

/// `s` holds the bytes `e` from `p` on.
pub open spec fn holds_at(s: Seq<u8>, p: int, e: Seq<u8>) -> bool {
    0 <= p && p + e.len() <= s.len() && s.subrange(p, p + e.len()) == e
}

/// Bytes held one after the other are each held in turn.
proof fn lemma_holds_split(s: Seq<u8>, p: int, a: Seq<u8>, b: Seq<u8>)
    requires
        holds_at(s, p, a + b),
    ensures
        holds_at(s, p, a),
        holds_at(s, p + a.len(), b),
{
    let whole = s.subrange(p, p + (a + b).len());
    assert(whole == a + b);
    assert forall|i: int| 0 <= i < a.len() implies s.subrange(p, p + a.len())[i] == a[i] by {
        assert(whole[i] == s[p + i]);
        assert((a + b)[i] == a[i]);
    }
    assert(s.subrange(p, p + a.len()) =~= a);
    assert forall|i: int| 0 <= i < b.len() implies s.subrange(p + a.len(), p + a.len() + b.len())[i]
        == b[i] by {
        assert(whole[a.len() + i] == s[p + a.len() + i]);
        assert((a + b)[a.len() + i] == b[i]);
    }
    assert(s.subrange(p + a.len(), p + a.len() + b.len()) =~= b);
}

/// Four bytes that `be32_bytes` wrote read back as the value.
proof fn lemma_be32_at(s: Seq<u8>, p: int, n: int)
    requires
        0 <= n <= u32::MAX,
        holds_at(s, p, be32_bytes(n)),
    ensures
        be32(s, p) == n,
{
    lemma_be32_round_trip(n);
    let e = be32_bytes(n);
    assert(s[p] == e[0] && s[p + 1] == e[1] && s[p + 2] == e[2] && s[p + 3] == e[3]) by {
        assert(s.subrange(p, p + 4)[0] == s[p]);
        assert(s.subrange(p, p + 4)[1] == s[p + 1]);
        assert(s.subrange(p, p + 4)[2] == s[p + 2]);
        assert(s.subrange(p, p + 4)[3] == s[p + 3]);
    }
}

/// Eight bytes that `be64_bytes` wrote read back as the value.
proof fn lemma_be64_at(s: Seq<u8>, p: int, n: int)
    requires
        0 <= n <= u64::MAX,
        holds_at(s, p, be64_bytes(n)),
    ensures
        be64(s, p) == n,
{
    lemma_be64_round_trip(n);
    let e = be64_bytes(n);
    assert forall|i: int| 0 <= i < 8 implies s[p + i] == e[i] by {
        assert(s.subrange(p, p + 8)[i] == s[p + i]);
    }
}

/// A key that is not empty reads back as itself.
proof fn lemma_key_at(s: Seq<u8>, p: int, k: Seq<u8>)
    requires
        0 < k.len() <= u32::MAX,
        holds_at(s, p, key_encoding(k)),
    ensures
        key_at(s, p) == Read::Value(k, p + key_encoding(k).len()),
{
    lemma_holds_split(s, p, be32_bytes(k.len() as int), k);
    lemma_be32_at(s, p, k.len() as int);
}

/// A Unicode string that was written reads back as itself, padded to 1 byte.
proof fn lemma_unicode_at(s: Seq<u8>, p: int, t: Seq<char>)
    requires
        utf16_encode(t).len() <= u32::MAX,
        holds_at(s, p, unicode_encoding(t)),
    ensures
        unicode_at(s, p, 1) == Read::Value(t, p + unicode_encoding(t).len()),
{
    let u = utf16_encode(t);
    lemma_holds_split(s, p, be32_bytes(u.len() as int), units_be_bytes(u));
    lemma_be32_at(s, p, u.len() as int);
    assert(s.subrange(p + 4, p + 4 + 2 * u.len()) == units_be_bytes(u));
    lemma_units_round_trip(u);
    lemma_utf16_round_trip(t);
    assert(unicode_units(s, p) == u);
}

/// A Unicode string of an even number of code units that was written reads
/// back as itself where it is read padded to 4 bytes.
proof fn lemma_unicode_at_padded(s: Seq<u8>, p: int, t: Seq<char>)
    requires
        utf16_encode(t).len() <= u32::MAX,
        utf16_encode(t).len() % 2 == 0,
        holds_at(s, p, unicode_encoding(t)),
    ensures
        unicode_at(s, p, 4) == Read::Value(t, p + unicode_encoding(t).len()),
{
    lemma_unicode_at(s, p, t);
    let k = utf16_encode(t).len() as int;
    assert((4 + 2 * k) % 4 == 0);
    assert(pad_len(4 + 2 * k, 4) == 0);
}

/// A class that was written reads back as its name and id.
proof fn lemma_class_at(s: Seq<u8>, p: int, n: Seq<char>, c: Seq<u8>)
    requires
        plain_class(n, c),
        holds_at(s, p, unicode_encoding(n) + key_encoding(c)),
    ensures
        class_at(s, p) == Read::Value(
            (n, c),
            p + unicode_encoding(n).len() + key_encoding(c).len(),
        ),
{
    lemma_holds_split(s, p, unicode_encoding(n), key_encoding(c));
    lemma_unicode_at_padded(s, p, n);
    lemma_key_at(s, p + unicode_encoding(n).len(), c);
}

/// A key that reads back as itself: not empty, its UTF-8 length fits in 32
/// bits, and lossy UTF-8 decoding of its UTF-8 gives it back.
pub open spec fn plain_key(k: Seq<char>) -> bool {
    &&& 0 < encode_utf8(k).len() <= u32::MAX
    &&& utf8_lossy(encode_utf8(k)) == k
}

/// A class name and id that read back as themselves where a class is read:
/// the name has an even number of UTF-16 code units (so that its padding to
/// 4 bytes adds nothing), and the id is not empty; both lengths fit in 32
/// bits.
pub open spec fn plain_class(n: Seq<char>, c: Seq<u8>) -> bool {
    &&& utf16_encode(n).len() <= u32::MAX
    &&& utf16_encode(n).len() % 2 == 0
    &&& 0 < c.len() <= u32::MAX
}

/// A field that reads back as itself: a descriptor, a list, a unit float, a
/// double, a string, an enumerated descriptor, a boolean, an integer, a large
/// integer, an alias, a class (of the first two class types) whose name and id
/// are plain, or an empty reference; whose keys are not empty and whose
/// lengths fit in 32 bits, and so on for the fields it holds. The other kinds
/// are written in a form that reading does not take back: raw data without its
/// length, reference items without their keys, and the kinds that are read
/// only as reference items.
pub open spec fn plain_field(f: FieldView) -> bool
    decreases f,
{
    match f {
        FieldView::Descriptor(d) => plain_descriptor(d),
        FieldView::List(v) => v.len() <= u32::MAX && plain_list(v),
        _ => plain_leaf(f),
    }
}

/// A field that holds no other field and reads back as itself (see
/// `plain_field`).
#[verifier::opaque]
pub open spec fn plain_leaf(f: FieldView) -> bool {
    match f {
        FieldView::UnitFloat(_) => true,
        FieldView::Double(_) => true,
        FieldView::String(t) => utf16_encode(t).len() <= u32::MAX,
        FieldView::EnumeratedDescriptor(t, e) => 0 < t.len() <= u32::MAX && 0 < e.len()
            <= u32::MAX,
        FieldView::Boolean(_) => true,
        FieldView::LargeInteger(_) => true,
        FieldView::Integer(_) => true,
        FieldView::Alias(d) => d.len() <= u32::MAX,
        FieldView::Class(n, c) => plain_class(n, c),
        FieldView::Class2(n, c) => plain_class(n, c),
        FieldView::Reference(v) => v.len() == 0,
        _ => false,
    }
}

/// Every field of a list is plain.
pub open spec fn plain_list(v: Seq<FieldView>) -> bool
    decreases v,
{
    if v.len() == 0 {
        true
    } else {
        proof {
            assert(decreases_to!(v => v.skip(1)));
        }
        plain_field(v[0]) && plain_list(v.skip(1))
    }
}

/// Every key and field of keyed fields is plain.
pub open spec fn plain_keyed(v: Seq<(Seq<char>, FieldView)>) -> bool
    decreases v,
{
    if v.len() == 0 {
        true
    } else {
        proof {
            assert(decreases_to!(v => v.skip(1)));
            assert(decreases_to!(v => v[0]));
        }
        plain_key(v[0].0) && plain_field(v[0].1) && plain_keyed(v.skip(1))
    }
}

/// A descriptor that reads back as itself: its name's length and its class
/// id's (not empty) fit in 32 bits, its keys are distinct, and its fields
/// are plain.
pub open spec fn plain_descriptor(d: DescriptorView) -> bool
    decreases d,
{
    &&& utf16_encode(d.name).len() <= u32::MAX
    &&& 0 < d.class_id.len() <= u32::MAX
    &&& d.fields.len() <= u32::MAX
    &&& keys_distinct(d.fields)
    &&& plain_keyed(d.fields)
}

/// The fields of a list are written first to last.
proof fn lemma_list_encoding_front(v: Seq<FieldView>)
    requires
        v.len() > 0,
    ensures
        list_encoding(v) == field_encoding(v[0]) + list_encoding(v.skip(1)),
    decreases v.len(),
{
    if v.len() == 1 {
        assert(v.drop_last() =~= Seq::<FieldView>::empty());
        assert(v.skip(1) =~= Seq::<FieldView>::empty());
        assert(list_encoding(v) =~= field_encoding(v[0]) + list_encoding(v.skip(1)));
    } else {
        lemma_list_encoding_front(v.drop_last());
        assert(v.drop_last().skip(1) =~= v.skip(1).drop_last());
        assert(v.skip(1).last() == v.last());
        assert(list_encoding(v) =~= field_encoding(v[0]) + list_encoding(v.skip(1)));
    }
}

/// The keyed fields of a descriptor are written first to last.
proof fn lemma_keyed_encoding_front(v: Seq<(Seq<char>, FieldView)>)
    requires
        v.len() > 0,
    ensures
        keyed_encoding(v) == key_encoding(encode_utf8(v[0].0)) + field_encoding(v[0].1)
            + keyed_encoding(v.skip(1)),
    decreases v.len(),
{
    if v.len() == 1 {
        assert(v.drop_last() =~= Seq::<(Seq<char>, FieldView)>::empty());
        assert(v.skip(1) =~= Seq::<(Seq<char>, FieldView)>::empty());
        assert(keyed_encoding(v) =~= key_encoding(encode_utf8(v[0].0)) + field_encoding(v[0].1)
            + keyed_encoding(v.skip(1)));
    } else {
        lemma_keyed_encoding_front(v.drop_last());
        assert(v.drop_last().skip(1) =~= v.skip(1).drop_last());
        assert(v.skip(1).last() == v.last());
        assert(keyed_encoding(v) =~= key_encoding(encode_utf8(v[0].0)) + field_encoding(v[0].1)
            + keyed_encoding(v.skip(1)));
    }
}

/// A unit float that was written reads back as itself.
proof fn lemma_unit_float_rt(s: Seq<u8>, p: int, u: UnitFloatView)
    requires
        holds_at(s, p, unit_float_encoding(u)),
    ensures
        unit_float_at(s, p) == Read::Value(u, p + unit_float_encoding(u).len()),
{
    match u {
        UnitFloatView::Angle(v) => {
            lemma_holds_split(s, p, code(UNIT_FLOAT_ANGLE), be64_bytes(v as int));
            lemma_be32_at(s, p, UNIT_FLOAT_ANGLE as int);
            lemma_be64_at(s, p + 4, v as int);
        },
        UnitFloatView::Density(v) => {
            lemma_holds_split(s, p, code(UNIT_FLOAT_DENSITY), be64_bytes(v as int));
            lemma_be32_at(s, p, UNIT_FLOAT_DENSITY as int);
            lemma_be64_at(s, p + 4, v as int);
        },
        UnitFloatView::Distance(v) => {
            lemma_holds_split(s, p, code(UNIT_FLOAT_DISTANCE), be64_bytes(v as int));
            lemma_be32_at(s, p, UNIT_FLOAT_DISTANCE as int);
            lemma_be64_at(s, p + 4, v as int);
        },
        UnitFloatView::Unitless => {
            assert(unit_float_encoding(u) == code(UNIT_FLOAT_NONE));
            lemma_be32_at(s, p, UNIT_FLOAT_NONE as int);
        },
        UnitFloatView::Percent(v) => {
            lemma_holds_split(s, p, code(UNIT_FLOAT_PERCENT), be64_bytes(v as int));
            lemma_be32_at(s, p, UNIT_FLOAT_PERCENT as int);
            lemma_be64_at(s, p + 4, v as int);
        },
        UnitFloatView::Pixels(v) => {
            lemma_holds_split(s, p, code(UNIT_FLOAT_PIXELS), be64_bytes(v as int));
            lemma_be32_at(s, p, UNIT_FLOAT_PIXELS as int);
            lemma_be64_at(s, p + 4, v as int);
        },
    }
}

/// A 32-bit integer's two's complement bits read back as the integer.
proof fn lemma_signed32_rt(v: i32)
    ensures
        0 <= (v as int) % 0x1_0000_0000 <= u32::MAX,
        signed32((v as int) % 0x1_0000_0000) == v,
{
}

/// A 64-bit integer's two's complement bits read back as the integer.
proof fn lemma_signed64_rt(v: i64)
    ensures
        0 <= (v as int) % 0x1_0000_0000_0000_0000 <= u64::MAX,
        signed64((v as int) % 0x1_0000_0000_0000_0000) == v,
{
}

/// A plain field of a kind that holds a fixed value reads back as itself.
#[verifier::spinoff_prover]
proof fn lemma_leaf_value_rt(s: Seq<u8>, p: int, f: FieldView)
    requires
        plain_field(f),
        !(f is Descriptor),
        !(f is List),
        !(f is Alias),
        !(f is Class),
        !(f is Class2),
        !(f is Reference),
        holds_at(s, p, field_encoding(f)),
    ensures
        field_at(s, p) == Read::Value(f, p + field_encoding(f).len()),
{
    reveal(crate::descriptor_read::leaf_field_at);
    reveal(plain_leaf);
    let q = p + 4;
    match f {
        FieldView::UnitFloat(u) => {
            lemma_holds_split(s, p, code(OS_TYPE_UNIT_FLOAT), unit_float_encoding(u));
            lemma_be32_at(s, p, OS_TYPE_UNIT_FLOAT as int);
            lemma_unit_float_rt(s, q, u);
        },
        FieldView::Double(v) => {
            lemma_holds_split(s, p, code(OS_TYPE_DOUBLE), be64_bytes(v as int));
            lemma_be32_at(s, p, OS_TYPE_DOUBLE as int);
            lemma_be64_at(s, q, v as int);
        },
        FieldView::String(t) => {
            lemma_holds_split(s, p, code(OS_TYPE_TEXT), unicode_encoding(t));
            lemma_be32_at(s, p, OS_TYPE_TEXT as int);
            lemma_unicode_at(s, q, t);
        },
        FieldView::EnumeratedDescriptor(t, e) => {
            lemma_holds_split(s, p, code(OS_TYPE_ENUMERATED) + key_encoding(t), key_encoding(e));
            lemma_holds_split(s, p, code(OS_TYPE_ENUMERATED), key_encoding(t));
            lemma_be32_at(s, p, OS_TYPE_ENUMERATED as int);
            lemma_key_at(s, q, t);
            lemma_key_at(s, q + key_encoding(t).len(), e);
        },
        FieldView::Boolean(b) => {
            lemma_holds_split(s, p, code(OS_TYPE_BOOL), seq![if b { 1u8 } else { 0u8 }]);
            lemma_be32_at(s, p, OS_TYPE_BOOL as int);
            assert(s.subrange(q, q + 1)[0] == s[q]);
        },
        FieldView::LargeInteger(v) => {
            lemma_signed64_rt(v);
            lemma_holds_split(
                s,
                p,
                code(OS_TYPE_LARGE_INTEGER),
                be64_bytes((v as int) % 0x1_0000_0000_0000_0000),
            );
            lemma_be32_at(s, p, OS_TYPE_LARGE_INTEGER as int);
            lemma_be64_at(s, q, (v as int) % 0x1_0000_0000_0000_0000);
        },
        FieldView::Integer(v) => {
            lemma_signed32_rt(v);
            crate::buffer::lemma_be32_mod(v as int);
            lemma_holds_split(s, p, code(OS_TYPE_INTEGER), be32_bytes(v as int));
            lemma_be32_at(s, p, OS_TYPE_INTEGER as int);
            lemma_be32_at(s, q, (v as int) % 0x1_0000_0000);
        },
        _ => {},
    }
}

/// An alias whose length fits in 32 bits reads back as itself.
#[verifier::spinoff_prover]
proof fn lemma_alias_rt(s: Seq<u8>, p: int, d: Seq<u8>)
    requires
        d.len() <= u32::MAX,
        holds_at(s, p, field_encoding(FieldView::Alias(d))),
    ensures
        field_at(s, p) == Read::Value(
            FieldView::Alias(d),
            p + field_encoding(FieldView::Alias(d)).len(),
        ),
{
    reveal(crate::descriptor_read::leaf_field_at);
    let q = p + 4;
    lemma_holds_split(s, p, code(OS_TYPE_ALIAS), be32_bytes(d.len() as int) + d);
    lemma_holds_split(s, q, be32_bytes(d.len() as int), d);
    lemma_be32_at(s, p, OS_TYPE_ALIAS as int);
    lemma_be32_at(s, q, d.len() as int);
}

/// Where a class is read at `q`, a field of a class type is read there as
/// that class.
#[verifier::spinoff_prover]
proof fn lemma_leaf_class(s: Seq<u8>, q: int, n: Seq<char>, c: Seq<u8>, e: int)
    requires
        class_at(s, q) == Read::Value((n, c), e),
    ensures
        leaf_field_at(s, OS_TYPE_CLASS as int, q) == Read::Value(FieldView::Class(n, c), e),
        leaf_field_at(s, OS_TYPE_CLASS2 as int, q) == Read::Value(FieldView::Class2(n, c), e),
{
    reveal(crate::descriptor_read::leaf_field_at);
}

/// A class field whose name and id are plain reads back as itself.
proof fn lemma_class_field_rt(s: Seq<u8>, p: int, n: Seq<char>, c: Seq<u8>)
    requires
        plain_class(n, c),
        holds_at(s, p, field_encoding(FieldView::Class(n, c))),
    ensures
        field_at(s, p) == Read::Value(
            FieldView::Class(n, c),
            p + field_encoding(FieldView::Class(n, c)).len(),
        ),
{
    assert(field_encoding(FieldView::Class(n, c)) =~= code(OS_TYPE_CLASS) + (unicode_encoding(n)
        + key_encoding(c)));
    lemma_holds_split(s, p, code(OS_TYPE_CLASS), unicode_encoding(n) + key_encoding(c));
    lemma_be32_at(s, p, OS_TYPE_CLASS as int);
    lemma_class_at(s, p + 4, n, c);
    lemma_leaf_class(s, p + 4, n, c, p + field_encoding(FieldView::Class(n, c)).len());
}

/// A field of the second class type whose name and id are plain reads back
/// as itself.
proof fn lemma_class2_field_rt(s: Seq<u8>, p: int, n: Seq<char>, c: Seq<u8>)
    requires
        plain_class(n, c),
        holds_at(s, p, field_encoding(FieldView::Class2(n, c))),
    ensures
        field_at(s, p) == Read::Value(
            FieldView::Class2(n, c),
            p + field_encoding(FieldView::Class2(n, c)).len(),
        ),
{
    assert(field_encoding(FieldView::Class2(n, c)) =~= code(OS_TYPE_CLASS2) + (unicode_encoding(n)
        + key_encoding(c)));
    lemma_holds_split(s, p, code(OS_TYPE_CLASS2), unicode_encoding(n) + key_encoding(c));
    lemma_be32_at(s, p, OS_TYPE_CLASS2 as int);
    lemma_class_at(s, p + 4, n, c);
    lemma_leaf_class(s, p + 4, n, c, p + field_encoding(FieldView::Class2(n, c)).len());
}

/// An empty reference reads back as itself.
#[verifier::spinoff_prover]
proof fn lemma_empty_reference_rt(s: Seq<u8>, p: int, v: Seq<FieldView>)
    requires
        v.len() == 0,
        holds_at(s, p, field_encoding(FieldView::Reference(v))),
    ensures
        field_at(s, p) == Read::Value(
            FieldView::Reference(v),
            p + field_encoding(FieldView::Reference(v)).len(),
        ),
{
    reveal(crate::descriptor_read::leaf_field_at);
    assert(list_encoding(v) =~= Seq::<u8>::empty());
    assert(field_encoding(FieldView::Reference(v)) =~= code(OS_TYPE_REFERENCE) + be32_bytes(0));
    lemma_holds_split(s, p, code(OS_TYPE_REFERENCE), be32_bytes(0));
    lemma_be32_at(s, p, OS_TYPE_REFERENCE as int);
    lemma_be32_at(s, p + 4, 0);
    assert(v =~= Seq::<FieldView>::empty());
}

/// A plain alias, class or empty reference reads back as itself.
proof fn lemma_leaf_named_rt(s: Seq<u8>, p: int, f: FieldView)
    requires
        plain_field(f),
        f is Alias || f is Class || f is Class2 || f is Reference,
        holds_at(s, p, field_encoding(f)),
    ensures
        field_at(s, p) == Read::Value(f, p + field_encoding(f).len()),
{
    reveal(plain_leaf);
    match f {
        FieldView::Alias(d) => lemma_alias_rt(s, p, d),
        FieldView::Class(n, c) => lemma_class_field_rt(s, p, n, c),
        FieldView::Class2(n, c) => lemma_class2_field_rt(s, p, n, c),
        FieldView::Reference(v) => lemma_empty_reference_rt(s, p, v),
        _ => {},
    }
}

/// A plain field that holds no other field reads back as itself.
proof fn lemma_leaf_rt(s: Seq<u8>, p: int, f: FieldView)
    requires
        plain_field(f),
        !(f is Descriptor),
        !(f is List),
        holds_at(s, p, field_encoding(f)),
    ensures
        field_at(s, p) == Read::Value(f, p + field_encoding(f).len()),
{
    if f is Alias || f is Class || f is Class2 || f is Reference {
        lemma_leaf_named_rt(s, p, f);
    } else {
        lemma_leaf_value_rt(s, p, f);
    }
}

/// A plain field that was written reads back as itself.
#[verifier::rlimit(40)]
proof fn lemma_field_rt(s: Seq<u8>, p: int, f: FieldView)
    requires
        plain_field(f),
        holds_at(s, p, field_encoding(f)),
    ensures
        field_at(s, p) == Read::Value(f, p + field_encoding(f).len()),
    decreases f,
{
    match f {
        FieldView::Descriptor(d) => {
            lemma_holds_split(s, p, code(OS_TYPE_DESCRIPTOR), descriptor_encoding(d));
            lemma_be32_at(s, p, OS_TYPE_DESCRIPTOR as int);
            lemma_descriptor_rt(s, p + 4, d);
        },
        FieldView::List(v) => {
            lemma_holds_split(
                s,
                p,
                code(OS_TYPE_LIST) + be32_bytes(v.len() as int),
                list_encoding(v),
            );
            lemma_holds_split(s, p, code(OS_TYPE_LIST), be32_bytes(v.len() as int));
            lemma_be32_at(s, p, OS_TYPE_LIST as int);
            lemma_be32_at(s, p + 4, v.len() as int);
            lemma_list_rt(s, p + 8, v, Seq::empty());
            assert(Seq::<FieldView>::empty() + v =~= v);
        },
        _ => {
            lemma_leaf_rt(s, p, f);
        },
    }
}

/// The plain fields of a list that were written read back as themselves,
/// after those in `acc`.
#[verifier::spinoff_prover]
proof fn lemma_list_rt(s: Seq<u8>, p: int, v: Seq<FieldView>, acc: Seq<FieldView>)
    requires
        plain_list(v),
        holds_at(s, p, list_encoding(v)),
    ensures
        list_items_at(s, p, v.len(), acc) == Read::Value(acc + v, p + list_encoding(v).len()),
    decreases v,
{
    if v.len() == 0 {
        assert(acc + v =~= acc);
    } else {
        lemma_list_encoding_front(v);
        lemma_holds_split(s, p, field_encoding(v[0]), list_encoding(v.skip(1)));
        assert(decreases_to!(v => v[0]));
        lemma_field_rt(s, p, v[0]);
        assert(field_encoding(v[0]).len() >= 4);
        assert(decreases_to!(v => v.skip(1)));
        let e = p + field_encoding(v[0]).len();
        lemma_list_rt(s, e, v.skip(1), acc.push(v[0]));
        assert(acc.push(v[0]) + v.skip(1) =~= acc + v);
        assert((v.len() - 1) as nat == v.skip(1).len());
    }
}

/// The plain keyed fields of a descriptor that were written read back as
/// themselves, after those in `acc`, where no two keys are the same.
#[verifier::spinoff_prover]
proof fn lemma_keyed_rt(
    s: Seq<u8>,
    p: int,
    v: Seq<(Seq<char>, FieldView)>,
    acc: Seq<(Seq<char>, FieldView)>,
)
    requires
        plain_keyed(v),
        keys_distinct(acc + v),
        holds_at(s, p, keyed_encoding(v)),
    ensures
        keyed_items_at(s, p, v.len(), acc) == Read::Value(acc + v, p + keyed_encoding(v).len()),
    decreases v,
{
    if v.len() == 0 {
        assert(acc + v =~= acc);
    } else {
        let k = v[0].0;
        let f = v[0].1;
        lemma_keyed_encoding_front(v);
        lemma_holds_split(
            s,
            p,
            key_encoding(encode_utf8(k)) + field_encoding(f),
            keyed_encoding(v.skip(1)),
        );
        lemma_holds_split(s, p, key_encoding(encode_utf8(k)), field_encoding(f));
        lemma_key_at(s, p, encode_utf8(k));
        let q = p + key_encoding(encode_utf8(k)).len();
        assert(decreases_to!(v => v[0]));
        assert(decreases_to!(v[0] => v[0].1));
        lemma_field_rt(s, q, f);
        assert forall|i: int| 0 <= i < acc.len() implies acc[i].0 != k by {
            assert((acc + v)[i] == acc[i]);
            assert((acc + v)[acc.len() as int] == v[0]);
        }
        crate::descriptor_read::lemma_keyed_insert_new(acc, k, f);
        let e = q + field_encoding(f).len();
        assert(acc.push((k, f)) + v.skip(1) =~= acc + v);
        assert(decreases_to!(v => v.skip(1)));
        lemma_keyed_rt(s, e, v.skip(1), acc.push((k, f)));
        assert((v.len() - 1) as nat == v.skip(1).len());
    }
}

/// A plain descriptor that was written reads back as itself.
proof fn lemma_descriptor_rt(s: Seq<u8>, p: int, d: DescriptorView)
    requires
        plain_descriptor(d),
        holds_at(s, p, descriptor_encoding(d)),
    ensures
        descriptor_at(s, p) == Read::Value(d, p + descriptor_encoding(d).len()),
    decreases d,
{
    let name = unicode_encoding(d.name);
    let class = key_encoding(d.class_id);
    let count = be32_bytes(d.fields.len() as int);
    let fields = keyed_encoding(d.fields);
    assert(descriptor_encoding(d) == name + class + count + fields);
    lemma_holds_split(s, p, name + class + count, fields);
    lemma_holds_split(s, p, name + class, count);
    lemma_holds_split(s, p, name, class);
    lemma_unicode_at(s, p, d.name);
    lemma_key_at(s, p + name.len(), d.class_id);
    let r = p + name.len() + class.len();
    lemma_be32_at(s, r, d.fields.len() as int);
    assert(decreases_to!(d => d.fields));
    assert(Seq::<(Seq<char>, FieldView)>::empty() + d.fields =~= d.fields);
    lemma_keyed_rt(s, r + 4, d.fields, Seq::empty());
}

/// Reading the bytes that writing a descriptor gives, where the descriptor
/// is plain (its fields are of the kinds that are read the way they are
/// written, its keys are distinct and read back as themselves, and its ids
/// are not empty), gives back the descriptor and ends where the bytes do,
/// whatever bytes come after them.
pub proof fn lemma_descriptor_round_trip(d: DescriptorView, rest: Seq<u8>)
    requires
        plain_descriptor(d),
    ensures
        descriptor_at(descriptor_encoding(d) + rest, 0) == Read::Value(
            d,
            descriptor_encoding(d).len() as int,
        ),
{
    let s = descriptor_encoding(d) + rest;
    assert(s.subrange(0, descriptor_encoding(d).len() as int) =~= descriptor_encoding(d));
    lemma_descriptor_rt(s, 0, d);
}

/// Slices that read back as themselves: one plain descriptor (versions 7
/// and 8), or a name and slices none of which has a descriptor (version 6,
/// whose slices are written without the fields that reading looks for a
/// descriptor after); with lengths that fit in 32 bits.
pub open spec fn plain_slices(v: SlicesView) -> bool {
    &&& padded_even(slices_encoding(v)).len() <= u32::MAX
    &&& match v {
        SlicesView::V7_8(d) => plain_descriptor(d),
        SlicesView::V6(name, blocks) => {
            &&& utf16_encode(name).len() <= u32::MAX
            &&& blocks.len() <= u32::MAX
            &&& no_descriptors(blocks)
        },
    }
}

/// No slice has a descriptor.
pub open spec fn no_descriptors(blocks: Seq<Option<DescriptorView>>) -> bool {
    forall|i: int| 0 <= i < blocks.len() ==> #[trigger] blocks[i] is None
}

/// A resource that reads back as itself: plain slices.
pub open spec fn plain_resource(r: ResourceView) -> bool {
    match r {
        ResourceView::Slices(v) => plain_slices(v),
    }
}

/// Every resource is plain.
pub open spec fn plain_resources(v: Seq<ResourceView>) -> bool {
    forall|i: int| 0 <= i < v.len() ==> #[trigger] plain_resource(v[i])
}

/// Resources are written first to last.
proof fn lemma_resources_encoding_front(v: Seq<ResourceView>)
    requires
        v.len() > 0,
    ensures
        resources_encoding(v) == resource_encoding(v[0]) + resources_encoding(v.skip(1)),
    decreases v.len(),
{
    if v.len() == 1 {
        assert(v.drop_last() =~= Seq::<ResourceView>::empty());
        assert(v.skip(1) =~= Seq::<ResourceView>::empty());
        assert(resources_encoding(v) =~= resource_encoding(v[0]) + resources_encoding(v.skip(1)));
    } else {
        lemma_resources_encoding_front(v.drop_last());
        assert(v.drop_last().skip(1) =~= v.skip(1).drop_last());
        assert(v.skip(1).last() == v.last());
        assert(resources_encoding(v) =~= resource_encoding(v[0]) + resources_encoding(v.skip(1)));
    }
}

/// Four bytes held at `p` are read there as they are read on their own.
proof fn lemma_be32_held(s: Seq<u8>, p: int, b: Seq<u8>)
    requires
        b.len() == 4,
        holds_at(s, p, b),
    ensures
        be32(s, p) == be32(b, 0),
{
    let t = s.subrange(p, p + 4);
    assert(t[0] == s[p] && t[1] == s[p + 1] && t[2] == s[p + 2] && t[3] == s[p + 3]);
}

/// The head of a slices block that was written reads back as the block's
/// id and the bounds of its data.
proof fn lemma_block_head_rt(s: Seq<u8>, p: int, len_bytes: Seq<u8>, data: Seq<u8>)
    requires
        data.len() % 2 == 0,
        data.len() <= u32::MAX,
        len_bytes.len() == 4,
        be32(len_bytes, 0) == data.len(),
        holds_at(
            s,
            p,
            be32_bytes(EXPECTED_RESOURCE_BLOCK_SIGNATURE as int) + seq![4u8, 26u8, 0u8, 0u8]
                + len_bytes + data,
        ),
    ensures
        block_at(s, p) == Some(
            Ok::<(int, int, int), ImageResourcesSectionError>(
                (RESOURCE_SLICES_INFO as int, p + 12, p + 12 + data.len()),
            ),
        ),
{
    let sig = be32_bytes(EXPECTED_RESOURCE_BLOCK_SIGNATURE as int);
    let id = seq![4u8, 26u8, 0u8, 0u8];
    lemma_holds_split(s, p, sig + id + len_bytes, data);
    lemma_holds_split(s, p, sig + id, len_bytes);
    lemma_holds_split(s, p, sig, id);
    assert(sig =~= seq![0x38u8, 0x42u8, 0x49u8, 0x4du8]);
    lemma_be32_held(s, p, sig);
    lemma_be32_held(s, p + 8, len_bytes);
    assert(s[p + 4] == 4 && s[p + 5] == 26 && s[p + 6] == 0) by {
        let t = s.subrange(p + 4, p + 8);
        assert(t[0] == s[p + 4] && t[1] == s[p + 5] && t[2] == s[p + 6]);
    }
}

/// Slices of version 7 that were written, with a plain descriptor, read
/// back as themselves.
proof fn lemma_slices_v7_8_rt(t: Seq<u8>, d: DescriptorView)
    requires
        plain_descriptor(d),
        holds_at(t, 0, slices_encoding(SlicesView::V7_8(d))),
    ensures
        slices_at(t) == Read::Value(
            SlicesView::V7_8(d),
            slices_encoding(SlicesView::V7_8(d)).len() as int,
        ),
{
    lemma_slices_v7_8_encoding(d);
    let v7 = be32_bytes(7) + be32_bytes(EXPECTED_DESCRIPTOR_VERSION as int);
    lemma_holds_split(t, 0, v7, descriptor_encoding(d));
    lemma_holds_split(t, 0, be32_bytes(7), be32_bytes(EXPECTED_DESCRIPTOR_VERSION as int));
    lemma_be32_at(t, 0, 7);
    lemma_be32_at(t, 4, EXPECTED_DESCRIPTOR_VERSION as int);
    lemma_descriptor_rt(t, 8, d);
}

/// Slices of version 6 without descriptors are written as 73 zero bytes
/// each.
proof fn lemma_none_blocks_encoding(blocks: Seq<Option<DescriptorView>>)
    requires
        no_descriptors(blocks),
    ensures
        slices_blocks_encoding(blocks) == Seq::new((73 * blocks.len()) as nat, |i: int| 0u8),
    decreases blocks.len(),
{
    if blocks.len() > 0 {
        let rest = blocks.drop_last();
        assert(no_descriptors(rest)) by {
            assert forall|i: int| 0 <= i < rest.len() implies #[trigger] rest[i] is None by {
                assert(rest[i] == blocks[i]);
            }
        }
        lemma_none_blocks_encoding(rest);
        assert(blocks.last() is None);
        assert(slices_block_encoding(blocks.last()) =~= Seq::new(73, |i: int| 0u8));
        assert(slices_blocks_encoding(blocks) =~= Seq::new(
            (73 * blocks.len()) as nat,
            |i: int| 0u8,
        ));
    }
}

/// An empty Unicode string is read from four zero bytes.
proof fn lemma_empty_unicode_at(s: Seq<u8>, k: int)
    requires
        0 <= k,
        k + 4 <= s.len(),
        s[k] == 0 && s[k + 1] == 0 && s[k + 2] == 0 && s[k + 3] == 0,
    ensures
        unicode_at(s, k, 1) == Read::Value(Seq::<char>::empty(), k + 4),
{
    assert(be32(s, k) == 0);
    assert(unicode_units(s, k) =~= Seq::<u16>::empty());
    assert(utf16_decode(Seq::<u16>::empty()) =~= Seq::<char>::empty());
}

/// A slice of the version 6 layout written without a descriptor (73 zero
/// bytes) reads as a slice without one.
#[verifier::spinoff_prover]
proof fn lemma_zero_slice_block(s: Seq<u8>)
    requires
        73 <= s.len(),
        forall|i: int| 0 <= i < 73 ==> s[i] == 0,
    ensures
        slices_block_at(s) == Read::<Option<DescriptorView>>::Value(None, 69),
{
    reveal(slices_block_at);
    assert(be32(s, 8) == 0);
    lemma_empty_unicode_at(s, 12);
    lemma_empty_unicode_at(s, 36);
    lemma_empty_unicode_at(s, 40);
    lemma_empty_unicode_at(s, 44);
    lemma_empty_unicode_at(s, 48);
    lemma_empty_unicode_at(s, 53);
    assert(slice_fields_end(s, 16) == Read::Value((), 69));
    assert(be32(s, 69) == 0);
}

/// Slices of version 6 without descriptors that were written read back as
/// themselves.
#[verifier::spinoff_prover]
proof fn lemma_slices_v6_rt(t: Seq<u8>, name: Seq<char>, blocks: Seq<Option<DescriptorView>>)
    requires
        plain_slices(SlicesView::V6(name, blocks)),
        holds_at(t, 0, slices_encoding(SlicesView::V6(name, blocks))),
    ensures
        slices_at(t) matches Read::Value(v, _) && v == SlicesView::V6(name, blocks),
{
    lemma_slices_v6_encoding(name, blocks);
    let zeros16 = Seq::new(16, |i: int| 0u8);
    let head = be32_bytes(6) + zeros16;
    let count = be32_bytes(blocks.len() as int);
    let body = slices_blocks_encoding(blocks);
    lemma_holds_split(t, 0, head + unicode_encoding(name) + count, body);
    lemma_holds_split(t, 0, head + unicode_encoding(name), count);
    lemma_holds_split(t, 0, head, unicode_encoding(name));
    lemma_holds_split(t, 0, be32_bytes(6), zeros16);
    lemma_be32_at(t, 0, 6);
    lemma_unicode_at(t, 20, name);
    let q = 20 + unicode_encoding(name).len() as int;
    lemma_be32_at(t, q, blocks.len() as int);
    if blocks.len() > 0 {
        lemma_none_blocks_encoding(blocks);
        let rest = t.subrange(q + 4, t.len() as int);
        assert forall|i: int| 0 <= i < 73 implies rest[i] == 0 by {
            assert(t.subrange(q + 4, q + 4 + body.len())[i] == t[q + 4 + i]);
            assert(body[i] == 0);
        }
        lemma_zero_slice_block(rest);
        assert(Seq::new(blocks.len(), |i: int| None::<DescriptorView>) =~= blocks) by {
            assert forall|i: int| 0 <= i < blocks.len() implies blocks[i] == None::<
                DescriptorView,
            > by {
                assert(blocks[i] is None);
            }
        }
    } else {
        assert(blocks =~= Seq::<Option<DescriptorView>>::empty());
    }
}

/// The data of a slices resource that was written, padded to even size,
/// read back as the slices.
proof fn lemma_padded_slices_rt(t: Seq<u8>, v: SlicesView)
    requires
        plain_slices(v),
        t == padded_even(slices_encoding(v)),
    ensures
        slices_at(t) matches Read::Value(w, _) && w == v,
{
    let enc = slices_encoding(v);
    let zeros = Seq::new(pad_len(enc.len() as int, 2) as nat, |i: int| 0u8);
    assert(t == enc + zeros);
    assert(t.subrange(0, t.len() as int) =~= t);
    lemma_holds_split(t, 0, enc, zeros);
    match v {
        SlicesView::V7_8(d) => lemma_slices_v7_8_rt(t, d),
        SlicesView::V6(name, blocks) => lemma_slices_v6_rt(t, name, blocks),
    }
}

/// A resource as written: its head, the length of its data, then its data,
/// padded to even size.
proof fn lemma_resource_layout(r: ResourceView, v: SlicesView)
    requires
        r == ResourceView::Slices(v),
    ensures
        padded_even(slices_encoding(v)).len() % 2 == 0,
        resource_encoding(r) == be32_bytes(EXPECTED_RESOURCE_BLOCK_SIGNATURE as int) + seq![
            4u8,
            26u8,
            0u8,
            0u8,
        ] + be32_bytes(padded_even(slices_encoding(v)).len() as int) + padded_even(
            slices_encoding(v),
        ),
{
    let sig = be32_bytes(EXPECTED_RESOURCE_BLOCK_SIGNATURE as int);
    assert(pascal_encoding(Seq::<u8>::empty()) =~= seq![0u8, 0u8]);
    assert(sig + seq![4u8, 26u8] + pascal_encoding(Seq::empty()) =~= sig + seq![
        4u8,
        26u8,
        0u8,
        0u8,
    ]);
}

/// A plain resource that was written reads back as a block of slices whose
/// data read back as the slices.
proof fn lemma_resource_rt(s: Seq<u8>, p: int, r: ResourceView)
    requires
        plain_resource(r),
        holds_at(s, p, resource_encoding(r)),
    ensures
        block_at(s, p) == Some(
            Ok::<(int, int, int), ImageResourcesSectionError>(
                (RESOURCE_SLICES_INFO as int, p + 12, p + resource_encoding(r).len()),
            ),
        ),
        slices_at(s.subrange(p + 12, p + resource_encoding(r).len())) matches Read::Value(v, _)
            && ResourceView::Slices(v) == r,
        resource_encoding(r).len() >= 12,
{
    let ResourceView::Slices(sv) = r;
    let data = padded_even(slices_encoding(sv));
    lemma_resource_layout(r, sv);
    let len_bytes = be32_bytes(data.len() as int);
    lemma_be32_round_trip(data.len() as int);
    lemma_block_head_rt(s, p, len_bytes, data);
    let head = be32_bytes(EXPECTED_RESOURCE_BLOCK_SIGNATURE as int) + seq![4u8, 26u8, 0u8, 0u8]
        + len_bytes;
    lemma_holds_split(s, p, head, data);
    lemma_padded_slices_rt(s.subrange(p + 12, p + 12 + data.len()), sv);
}

/// Plain resources that were written, after those in `acc`, read back as
/// themselves, up to the end of a section of `length` bytes after its
/// length field.
proof fn lemma_resources_rt(
    s: Seq<u8>,
    p: int,
    length: int,
    v: Seq<ResourceView>,
    acc: Seq<ResourceView>,
)
    requires
        plain_resources(v),
        holds_at(s, p, resources_encoding(v)),
        p + resources_encoding(v).len() == length + 4,
    ensures
        blocks_at(s, p, length, acc) == Some(
            Ok::<Seq<ResourceView>, ImageResourcesSectionError>(acc + v),
        ),
    decreases v.len(),
{
    if v.len() == 0 {
        assert(acc + v =~= acc);
    } else {
        lemma_resources_encoding_front(v);
        lemma_holds_split(s, p, resource_encoding(v[0]), resources_encoding(v.skip(1)));
        assert(plain_resource(v[0]));
        lemma_resource_rt(s, p, v[0]);
        let e = p + resource_encoding(v[0]).len();
        assert(plain_resources(v.skip(1))) by {
            assert forall|i: int| 0 <= i < v.skip(1).len() implies #[trigger] plain_resource(v.skip(1)[i]) by {
                assert(v.skip(1)[i] == v[i + 1]);
                assert(plain_resource(v[i + 1]));
            }
        }
        lemma_resources_rt(s, e, length, v.skip(1), acc.push(v[0]));
        assert(acc.push(v[0]) + v.skip(1) =~= acc + v);
    }
}

/// Reading the bytes that writing an image resources section gives, where
/// every resource is plain slices (one plain descriptor, of version 7 or 8;
/// or, of version 6, slices none of which has a descriptor) and the section's
/// length fits in 32 bits, gives back the resources.
#[verifier::rlimit(40)]
pub proof fn lemma_image_resources_round_trip(v: Seq<ResourceView>)
    requires
        plain_resources(v),
        resources_encoding(v).len() <= u32::MAX,
    ensures
        image_resources_from_bytes(section_encoding(v)) == Some(
            Ok::<Seq<ResourceView>, ImageResourcesSectionError>(v),
        ),
{
    let r = resources_encoding(v);
    let s = section_encoding(v);
    let len_bytes = be32_bytes(r.len() as int);
    lemma_be32_round_trip(r.len() as int);
    assert(s.subrange(0, s.len() as int) =~= s);
    lemma_holds_split(s, 0, len_bytes, r);
    lemma_be32_held(s, 0, len_bytes);
    lemma_resources_rt(s, 4, r.len() as int, v, Seq::empty());
    assert(Seq::<ResourceView>::empty() + v =~= v);
}

} // verus!
