//! Descriptor structures: the typed key-value trees that image resources such
//! as slices are stored in.
use vstd::prelude::*;
use vstd::string::StringSliceAdditionalSpecFns;
use vstd::utf8::encode_utf8;

use crate::buffer::{be32_bytes, be64_bytes, lemma_be32_mod, unicode_encoding, PsdBuffer, PsdSerialize};

verus! {

/// Property structure: a name, a class id and a key id.
#[derive(Debug)]
pub struct PropertyStructure {
    pub name: String,
    pub class_id: Vec<u8>,
    pub key_id: Vec<u8>,
}

/// A float with a unit. Each value is the bit pattern of an IEEE 754 double.
#[derive(Debug)]
pub enum UnitFloatStructure {
    /// Base degrees
    Angle(u64),
    /// Base per inch
    Density(u64),
    /// Base 72ppi
    Distance(u64),
    /// Base coerced ("#Nne", none)
    Unitless,
    /// Unit value
    Percent(u64),
    /// Tagged unit value
    Pixels(u64),
}

/// Class structure: a name and a class id.
#[derive(Debug)]
pub struct ClassStructure {
    pub name: String,
    pub class_id: Vec<u8>,
}

/// Enumerated reference: a name, a class id, a key id and an enum.
#[derive(Debug)]
pub struct EnumeratedReference {
    pub name: String,
    pub class_id: Vec<u8>,
    pub key_id: Vec<u8>,
    pub enum_field: Vec<u8>,
}

/// Offset structure: a name, a class id and the value of the offset.
#[derive(Debug)]
pub struct OffsetStructure {
    pub name: String,
    pub class_id: Vec<u8>,
    pub offset: u32,
}

/// Alias structure: the bytes of a path.
#[derive(Debug)]
pub struct AliasStructure {
    pub data: Vec<u8>,
}

/// Enumerated descriptor: a type and an enum.
#[derive(Debug)]
pub struct EnumeratedDescriptor {
    pub type_field: Vec<u8>,
    pub enum_field: Vec<u8>,
}

/// Name structure: a name, a class id and a value.
#[derive(Debug)]
pub struct NameStructure {
    pub name: String,
    pub class_id: Vec<u8>,
    pub value: String,
}

/// A descriptor: a name, a class id and fields by key. No two fields have
/// the same key (a later field replaces an earlier one with its key).
#[derive(Debug)]
pub struct DescriptorStructure {
    pub name: String,
    pub fields: Vec<(String, DescriptorField)>,
    pub class_id: Vec<u8>,
}

/// One field of a descriptor or of a list. A double's value is the bit
/// pattern of an IEEE 754 double.
#[derive(Debug)]
pub enum DescriptorField {
    /// Descriptor as field
    Descriptor(DescriptorStructure),
    /// A list of special fields: Property, Identifier, Index, Name fields
    Reference(Vec<DescriptorField>),
    /// Float field with unit
    UnitFloat(UnitFloatStructure),
    /// Double-precision floating-point number, as its bits
    Double(u64),
    Class(ClassStructure),
    Class2(ClassStructure),
    Class3(ClassStructure),
    /// Text
    String(String),
    EnumeratedReference(EnumeratedReference),
    Offset(OffsetStructure),
    /// Boolean value
    Boolean(bool),
    Alias(AliasStructure),
    /// A list of fields
    List(Vec<DescriptorField>),
    /// 64bit integer number
    LargeInteger(i64),
    /// 32bit integer number
    Integer(i32),
    EnumeratedDescriptor(EnumeratedDescriptor),
    /// Raw bytes data
    RawData(Vec<u8>),
    Property(PropertyStructure),
    Identifier(i32),
    Index(i32),
    Name(NameStructure),
}

/// A malformed descriptor
#[derive(Debug, PartialEq, Eq, Structural)]
pub enum ImageResourcesDescriptorError {
    /// A field's OSType key is not one that a descriptor uses.
    InvalidTypeOS {},
    /// A unit float's unit is not one that a descriptor uses.
    InvalidUnitName {},
}

/// A unit float as a mathematical value.
pub enum UnitFloatView {
    Angle(u64),
    Density(u64),
    Distance(u64),
    Unitless,
    Percent(u64),
    Pixels(u64),
}

/// A descriptor as a mathematical value.
pub struct DescriptorView {
    pub name: Seq<char>,
    pub fields: Seq<(Seq<char>, FieldView)>,
    pub class_id: Seq<u8>,
}

/// A descriptor field as a mathematical value. Structures of a name and keys
/// become the name and the keys, in order.
pub enum FieldView {
    Descriptor(DescriptorView),
    Reference(Seq<FieldView>),
    UnitFloat(UnitFloatView),
    Double(u64),
    Class(Seq<char>, Seq<u8>),
    Class2(Seq<char>, Seq<u8>),
    Class3(Seq<char>, Seq<u8>),
    String(Seq<char>),
    EnumeratedReference(Seq<char>, Seq<u8>, Seq<u8>, Seq<u8>),
    Offset(Seq<char>, Seq<u8>, u32),
    Boolean(bool),
    Alias(Seq<u8>),
    List(Seq<FieldView>),
    LargeInteger(i64),
    Integer(i32),
    EnumeratedDescriptor(Seq<u8>, Seq<u8>),
    RawData(Seq<u8>),
    Property(Seq<char>, Seq<u8>, Seq<u8>),
    Identifier(i32),
    Index(i32),
    Name(Seq<char>, Seq<u8>, Seq<char>),
}

/// The view of a unit float.
pub open spec fn unit_float_view(u: UnitFloatStructure) -> UnitFloatView {
    match u {
        UnitFloatStructure::Angle(v) => UnitFloatView::Angle(v),
        UnitFloatStructure::Density(v) => UnitFloatView::Density(v),
        UnitFloatStructure::Distance(v) => UnitFloatView::Distance(v),
        UnitFloatStructure::Unitless => UnitFloatView::Unitless,
        UnitFloatStructure::Percent(v) => UnitFloatView::Percent(v),
        UnitFloatStructure::Pixels(v) => UnitFloatView::Pixels(v),
    }
}

/// The view of a descriptor.
pub open spec fn descriptor_view(d: DescriptorStructure) -> DescriptorView
    decreases d,
{
    DescriptorView {
        name: d.name@,
        fields: Seq::new(
            d.fields@.len(),
            |i: int|
                if 0 <= i < d.fields@.len() {
                    proof {
                        assert(decreases_to!(d => d.fields));
                        assert(decreases_to!(d.fields => d.fields@));
                        assert(decreases_to!(d.fields@ => d.fields@[i]));
                        assert(decreases_to!(d.fields@[i] => d.fields@[i].1));
                    }
                    (d.fields@[i].0@, field_view(d.fields@[i].1))
                } else {
                    (Seq::empty(), FieldView::Boolean(false))
                },
        ),
        class_id: d.class_id@,
    }
}

/// The view of a list of fields.
pub open spec fn fields_view(v: Vec<DescriptorField>) -> Seq<FieldView>
    decreases v,
{
    Seq::new(
        v@.len(),
        |i: int|
            if 0 <= i < v@.len() {
                proof {
                    assert(decreases_to!(v => v@));
                    assert(decreases_to!(v@ => v@[i]));
                }
                field_view(v@[i])
            } else {
                FieldView::Boolean(false)
            },
    )
}

/// The view of a field.
pub open spec fn field_view(f: DescriptorField) -> FieldView
    decreases f,
{
    match f {
        DescriptorField::Descriptor(d) => FieldView::Descriptor(descriptor_view(d)),
        DescriptorField::Reference(v) => FieldView::Reference(fields_view(v)),
        DescriptorField::UnitFloat(u) => FieldView::UnitFloat(unit_float_view(u)),
        DescriptorField::Double(v) => FieldView::Double(v),
        DescriptorField::Class(c) => FieldView::Class(c.name@, c.class_id@),
        DescriptorField::Class2(c) => FieldView::Class2(c.name@, c.class_id@),
        DescriptorField::Class3(c) => FieldView::Class3(c.name@, c.class_id@),
        DescriptorField::String(s) => FieldView::String(s@),
        DescriptorField::EnumeratedReference(e) => FieldView::EnumeratedReference(
            e.name@,
            e.class_id@,
            e.key_id@,
            e.enum_field@,
        ),
        DescriptorField::Offset(o) => FieldView::Offset(o.name@, o.class_id@, o.offset),
        DescriptorField::Boolean(b) => FieldView::Boolean(b),
        DescriptorField::Alias(a) => FieldView::Alias(a.data@),
        DescriptorField::List(v) => FieldView::List(fields_view(v)),
        DescriptorField::LargeInteger(v) => FieldView::LargeInteger(v),
        DescriptorField::Integer(v) => FieldView::Integer(v),
        DescriptorField::EnumeratedDescriptor(e) => FieldView::EnumeratedDescriptor(
            e.type_field@,
            e.enum_field@,
        ),
        DescriptorField::RawData(v) => FieldView::RawData(v@),
        DescriptorField::Property(p) => FieldView::Property(p.name@, p.class_id@, p.key_id@),
        DescriptorField::Identifier(v) => FieldView::Identifier(v),
        DescriptorField::Index(v) => FieldView::Index(v),
        DescriptorField::Name(n) => FieldView::Name(n.name@, n.class_id@, n.value@),
    }
}

/// OSType key 'obj ': a reference.
pub const OS_TYPE_REFERENCE: u32 = 0x6f62_6a20;
/// OSType key 'Objc': a descriptor.
pub const OS_TYPE_DESCRIPTOR: u32 = 0x4f62_6a63;
/// OSType key 'VlLs': a list.
pub const OS_TYPE_LIST: u32 = 0x566c_4c73;
/// OSType key 'doub': a double.
pub const OS_TYPE_DOUBLE: u32 = 0x646f_7562;
/// OSType key 'UntF': a unit float.
pub const OS_TYPE_UNIT_FLOAT: u32 = 0x556e_7446;
/// OSType key 'TEXT': a string.
pub const OS_TYPE_TEXT: u32 = 0x5445_5854;
/// OSType key 'enum': an enumerated descriptor.
pub const OS_TYPE_ENUMERATED: u32 = 0x656e_756d;
/// OSType key 'long': an integer.
pub const OS_TYPE_INTEGER: u32 = 0x6c6f_6e67;
/// OSType key 'comp': a large integer.
pub const OS_TYPE_LARGE_INTEGER: u32 = 0x636f_6d70;
/// OSType key 'bool': a boolean.
pub const OS_TYPE_BOOL: u32 = 0x626f_6f6c;
/// OSType key 'GlbO': a global object, read as a descriptor.
pub const OS_TYPE_GLOBAL_OBJECT: u32 = 0x476c_624f;
/// OSType key 'type': a class.
pub const OS_TYPE_CLASS: u32 = 0x7479_7065;
/// OSType key 'GlbC': a class.
pub const OS_TYPE_CLASS2: u32 = 0x476c_6243;
/// OSType key 'alis': an alias.
pub const OS_TYPE_ALIAS: u32 = 0x616c_6973;
/// OSType key 'tdta': raw data.
pub const OS_TYPE_RAW_DATA: u32 = 0x7464_7461;
/// Reference OSType key 'prop': a property.
pub const OS_TYPE_PROPERTY: u32 = 0x7072_6f70;
/// Reference OSType key 'Clss': a class.
pub const OS_TYPE_CLASS3: u32 = 0x436c_7373;
/// Reference OSType key 'Enmr': an enumerated reference.
pub const OS_TYPE_ENUMERATED_REFERENCE: u32 = 0x456e_6d72;
/// Reference OSType key 'rele': an offset.
pub const OS_TYPE_OFFSET: u32 = 0x7265_6c65;
/// Reference OSType key 'Idnt': an identifier.
pub const OS_TYPE_IDENTIFIER: u32 = 0x4964_6e74;
/// Reference OSType key 'indx': an index.
pub const OS_TYPE_INDEX: u32 = 0x696e_6478;
/// Reference OSType key 'name': a name.
pub const OS_TYPE_NAME: u32 = 0x6e61_6d65;
/// Unit '#Ang': angle, base degrees.
pub const UNIT_FLOAT_ANGLE: u32 = 0x2341_6e67;
/// Unit '#Rsl': density, base per inch.
pub const UNIT_FLOAT_DENSITY: u32 = 0x2352_736c;
/// Unit '#Rlt': distance, base 72ppi.
pub const UNIT_FLOAT_DISTANCE: u32 = 0x2352_6c74;
/// Unit '#Nne': none, coerced.
pub const UNIT_FLOAT_NONE: u32 = 0x234e_6e65;
/// Unit '#Prc': percent, a unit value.
pub const UNIT_FLOAT_PERCENT: u32 = 0x2350_7263;
/// Unit '#Pxl': pixels, a tagged unit value.
pub const UNIT_FLOAT_PIXELS: u32 = 0x2350_786c;

/// The four bytes of an OSType key or unit.
pub open spec fn code(c: u32) -> Seq<u8> {
    be32_bytes(c as int)
}

/// A key as written: its length as four big-endian bytes, then the key, or
/// four zero bytes for an empty key.
pub open spec fn key_encoding(k: Seq<u8>) -> Seq<u8> {
    be32_bytes(k.len() as int) + if k.len() == 0 {
        seq![0u8, 0, 0, 0]
    } else {
        k
    }
}

/// Bytes with their length first, as four big-endian bytes.
pub open spec fn sized_encoding(d: Seq<u8>) -> Seq<u8> {
    be32_bytes(d.len() as int) + d
}

/// A unit float as written: its unit, then the value's eight bytes
/// (none for a unitless value).
pub open spec fn unit_float_encoding(u: UnitFloatView) -> Seq<u8> {
    match u {
        UnitFloatView::Angle(v) => code(UNIT_FLOAT_ANGLE) + be64_bytes(v as int),
        UnitFloatView::Density(v) => code(UNIT_FLOAT_DENSITY) + be64_bytes(v as int),
        UnitFloatView::Distance(v) => code(UNIT_FLOAT_DISTANCE) + be64_bytes(v as int),
        UnitFloatView::Unitless => code(UNIT_FLOAT_NONE),
        UnitFloatView::Percent(v) => code(UNIT_FLOAT_PERCENT) + be64_bytes(v as int),
        UnitFloatView::Pixels(v) => code(UNIT_FLOAT_PIXELS) + be64_bytes(v as int),
    }
}

/// The fields of a list, one after the other.
pub open spec fn list_encoding(v: Seq<FieldView>) -> Seq<u8>
    decreases v,
{
    if v.len() == 0 {
        Seq::empty()
    } else {
        proof {
            assert(decreases_to!(v => v.drop_last()));
        }
        list_encoding(v.drop_last()) + field_encoding(v.last())
    }
}

/// The keyed fields of a descriptor, one after the other: each key (as
/// UTF-8), then its field.
pub open spec fn keyed_encoding(v: Seq<(Seq<char>, FieldView)>) -> Seq<u8>
    decreases v,
{
    if v.len() == 0 {
        Seq::empty()
    } else {
        proof {
            assert(decreases_to!(v => v.drop_last()));
            assert(decreases_to!(v => v.last()));
        }
        keyed_encoding(v.drop_last()) + key_encoding(encode_utf8(v.last().0)) + field_encoding(
            v.last().1,
        )
    }
}

/// A descriptor as written: its name, its class id, the number of its
/// fields and the fields.
pub open spec fn descriptor_encoding(d: DescriptorView) -> Seq<u8>
    decreases d,
{
    unicode_encoding(d.name) + key_encoding(d.class_id) + be32_bytes(d.fields.len() as int)
        + keyed_encoding(d.fields)
}

/// A field as written: its OSType key, then its value.
pub open spec fn field_encoding(f: FieldView) -> Seq<u8>
    decreases f,
{
    match f {
        FieldView::Descriptor(d) => code(OS_TYPE_DESCRIPTOR) + descriptor_encoding(d),
        FieldView::Reference(v) => code(OS_TYPE_REFERENCE) + be32_bytes(v.len() as int)
            + list_encoding(v),
        FieldView::UnitFloat(u) => code(OS_TYPE_UNIT_FLOAT) + unit_float_encoding(u),
        FieldView::Double(v) => code(OS_TYPE_DOUBLE) + be64_bytes(v as int),
        FieldView::Class(n, c) => code(OS_TYPE_CLASS) + unicode_encoding(n) + key_encoding(c),
        FieldView::Class2(n, c) => code(OS_TYPE_CLASS2) + unicode_encoding(n) + key_encoding(c),
        FieldView::Class3(n, c) => code(OS_TYPE_CLASS3) + unicode_encoding(n) + key_encoding(c),
        FieldView::String(t) => code(OS_TYPE_TEXT) + unicode_encoding(t),
        FieldView::EnumeratedReference(n, c, k, e) => code(OS_TYPE_ENUMERATED_REFERENCE)
            + unicode_encoding(n) + key_encoding(c) + key_encoding(k) + key_encoding(e),
        FieldView::Offset(n, c, o) => code(OS_TYPE_OFFSET) + unicode_encoding(n) + key_encoding(c)
            + be32_bytes(o as int),
        FieldView::Boolean(b) => code(OS_TYPE_BOOL) + seq![if b { 1u8 } else { 0u8 }],
        FieldView::Alias(d) => code(OS_TYPE_ALIAS) + sized_encoding(d),
        FieldView::List(v) => code(OS_TYPE_LIST) + be32_bytes(v.len() as int) + list_encoding(v),
        FieldView::LargeInteger(v) => code(OS_TYPE_LARGE_INTEGER) + be64_bytes(
            (v as int) % 0x1_0000_0000_0000_0000,
        ),
        FieldView::Integer(v) => code(OS_TYPE_INTEGER) + be32_bytes(v as int),
        FieldView::EnumeratedDescriptor(t, e) => code(OS_TYPE_ENUMERATED) + key_encoding(t)
            + key_encoding(e),
        FieldView::RawData(d) => code(OS_TYPE_RAW_DATA) + d,
        FieldView::Property(n, c, k) => code(OS_TYPE_PROPERTY) + unicode_encoding(n) + key_encoding(
            c,
        ) + key_encoding(k),
        FieldView::Identifier(v) => code(OS_TYPE_IDENTIFIER) + be32_bytes(v as int),
        FieldView::Index(v) => code(OS_TYPE_INDEX) + be32_bytes(v as int),
        FieldView::Name(n, c, v) => code(OS_TYPE_NAME) + unicode_encoding(n) + key_encoding(c)
            + unicode_encoding(v),
    }
}

/// Write a key: its length, then the key, or four zero bytes for an empty key.
fn write_key(buffer: &mut PsdBuffer, key: &[u8])
    ensures
        final(buffer)@ == old(buffer)@ + key_encoding(key@),
{
    let n = ((key.len() as u64) % 0x1_0000_0000) as u32;
    buffer.write_u32(n);
    proof {
        lemma_be32_mod(key@.len() as int);
    }
    if key.len() == 0 {
        buffer.write_u32(0);
        assert(be32_bytes(0) =~= seq![0u8, 0, 0, 0]);
    } else {
        buffer.write(key);
    }
    assert(buffer@ =~= old(buffer)@ + key_encoding(key@));
}

/// Write bytes with their length first.
fn write_sized_bytes(buffer: &mut PsdBuffer, data: &[u8])
    ensures
        final(buffer)@ == old(buffer)@ + sized_encoding(data@),
{
    let n = ((data.len() as u64) % 0x1_0000_0000) as u32;
    buffer.write_u32(n);
    proof {
        lemma_be32_mod(data@.len() as int);
    }
    buffer.write(data);
    assert(buffer@ =~= old(buffer)@ + sized_encoding(data@));
}

/// Write a count of items as four big-endian bytes (modulo 2^32).
fn write_count(buffer: &mut PsdBuffer, n: usize)
    ensures
        final(buffer)@ == old(buffer)@ + be32_bytes(n as int),
{
    let c = ((n as u64) % 0x1_0000_0000) as u32;
    buffer.write_u32(c);
    proof {
        lemma_be32_mod(n as int);
    }
}

/// Write an OSType key or unit.
fn write_code(buffer: &mut PsdBuffer, c: u32)
    ensures
        final(buffer)@ == old(buffer)@ + code(c),
{
    buffer.write_u32(c);
}

/// Write a unit float: its unit, then its value unless it has none.
pub fn write_unit_float(buffer: &mut PsdBuffer, u: &UnitFloatStructure)
    ensures
        final(buffer)@ == old(buffer)@ + unit_float_encoding(unit_float_view(*u)),
{
    match u {
        UnitFloatStructure::Angle(v) => {
            write_code(buffer, UNIT_FLOAT_ANGLE);
            buffer.write_u64(*v);
        },
        UnitFloatStructure::Density(v) => {
            write_code(buffer, UNIT_FLOAT_DENSITY);
            buffer.write_u64(*v);
        },
        UnitFloatStructure::Distance(v) => {
            write_code(buffer, UNIT_FLOAT_DISTANCE);
            buffer.write_u64(*v);
        },
        UnitFloatStructure::Unitless => {
            write_code(buffer, UNIT_FLOAT_NONE);
        },
        UnitFloatStructure::Percent(v) => {
            write_code(buffer, UNIT_FLOAT_PERCENT);
            buffer.write_u64(*v);
        },
        UnitFloatStructure::Pixels(v) => {
            write_code(buffer, UNIT_FLOAT_PIXELS);
            buffer.write_u64(*v);
        },
    }
    assert(buffer@ =~= old(buffer)@ + unit_float_encoding(unit_float_view(*u)));
}

/// The bytes of a class structure: its name and its class id.
pub open spec fn class_encoding(n: Seq<char>, c: Seq<u8>) -> Seq<u8> {
    unicode_encoding(n) + key_encoding(c)
}

impl PsdSerialize for ClassStructure {
    open spec fn encoding(&self) -> Seq<u8> {
        class_encoding(self.name@, self.class_id@)
    }

    fn write(&self, buffer: &mut PsdBuffer) {
        buffer.write_unicode_string(self.name.as_str());
        write_key(buffer, self.class_id.as_slice());
        assert(buffer@ =~= old(buffer)@ + self.encoding());
    }
}

impl PsdSerialize for EnumeratedReference {
    open spec fn encoding(&self) -> Seq<u8> {
        unicode_encoding(self.name@) + key_encoding(self.class_id@) + key_encoding(self.key_id@)
            + key_encoding(self.enum_field@)
    }

    fn write(&self, buffer: &mut PsdBuffer) {
        buffer.write_unicode_string(self.name.as_str());
        write_key(buffer, self.class_id.as_slice());
        write_key(buffer, self.key_id.as_slice());
        write_key(buffer, self.enum_field.as_slice());
        assert(buffer@ =~= old(buffer)@ + self.encoding());
    }
}

impl PsdSerialize for OffsetStructure {
    open spec fn encoding(&self) -> Seq<u8> {
        unicode_encoding(self.name@) + key_encoding(self.class_id@) + be32_bytes(self.offset as int)
    }

    fn write(&self, buffer: &mut PsdBuffer) {
        buffer.write_unicode_string(self.name.as_str());
        write_key(buffer, self.class_id.as_slice());
        buffer.write_u32(self.offset);
        assert(buffer@ =~= old(buffer)@ + self.encoding());
    }
}

impl PsdSerialize for AliasStructure {
    open spec fn encoding(&self) -> Seq<u8> {
        sized_encoding(self.data@)
    }

    fn write(&self, buffer: &mut PsdBuffer) {
        write_sized_bytes(buffer, self.data.as_slice());
    }
}

impl PsdSerialize for EnumeratedDescriptor {
    open spec fn encoding(&self) -> Seq<u8> {
        key_encoding(self.type_field@) + key_encoding(self.enum_field@)
    }

    fn write(&self, buffer: &mut PsdBuffer) {
        write_key(buffer, self.type_field.as_slice());
        write_key(buffer, self.enum_field.as_slice());
        assert(buffer@ =~= old(buffer)@ + self.encoding());
    }
}

impl PsdSerialize for PropertyStructure {
    open spec fn encoding(&self) -> Seq<u8> {
        unicode_encoding(self.name@) + key_encoding(self.class_id@) + key_encoding(self.key_id@)
    }

    fn write(&self, buffer: &mut PsdBuffer) {
        buffer.write_unicode_string(self.name.as_str());
        write_key(buffer, self.class_id.as_slice());
        write_key(buffer, self.key_id.as_slice());
        assert(buffer@ =~= old(buffer)@ + self.encoding());
    }
}

impl PsdSerialize for NameStructure {
    open spec fn encoding(&self) -> Seq<u8> {
        unicode_encoding(self.name@) + key_encoding(self.class_id@) + unicode_encoding(self.value@)
    }

    fn write(&self, buffer: &mut PsdBuffer) {
        buffer.write_unicode_string(self.name.as_str());
        write_key(buffer, self.class_id.as_slice());
        buffer.write_unicode_string(self.value.as_str());
        assert(buffer@ =~= old(buffer)@ + self.encoding());
    }
}

impl PsdSerialize for UnitFloatStructure {
    open spec fn encoding(&self) -> Seq<u8> {
        unit_float_encoding(unit_float_view(*self))
    }

    fn write(&self, buffer: &mut PsdBuffer) {
        write_unit_float(buffer, self);
    }
}

impl PsdSerialize for DescriptorField {
    open spec fn encoding(&self) -> Seq<u8> {
        field_encoding(field_view(*self))
    }

    fn write(&self, buffer: &mut PsdBuffer) {
        write_field(buffer, self);
    }
}

impl PsdSerialize for DescriptorStructure {
    open spec fn encoding(&self) -> Seq<u8> {
        descriptor_encoding(descriptor_view(*self))
    }

    fn write(&self, buffer: &mut PsdBuffer) {
        write_descriptor(buffer, self);
    }
}

/// Write a 32-bit integer field: its OSType key, then its value.
fn write_integer_field(buffer: &mut PsdBuffer, tag: u32, v: i32)
    ensures
        final(buffer)@ == old(buffer)@ + code(tag) + be32_bytes(v as int),
{
    write_code(buffer, tag);
    let bits = integer_bits(v);
    buffer.write_u32(bits);
    proof {
        lemma_be32_mod(v as int);
    }
}

/// Write a field that holds no other field: its OSType key, then its value.
fn write_leaf_field(buffer: &mut PsdBuffer, f: &DescriptorField)
    requires
        !(f is Descriptor || f is Reference || f is List),
    ensures
        final(buffer)@ == old(buffer)@ + field_encoding(field_view(*f)),
{
    let ghost start = buffer@;
    match f {
        DescriptorField::UnitFloat(u) => {
            write_code(buffer, OS_TYPE_UNIT_FLOAT);
            write_unit_float(buffer, u);
        },
        DescriptorField::Double(v) => {
            write_code(buffer, OS_TYPE_DOUBLE);
            buffer.write_u64(*v);
        },
        DescriptorField::Class(c) => {
            write_code(buffer, OS_TYPE_CLASS);
            c.write(buffer);
        },
        DescriptorField::Class2(c) => {
            write_code(buffer, OS_TYPE_CLASS2);
            c.write(buffer);
        },
        DescriptorField::Class3(c) => {
            write_code(buffer, OS_TYPE_CLASS3);
            c.write(buffer);
        },
        DescriptorField::String(t) => {
            write_code(buffer, OS_TYPE_TEXT);
            buffer.write_unicode_string(t.as_str());
        },
        DescriptorField::EnumeratedReference(e) => {
            write_code(buffer, OS_TYPE_ENUMERATED_REFERENCE);
            e.write(buffer);
        },
        DescriptorField::Offset(o) => {
            write_code(buffer, OS_TYPE_OFFSET);
            o.write(buffer);
        },
        DescriptorField::Boolean(b) => {
            write_code(buffer, OS_TYPE_BOOL);
            let byte: [u8; 1] = [if *b { 1u8 } else { 0u8 }];
            buffer.write(&byte);
        },
        DescriptorField::Alias(a) => {
            write_code(buffer, OS_TYPE_ALIAS);
            a.write(buffer);
        },
        DescriptorField::LargeInteger(v) => {
            write_code(buffer, OS_TYPE_LARGE_INTEGER);
            let bits = large_integer_bits(*v);
            buffer.write_u64(bits);
        },
        DescriptorField::Integer(v) => {
            write_integer_field(buffer, OS_TYPE_INTEGER, *v);
        },
        DescriptorField::EnumeratedDescriptor(e) => {
            write_code(buffer, OS_TYPE_ENUMERATED);
            e.write(buffer);
        },
        DescriptorField::RawData(d) => {
            write_code(buffer, OS_TYPE_RAW_DATA);
            buffer.write(d.as_slice());
        },
        DescriptorField::Property(p) => {
            write_code(buffer, OS_TYPE_PROPERTY);
            p.write(buffer);
        },
        DescriptorField::Identifier(v) => {
            write_integer_field(buffer, OS_TYPE_IDENTIFIER, *v);
        },
        DescriptorField::Index(v) => {
            write_integer_field(buffer, OS_TYPE_INDEX, *v);
        },
        DescriptorField::Name(n) => {
            write_code(buffer, OS_TYPE_NAME);
            n.write(buffer);
        },
        _ => {},
    }
    assert(buffer@ =~= start + field_encoding(field_view(*f)));
}

/// Write a field: its OSType key, then its value.
pub fn write_field(buffer: &mut PsdBuffer, f: &DescriptorField)
    ensures
        final(buffer)@ == old(buffer)@ + field_encoding(field_view(*f)),
    decreases f,
{
    let ghost start = buffer@;
    match f {
        DescriptorField::Descriptor(d) => {
            write_code(buffer, OS_TYPE_DESCRIPTOR);
            write_descriptor(buffer, d);
        },
        DescriptorField::Reference(v) => {
            write_code(buffer, OS_TYPE_REFERENCE);
            write_count(buffer, v.len());
            write_list(buffer, v);
        },
        DescriptorField::List(v) => {
            write_code(buffer, OS_TYPE_LIST);
            write_count(buffer, v.len());
            write_list(buffer, v);
        },
        _ => {
            write_leaf_field(buffer, f);
        },
    }
    assert(buffer@ =~= start + field_encoding(field_view(*f)));
}

/// The two's complement bits of a 32-bit integer.
fn integer_bits(v: i32) -> (r: u32)
    ensures
        r == (v as int) % 0x1_0000_0000,
{
    let r = v as u32;
    assert(v >= 0 ==> r == v) by (bit_vector)
        requires
            r == v as u32,
    ;
    assert(v < 0 ==> r == v + 0x1_0000_0000) by (bit_vector)
        requires
            r == v as u32,
    ;
    r
}

/// The two's complement bits of a 64-bit integer.
fn large_integer_bits(v: i64) -> (r: u64)
    ensures
        r == (v as int) % 0x1_0000_0000_0000_0000,
{
    let r = v as u64;
    assert(v >= 0 ==> r == v) by (bit_vector)
        requires
            r == v as u64,
    ;
    assert(v < 0 ==> r == v + 0x1_0000_0000_0000_0000) by (bit_vector)
        requires
            r == v as u64,
    ;
    r
}

/// Write the fields of a list, one after the other.
fn write_list(buffer: &mut PsdBuffer, v: &Vec<DescriptorField>)
    ensures
        final(buffer)@ == old(buffer)@ + list_encoding(fields_view(*v)),
    decreases v,
{
    let ghost start = buffer@;
    let ghost views = fields_view(*v);
    let mut i: usize = 0;
    while i < v.len()
        invariant
            i <= v@.len(),
            views == fields_view(*v),
            views.len() == v@.len(),
            buffer@ == start + list_encoding(views.take(i as int)),
        decreases v@.len() - i,
    {
        proof {
            assert(decreases_to!(v => v@));
            assert(decreases_to!(v@ => v@[i as int]));
        }
        write_field(buffer, &v[i]);
        proof {
            assert(views.take(i + 1).drop_last() =~= views.take(i as int));
            assert(views.take(i + 1).last() == field_view(v@[i as int]));
        }
        i += 1;
    }
    assert(views.take(i as int) =~= views);
}

/// Write a descriptor: its name, its class id, the number of its fields and
/// the fields, each as its key then its value.
pub fn write_descriptor(buffer: &mut PsdBuffer, d: &DescriptorStructure)
    ensures
        final(buffer)@ == old(buffer)@ + descriptor_encoding(descriptor_view(*d)),
    decreases d,
{
    let ghost start = buffer@;
    buffer.write_unicode_string(d.name.as_str());
    write_key(buffer, d.class_id.as_slice());
    write_count(buffer, d.fields.len());
    let ghost head = buffer@;
    let ghost views = descriptor_view(*d).fields;
    let mut i: usize = 0;
    while i < d.fields.len()
        invariant
            i <= d.fields@.len(),
            views == descriptor_view(*d).fields,
            views.len() == d.fields@.len(),
            buffer@ == head + keyed_encoding(views.take(i as int)),
        decreases d.fields@.len() - i,
    {
        proof {
            assert(decreases_to!(d => d.fields));
            assert(decreases_to!(d.fields => d.fields@));
            assert(decreases_to!(d.fields@ => d.fields@[i as int]));
            assert(decreases_to!(d.fields@[i as int] => d.fields@[i as int].1));
        }
        let (key, field) = &d.fields[i];
        write_key(buffer, key.as_str().as_bytes());
        write_field(buffer, field);
        proof {
            assert(views.take(i + 1).drop_last() =~= views.take(i as int));
            assert(views.take(i + 1).last() == views[i as int]);
        }
        i += 1;
    }
    assert(views.take(i as int) =~= views);
    assert(buffer@ =~= start + descriptor_encoding(descriptor_view(*d)));
}

impl DescriptorStructure {
    /// The field with key `key`, if the descriptor has one (the first such
    /// field).
    pub fn field(&self, key: &str) -> (r: Option<&DescriptorField>)
        ensures
            match r {
                Some(f) => exists|i: int|
                    0 <= i < self.fields@.len() && self.fields@[i].0@ == key@ && #[trigger] self.fields@[i].1
                        == *f && forall|j: int| 0 <= j < i ==> self.fields@[j].0@ != key@,
                None => forall|i: int| 0 <= i < self.fields@.len() ==> #[trigger] self.fields@[i].0@ != key@,
            },
    {
        let owned = key.to_string();
        assert(owned@ == key@);
        let mut i: usize = 0;
        while i < self.fields.len()
            invariant
                i <= self.fields@.len(),
                owned@ == key@,
                forall|j: int| 0 <= j < i ==> #[trigger] self.fields@[j].0@ != key@,
            decreases self.fields@.len() - i,
        {
            if self.fields[i].0 == owned {
                let f = &self.fields[i].1;
                assert(self.fields@[i as int].1 == *f);
                return Some(f);
            }
            i += 1;
        }
        None
    }
}

} // verus!
