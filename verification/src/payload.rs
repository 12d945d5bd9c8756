//! Parser and writer for the RE Engine class stream stored inside MHRise DSSS containers.
use vstd::prelude::*;

use crate::bytes::{
    lemma_le_single, lemma_u16s_le_append, lemma_u32s_le_append, le_u16_at, le_u32_at, push_all,
    push_le_u16, push_le_u32, read_le_u16, read_le_u32, resize_zero, u16_le, u16s_le,
    u32_le, u32s_le,
};
use crate::payload_model::{
    encode_spec, parse_spec, r_align4, r_align_sized, r_array, r_bytes,
    r_class, r_element, r_elements, r_entries, r_field, r_fields, r_peek_u32, r_sized, r_string, has4, sized_align, u16s_at, u32s_at, w_align4, w_align_sized, w_array,
    w_class, w_element, w_elements, w_entries, w_field, w_fields,
    w_sized, w_string, all_zero_from, lemma_w_class_def, lemma_w_fields_def, lemma_w_field_def,
    lemma_w_array_def, lemma_w_elements_def, lemma_w_element_def, lemma_w_entries_def, lemma_r_entries_def, ArrayModel, ClassModel, ElementModel, EntryModel, FieldModel,
    PayloadError, PayloadModel, ValueModel, ARRAY_MARKER, ARRAY_TYPE_CLASS, ARRAY_TYPE_VALUE,
    FIELD_TYPE_ARRAY, FIELD_TYPE_CLASS, FIELD_TYPE_STRING,
};

use crate::payload_typing::{lemma_parsed_payload_typed, typed_payload};

verus! {

/// A decoded class stream: its top-level entries in order.
#[derive(Debug, PartialEq, Eq)]
pub struct SavePayload {
    pub entries: Vec<NativeClass>,
}

/// A top-level entry: the native-field hash and its class.
#[derive(Debug, PartialEq, Eq)]
pub struct NativeClass {
    pub native_hash: u32,
    pub class: Class,
}

/// A class instance: its type hash and its fields in order.
#[derive(Debug, PartialEq, Eq)]
pub struct Class {
    pub hash: u32,
    pub fields: Vec<Field>,
}

/// A field: its name hash, its type code and its value.
#[derive(Debug, PartialEq, Eq)]
pub struct Field {
    pub hash: u32,
    pub field_type: i32,
    pub value: FieldValue,
}

/// The value of a field.
#[derive(Debug, PartialEq, Eq)]
pub enum FieldValue {
    Array(Array),
    Class(Box<Class>),
    String(Vec<u16>),
    Scalar { size: u32, bytes: Vec<u8> },
}

/// An array field.
#[derive(Debug, PartialEq, Eq)]
pub struct Array {
    pub member_type: i32,
    pub member_size: u32,
    pub array_type: i32,
    pub class_hashes: Option<Vec<u32>>,
    pub values: Vec<ArrayValue>,
}

/// One value of an array.
#[derive(Debug, PartialEq, Eq)]
pub enum ArrayValue {
    Array(Box<Array>),
    Class(Box<Class>),
    String(Vec<u16>),
    Scalar(Vec<u8>),
}

// ---------------------------------------------------------------------------
// Views
// ---------------------------------------------------------------------------
/// The model of a class.
pub open spec fn class_model(c: Class) -> ClassModel
    decreases c,
{
    ClassModel { hash: c.hash, fields: fields_model(c.fields@) }
}

/// The models of a sequence of fields.
pub open spec fn fields_model(fs: Seq<Field>) -> Seq<FieldModel>
    decreases fs,
{
    if fs.len() == 0 {
        Seq::empty()
    } else {
        fields_model(fs.drop_last()).push(field_model(fs.last()))
    }
}

/// The model of a field.
pub open spec fn field_model(f: Field) -> FieldModel
    decreases f,
{
    FieldModel { hash: f.hash, field_type: f.field_type, value: value_model(f.value) }
}

/// The model of a field value.
pub open spec fn value_model(v: FieldValue) -> ValueModel
    decreases v,
{
    match v {
        FieldValue::Array(a) => ValueModel::Array(array_model(a)),
        FieldValue::Class(c) => ValueModel::Class(class_model(*c)),
        FieldValue::String(s) => ValueModel::String(s@),
        FieldValue::Scalar { size, bytes } => ValueModel::Scalar { size, bytes: bytes@ },
    }
}

/// The model of an array.
pub open spec fn array_model(a: Array) -> ArrayModel
    decreases a,
{
    ArrayModel {
        member_type: a.member_type,
        member_size: a.member_size,
        array_type: a.array_type,
        class_hashes: match a.class_hashes {
            Some(h) => Some(h@),
            None => None,
        },
        values: elements_model(a.values@),
    }
}

/// The models of a sequence of array values.
pub open spec fn elements_model(vs: Seq<ArrayValue>) -> Seq<ElementModel>
    decreases vs,
{
    if vs.len() == 0 {
        Seq::empty()
    } else {
        elements_model(vs.drop_last()).push(element_model(vs.last()))
    }
}

/// The model of an array value.
pub open spec fn element_model(v: ArrayValue) -> ElementModel
    decreases v,
{
    match v {
        ArrayValue::Array(a) => ElementModel::Array(array_model(*a)),
        ArrayValue::Class(c) => ElementModel::Class(class_model(*c)),
        ArrayValue::String(s) => ElementModel::String(s@),
        ArrayValue::Scalar(b) => ElementModel::Scalar(b@),
    }
}

/// The model of a top-level entry.
pub open spec fn entry_model(e: NativeClass) -> EntryModel {
    EntryModel { native_hash: e.native_hash, class: class_model(e.class) }
}

/// The models of a sequence of top-level entries.
pub open spec fn entries_model(es: Seq<NativeClass>) -> Seq<EntryModel> {
    Seq::new(es.len(), |i: int| entry_model(es[i]))
}

impl View for SavePayload {
    type V = PayloadModel;

    open spec fn view(&self) -> PayloadModel {
        PayloadModel { entries: entries_model(self.entries@) }
    }
}

impl View for NativeClass {
    type V = EntryModel;

    open spec fn view(&self) -> EntryModel {
        entry_model(*self)
    }
}

impl View for Class {
    type V = ClassModel;

    open spec fn view(&self) -> ClassModel {
        class_model(*self)
    }
}

impl View for Field {
    type V = FieldModel;

    open spec fn view(&self) -> FieldModel {
        field_model(*self)
    }
}

impl View for FieldValue {
    type V = ValueModel;

    open spec fn view(&self) -> ValueModel {
        value_model(*self)
    }
}

impl View for Array {
    type V = ArrayModel;

    open spec fn view(&self) -> ArrayModel {
        array_model(*self)
    }
}

impl View for ArrayValue {
    type V = ElementModel;

    open spec fn view(&self) -> ElementModel {
        element_model(*self)
    }
}

/// The model of a sequence of fields lists each field's model in order.
pub proof fn lemma_fields_model(fs: Seq<Field>)
    ensures
        fields_model(fs).len() == fs.len(),
        forall|i: int| 0 <= i < fs.len() ==> #[trigger] fields_model(fs)[i] == field_model(fs[i]),
    decreases fs.len(),
{
    if fs.len() > 0 {
        lemma_fields_model(fs.drop_last());
    }
}

/// The model of a sequence of array values lists each value's model in order.
pub proof fn lemma_elements_model(vs: Seq<ArrayValue>)
    ensures
        elements_model(vs).len() == vs.len(),
        forall|i: int|
            0 <= i < vs.len() ==> #[trigger] elements_model(vs)[i] == element_model(vs[i]),
    decreases vs.len(),
{
    if vs.len() > 0 {
        lemma_elements_model(vs.drop_last());
    }
}


// ---------------------------------------------------------------------------
// Copies
// ---------------------------------------------------------------------------
fn clone_u16s(v: &Vec<u16>) -> (r: Vec<u16>)
    ensures
        r@ == v@,
{
    let mut r: Vec<u16> = Vec::new();
    let mut i: usize = 0;
    while i < v.len()
        invariant
            i <= v@.len(),
            r@ == v@.take(i as int),
        decreases v@.len() - i,
    {
        r.push(v[i]);
        i = i + 1;
        assert(r@ =~= v@.take(i as int));
    }
    assert(v@.take(i as int) =~= v@);
    r
}

pub(crate) fn clone_u32s(v: &Vec<u32>) -> (r: Vec<u32>)
    ensures
        r@ == v@,
{
    let mut r: Vec<u32> = Vec::new();
    let mut i: usize = 0;
    while i < v.len()
        invariant
            i <= v@.len(),
            r@ == v@.take(i as int),
        decreases v@.len() - i,
    {
        r.push(v[i]);
        i = i + 1;
        assert(r@ =~= v@.take(i as int));
    }
    assert(v@.take(i as int) =~= v@);
    r
}

fn clone_bytes(v: &Vec<u8>) -> (r: Vec<u8>)
    ensures
        r@ == v@,
{
    let mut r: Vec<u8> = Vec::new();
    push_all(&mut r, v.as_slice());
    r
}

pub(crate) fn clone_class(c: &Class) -> (r: Class)
    ensures
        r@ == c@,
    decreases c, 1int,
{
    let mut fields: Vec<Field> = Vec::new();
    let mut i: usize = 0;
    proof {
        lemma_fields_model(c.fields@);
    }
    while i < c.fields.len()
        invariant
            i <= c.fields@.len(),
            fields_model(fields@) == fields_model(c.fields@).take(i as int),
            fields_model(c.fields@).len() == c.fields@.len(),
            forall|j: int|
                0 <= j < c.fields@.len() ==> #[trigger] fields_model(c.fields@)[j] == field_model(
                    c.fields@[j],
                ),
        decreases c.fields@.len() - i,
    {
        assert(decreases_to!(c => c.fields@[i as int]));
        let f = clone_field(&c.fields[i]);
        let ghost before = fields@;
        fields.push(f);
        assert(fields@.drop_last() =~= before);
        assert(fields_model(fields@) =~= fields_model(c.fields@).take(i + 1));
        i = i + 1;
    }
    assert(fields_model(c.fields@).take(i as int) =~= fields_model(c.fields@));
    Class { hash: c.hash, fields }
}

pub(crate) fn clone_field(f: &Field) -> (r: Field)
    ensures
        r@ == f@,
    decreases f, 0int,
{
    let value = match &f.value {
        FieldValue::Array(a) => FieldValue::Array(clone_array(a)),
        FieldValue::Class(c) => FieldValue::Class(Box::new(clone_class(c))),
        FieldValue::String(s) => FieldValue::String(clone_u16s(s)),
        FieldValue::Scalar { size, bytes } => FieldValue::Scalar {
            size: *size,
            bytes: clone_bytes(bytes),
        },
    };
    Field { hash: f.hash, field_type: f.field_type, value }
}

pub(crate) fn clone_array(a: &Array) -> (r: Array)
    ensures
        r@ == a@,
    decreases a, 1int,
{
    let class_hashes = match &a.class_hashes {
        Some(h) => Some(clone_u32s(h)),
        None => None,
    };
    let mut values: Vec<ArrayValue> = Vec::new();
    let mut i: usize = 0;
    proof {
        lemma_elements_model(a.values@);
    }
    while i < a.values.len()
        invariant
            i <= a.values@.len(),
            elements_model(values@) == elements_model(a.values@).take(i as int),
            elements_model(a.values@).len() == a.values@.len(),
            forall|j: int|
                0 <= j < a.values@.len() ==> #[trigger] elements_model(a.values@)[j]
                    == element_model(a.values@[j]),
        decreases a.values@.len() - i,
    {
        assert(decreases_to!(a => a.values@[i as int]));
        let v = clone_element(&a.values[i]);
        let ghost before = values@;
        values.push(v);
        assert(values@.drop_last() =~= before);
        assert(elements_model(values@) =~= elements_model(a.values@).take(i + 1));
        i = i + 1;
    }
    assert(elements_model(a.values@).take(i as int) =~= elements_model(a.values@));
    Array {
        member_type: a.member_type,
        member_size: a.member_size,
        array_type: a.array_type,
        class_hashes,
        values,
    }
}

pub(crate) fn clone_element(v: &ArrayValue) -> (r: ArrayValue)
    ensures
        r@ == v@,
    decreases v, 0int,
{
    match v {
        ArrayValue::Array(a) => ArrayValue::Array(Box::new(clone_array(a))),
        ArrayValue::Class(c) => ArrayValue::Class(Box::new(clone_class(c))),
        ArrayValue::String(s) => ArrayValue::String(clone_u16s(s)),
        ArrayValue::Scalar(b) => ArrayValue::Scalar(clone_bytes(b)),
    }
}

impl Clone for Class {
    fn clone(&self) -> (r: Self)
        ensures
            r@ == self@,
    {
        clone_class(self)
    }
}

impl Clone for Field {
    fn clone(&self) -> (r: Self)
        ensures
            r@ == self@,
    {
        clone_field(self)
    }
}

impl Clone for FieldValue {
    fn clone(&self) -> (r: Self)
        ensures
            r@ == self@,
    {
        match self {
            FieldValue::Array(a) => FieldValue::Array(clone_array(a)),
            FieldValue::Class(c) => FieldValue::Class(Box::new(clone_class(c))),
            FieldValue::String(s) => FieldValue::String(clone_u16s(s)),
            FieldValue::Scalar { size, bytes } => FieldValue::Scalar {
                size: *size,
                bytes: clone_bytes(bytes),
            },
        }
    }
}

impl Clone for Array {
    fn clone(&self) -> (r: Self)
        ensures
            r@ == self@,
    {
        clone_array(self)
    }
}

impl Clone for ArrayValue {
    fn clone(&self) -> (r: Self)
        ensures
            r@ == self@,
    {
        clone_element(self)
    }
}

impl Clone for NativeClass {
    fn clone(&self) -> (r: Self)
        ensures
            r@ == self@,
    {
        NativeClass { native_hash: self.native_hash, class: clone_class(&self.class) }
    }
}

impl Clone for SavePayload {
    fn clone(&self) -> (r: Self)
        ensures
            r@ == self@,
    {
        let mut entries: Vec<NativeClass> = Vec::new();
        let mut i: usize = 0;
        while i < self.entries.len()
            invariant
                i <= self.entries@.len(),
                entries@.len() == i,
                entries_model(entries@) == entries_model(self.entries@).take(i as int),
            decreases self.entries@.len() - i,
        {
            let e = NativeClass {
                native_hash: self.entries[i].native_hash,
                class: clone_class(&self.entries[i].class),
            };
            assert(entry_model(e) == entry_model(self.entries@[i as int]));
            let ghost before = entries@;
            entries.push(e);
            assert forall|j: int| 0 <= j < i implies entry_model(entries@[j]) == entry_model(
                self.entries@[j],
            ) by {
                assert(entries@[j] == before[j]);
                assert(entries_model(before)[j] == entries_model(self.entries@).take(i as int)[j]);
            }
            i = i + 1;
            assert(entries_model(entries@) =~= entries_model(self.entries@).take(i as int));
        }
        assert(entries_model(self.entries@).take(i as int) =~= entries_model(self.entries@));
        SavePayload { entries }
    }
}

// ---------------------------------------------------------------------------
// Reader
// ---------------------------------------------------------------------------
/// A cursor over a class stream that starts `alignment_offset` bytes into its container.
struct Reader<'a> {
    data: &'a [u8],
    offset: usize,
    alignment_offset: usize,
}

impl<'a> Reader<'a> {
    spec fn wf(&self) -> bool {
        self.offset <= self.data@.len()
    }

    spec fn same_stream(&self, other: &Self) -> bool {
        &&& self.data@ == other.data@
        &&& self.alignment_offset == other.alignment_offset
        &&& self.wf()
    }

    fn new(data: &'a [u8], alignment_offset: usize) -> (r: Self)
        ensures
            r.data@ == data@,
            r.offset == 0,
            r.alignment_offset == alignment_offset,
            r.wf(),
    {
        Self { data, offset: 0, alignment_offset }
    }

    fn remaining(&self) -> (n: usize)
        requires
            self.wf(),
        ensures
            n == self.data@.len() - self.offset,
    {
        self.data.len() - self.offset
    }

    fn position(&self) -> (p: usize)
        ensures
            p == self.offset,
    {
        self.offset
    }

    fn rest(&self) -> (r: &'a [u8])
        requires
            self.wf(),
        ensures
            r@ == self.data@.subrange(self.offset as int, self.data@.len() as int),
    {
        let (_, rest) = self.data.split_at(self.offset);
        rest
    }

    /// Moves to the next absolute multiple of four.
    fn align(&mut self) -> (r: Result<(), PayloadError>)
        requires
            old(self).wf(),
        ensures
            final(self).same_stream(old(self)),
            r matches Ok(_) ==> r_align4(old(self).data@, old(self).alignment_offset as int,
                old(self).offset as int) == Ok::<int, PayloadError>(final(self).offset as int),
            r matches Err(e) ==> r_align4(old(self).data@, old(self).alignment_offset as int,
                old(self).offset as int) == Err::<int, PayloadError>(e),
    {
        let absolute = match self.alignment_offset.checked_add(self.offset) {
            Some(v) => v,
            None => return Err(PayloadError::OffsetOverflow),
        };
        let bumped = match absolute.checked_add(3) {
            Some(v) => v,
            None => return Err(PayloadError::OffsetOverflow),
        };
        let aligned = (bumped / 4) * 4;
        let offset = aligned - self.alignment_offset;
        if offset > self.data.len() {
            return Err(PayloadError::AlignmentOutOfBounds);
        }
        self.offset = offset;
        Ok(())
    }

    /// Moves to where a value of `size` bytes starts.
    fn align_sized(&mut self, size: usize) -> (r: Result<(), PayloadError>)
        requires
            old(self).wf(),
            size >= 1,
        ensures
            final(self).same_stream(old(self)),
            r matches Ok(_) ==> r_align_sized(old(self).data@, old(self).alignment_offset as int,
                old(self).offset as int, size as int) == Ok::<int, PayloadError>(
                final(self).offset as int),
            r matches Err(e) ==> r_align_sized(old(self).data@, old(self).alignment_offset as int,
                old(self).offset as int, size as int) == Err::<int, PayloadError>(e),
    {
        let absolute = match self.alignment_offset.checked_add(self.offset) {
            Some(v) => v,
            None => return Err(PayloadError::OffsetOverflow),
        };
        let bumped = match absolute.checked_add(size - 1) {
            Some(v) => v,
            None => return Err(PayloadError::OffsetOverflow),
        };
        let aligned = bumped & !(size - 1);
        assert(aligned == sized_align(absolute, (size - 1) as usize));
        let offset = match aligned.checked_sub(self.alignment_offset) {
            Some(v) => v,
            None => return Err(PayloadError::InvalidAlignmentOrigin),
        };
        if offset > self.data.len() {
            return Err(PayloadError::AlignmentOutOfBounds);
        }
        self.offset = offset;
        Ok(())
    }

    fn read_bytes(&mut self, len: usize) -> (r: Result<Vec<u8>, PayloadError>)
        requires
            old(self).wf(),
        ensures
            final(self).same_stream(old(self)),
            r matches Ok(v) ==> r_bytes(old(self).data@, old(self).offset as int, len as int)
                == Ok::<(Seq<u8>, int), PayloadError>((v@, final(self).offset as int)),
            r matches Err(e) ==> r_bytes(old(self).data@, old(self).offset as int, len as int)
                == Err::<(Seq<u8>, int), PayloadError>(e),
    {
        let end = match self.offset.checked_add(len) {
            Some(v) => v,
            None => return Err(PayloadError::OffsetOverflow),
        };
        if end > self.data.len() {
            return Err(PayloadError::UnexpectedEnd);
        }
        let mut value: Vec<u8> = Vec::new();
        push_all(&mut value, &self.data[self.offset..end]);
        self.offset = end;
        Ok(value)
    }

    fn read_u16(&mut self) -> (r: Result<u16, PayloadError>)
        requires
            old(self).wf(),
        ensures
            final(self).same_stream(old(self)),
            r matches Ok(v) ==> old(self).offset + 2 <= old(self).data@.len() && v == le_u16_at(
                old(self).data@,
                old(self).offset as int,
            ) && final(self).offset == old(self).offset + 2,
            r is Err ==> old(self).offset + 2 > old(self).data@.len(),
            r matches Err(e) ==> e == PayloadError::UnexpectedEnd,
    {
        if self.data.len() - self.offset < 2 {
            return Err(PayloadError::UnexpectedEnd);
        }
        let v = read_le_u16(self.data, self.offset);
        self.offset = self.offset + 2;
        Ok(v)
    }

    fn read_u32(&mut self) -> (r: Result<u32, PayloadError>)
        requires
            old(self).wf(),
        ensures
            final(self).same_stream(old(self)),
            r matches Ok(v) ==> old(self).offset + 4 <= old(self).data@.len() && v == le_u32_at(
                old(self).data@,
                old(self).offset as int,
            ) && final(self).offset == old(self).offset + 4,
            r is Err ==> old(self).offset + 4 > old(self).data@.len(),
            r matches Err(e) ==> e == PayloadError::UnexpectedEnd,
    {
        if self.data.len() - self.offset < 4 {
            return Err(PayloadError::UnexpectedEnd);
        }
        let v = read_le_u32(self.data, self.offset);
        self.offset = self.offset + 4;
        Ok(v)
    }

    fn read_i32(&mut self) -> (r: Result<i32, PayloadError>)
        requires
            old(self).wf(),
        ensures
            final(self).same_stream(old(self)),
            r matches Ok(v) ==> old(self).offset + 4 <= old(self).data@.len() && v == le_u32_at(
                old(self).data@,
                old(self).offset as int,
            ) as i32 && final(self).offset == old(self).offset + 4,
            r is Err ==> old(self).offset + 4 > old(self).data@.len(),
            r matches Err(e) ==> e == PayloadError::UnexpectedEnd,
    {
        match self.read_u32() {
            Ok(v) => Ok(v as i32),
            Err(e) => Err(e),
        }
    }

    fn peek_u32(&self) -> (r: Option<u32>)
        requires
            self.wf(),
        ensures
            r == r_peek_u32(self.data@, self.offset as int),
    {
        if self.data.len() - self.offset < 4 {
            None
        } else {
            Some(read_le_u32(self.data, self.offset))
        }
    }
}

// ---------------------------------------------------------------------------
// Writer
// ---------------------------------------------------------------------------
/// An output buffer for a class stream that starts `alignment_offset` bytes into its container.
struct Writer {
    data: Vec<u8>,
    alignment_offset: usize,
}

impl Writer {
    fn new(alignment_offset: usize) -> (w: Self)
        ensures
            w.data@ == Seq::<u8>::empty(),
            w.alignment_offset == alignment_offset,
    {
        Self { data: Vec::new(), alignment_offset }
    }

    /// Pads with zeros to the next absolute multiple of four.
    fn align(&mut self) -> (r: Result<(), PayloadError>)
        ensures
            final(self).alignment_offset == old(self).alignment_offset,
            r matches Ok(_) ==> w_align4(old(self).data@, old(self).alignment_offset as int)
                == Ok::<Seq<u8>, PayloadError>(final(self).data@),
            r matches Err(e) ==> w_align4(old(self).data@, old(self).alignment_offset as int)
                == Err::<Seq<u8>, PayloadError>(e),
    {
        let absolute = match self.alignment_offset.checked_add(self.data.len()) {
            Some(v) => v,
            None => return Err(PayloadError::OffsetOverflow),
        };
        let bumped = match absolute.checked_add(3) {
            Some(v) => v,
            None => return Err(PayloadError::OffsetOverflow),
        };
        let aligned = (bumped / 4) * 4;
        let len = aligned - self.alignment_offset;
        resize_zero(&mut self.data, len);
        Ok(())
    }

    /// Pads with zeros so that a value of `size` bytes starts at its alignment.
    fn align_sized(&mut self, size: usize) -> (r: Result<(), PayloadError>)
        requires
            size >= 1,
        ensures
            final(self).alignment_offset == old(self).alignment_offset,
            r matches Ok(_) ==> w_align_sized(old(self).data@, old(self).alignment_offset as int,
                size as int) == Ok::<Seq<u8>, PayloadError>(final(self).data@),
            r matches Err(e) ==> w_align_sized(old(self).data@, old(self).alignment_offset as int,
                size as int) == Err::<Seq<u8>, PayloadError>(e),
    {
        let absolute = match self.alignment_offset.checked_add(self.data.len()) {
            Some(v) => v,
            None => return Err(PayloadError::OffsetOverflow),
        };
        let bumped = match absolute.checked_add(size - 1) {
            Some(v) => v,
            None => return Err(PayloadError::OffsetOverflow),
        };
        let aligned = bumped & !(size - 1);
        assert(aligned == sized_align(absolute, (size - 1) as usize));
        let len = match aligned.checked_sub(self.alignment_offset) {
            Some(v) => v,
            None => return Err(PayloadError::InvalidAlignmentOrigin),
        };
        resize_zero(&mut self.data, len);
        Ok(())
    }

    fn write_bytes(&mut self, value: &[u8])
        ensures
            final(self).alignment_offset == old(self).alignment_offset,
            final(self).data@ == old(self).data@ + value@,
    {
        push_all(&mut self.data, value);
    }

    fn write_u16(&mut self, value: u16)
        ensures
            final(self).alignment_offset == old(self).alignment_offset,
            final(self).data@ == old(self).data@ + u16_le(value),
    {
        push_le_u16(&mut self.data, value);
    }

    fn write_u32(&mut self, value: u32)
        ensures
            final(self).alignment_offset == old(self).alignment_offset,
            final(self).data@ == old(self).data@ + u32_le(value),
    {
        push_le_u32(&mut self.data, value);
    }

    fn write_i32(&mut self, value: i32)
        ensures
            final(self).alignment_offset == old(self).alignment_offset,
            final(self).data@ == old(self).data@ + u32_le(value as u32),
    {
        push_le_u32(&mut self.data, value as u32);
    }

    fn finish(self) -> (data: Vec<u8>)
        ensures
            data@ == self.data@,
    {
        self.data
    }
}

// ---------------------------------------------------------------------------
// Reading
// ---------------------------------------------------------------------------
/// `r` with `pre` put before the fields it holds.
pub open spec fn prepend_fields(
    pre: Seq<FieldModel>,
    r: Result<(Seq<FieldModel>, int), PayloadError>,
) -> Result<(Seq<FieldModel>, int), PayloadError> {
    match r {
        Ok((fs, p)) => Ok((pre + fs, p)),
        Err(e) => Err(e),
    }
}

/// `r` with `pre` put before the array values it holds.
pub open spec fn prepend_elements(
    pre: Seq<ElementModel>,
    r: Result<(Seq<ElementModel>, int), PayloadError>,
) -> Result<(Seq<ElementModel>, int), PayloadError> {
    match r {
        Ok((vs, p)) => Ok((pre + vs, p)),
        Err(e) => Err(e),
    }
}

/// `r` with `pre` put before the entries it holds.
pub open spec fn prepend_entries(
    pre: Seq<EntryModel>,
    r: Result<Seq<EntryModel>, PayloadError>,
) -> Result<Seq<EntryModel>, PayloadError> {
    match r {
        Ok(es) => Ok(pre + es),
        Err(e) => Err(e),
    }
}

/// One step of `r_fields`: the first field, then the rest.
proof fn lemma_r_fields_step(d: Seq<u8>, off: int, cur: int, n: int, f: FieldModel, p: int)
    requires
        0 <= cur < p <= d.len(),
        n >= 1,
        r_field(d, off, cur) == Ok::<(FieldModel, int), PayloadError>((f, p)),
    ensures
        r_fields(d, off, cur, n) == prepend_fields(seq![f], r_fields(d, off, p, n - 1)),
{
}

/// One step of `r_elements`: the first value, then the rest.
proof fn lemma_r_elements_step(
    d: Seq<u8>,
    off: int,
    cur: int,
    n: int,
    at: i32,
    mt: i32,
    ms: u32,
    v: ElementModel,
    p: int,
)
    requires
        0 <= cur < p <= d.len(),
        n >= 1,
        r_element(d, off, cur, at, mt, ms) == Ok::<(ElementModel, int), PayloadError>((v, p)),
    ensures
        r_elements(d, off, cur, n, at, mt, ms) == prepend_elements(
            seq![v],
            r_elements(d, off, p, n - 1, at, mt, ms),
        ),
{
}

/// Putting `a` and then `b` in front is putting `a + b` in front.
proof fn lemma_prepend_fields_twice(
    a: Seq<FieldModel>,
    b: Seq<FieldModel>,
    r: Result<(Seq<FieldModel>, int), PayloadError>,
)
    ensures
        prepend_fields(a, prepend_fields(b, r)) == prepend_fields(a + b, r),
{
    match r {
        Ok((fs, q)) => {
            assert(a + (b + fs) =~= (a + b) + fs);
        },
        Err(_) => {},
    }
}

/// Putting `a` and then `b` in front is putting `a + b` in front.
proof fn lemma_prepend_elements_twice(
    a: Seq<ElementModel>,
    b: Seq<ElementModel>,
    r: Result<(Seq<ElementModel>, int), PayloadError>,
)
    ensures
        prepend_elements(a, prepend_elements(b, r)) == prepend_elements(a + b, r),
{
    match r {
        Ok((vs, q)) => {
            assert(a + (b + vs) =~= (a + b) + vs);
        },
        Err(_) => {},
    }
}

/// Reads `count` fields.
fn read_fields(reader: &mut Reader<'_>, count: u32) -> (res: Result<Vec<Field>, PayloadError>)
    requires
        old(reader).wf(),
    ensures
        final(reader).same_stream(old(reader)),
        res is Ok ==> final(reader).offset >= old(reader).offset,
        res matches Ok(fs) ==> r_fields(old(reader).data@, old(reader).alignment_offset as int,
            old(reader).offset as int, count as int) == Ok::<(Seq<FieldModel>, int), PayloadError>(
            (fields_model(fs@), final(reader).offset as int),
        ),
        res matches Err(e) ==> r_fields(old(reader).data@, old(reader).alignment_offset as int,
            old(reader).offset as int, count as int) == Err::<(Seq<FieldModel>, int), PayloadError>(
            e,
        ),
    decreases old(reader).data@.len() - old(reader).offset, 1int,
{
    let ghost d = reader.data@;
    let ghost off = reader.alignment_offset as int;
    let ghost p0 = reader.offset as int;
    let mut fields: Vec<Field> = Vec::new();
    let mut index: u32 = 0;
    while index < count
        invariant
            reader.same_stream(old(reader)),
            d == reader.data@,
            off == reader.alignment_offset,
            p0 == old(reader).offset,
            index <= count,
            reader.offset >= p0,
            r_fields(d, off, p0, count as int) == prepend_fields(
                fields_model(fields@),
                r_fields(d, off, reader.offset as int, (count - index) as int),
            ),
        decreases count - index,
    {
        let ghost cur = reader.offset as int;
        let field = match read_field(reader) {
            Ok(f) => f,
            Err(e) => return Err(e),
        };
        let ghost before = fields@;
        fields.push(field);
        proof {
            lemma_r_fields_step(d, off, cur, (count - index) as int, field@, reader.offset as int);
            lemma_prepend_fields_twice(
                fields_model(before),
                seq![field@],
                r_fields(d, off, reader.offset as int, (count - index - 1) as int),
            );
            assert(fields@.drop_last() =~= before);
            assert(fields_model(fields@) == fields_model(before).push(field@));
            assert(fields_model(before) + seq![field@] =~= fields_model(before).push(field@));
        }
        index = index + 1;
    }
    proof {
        assert(fields_model(fields@) + Seq::<FieldModel>::empty() =~= fields_model(fields@));
    }
    Ok(fields)
}

fn read_class(reader: &mut Reader<'_>) -> (res: Result<Class, PayloadError>)
    requires
        old(reader).wf(),
    ensures
        final(reader).same_stream(old(reader)),
        res matches Ok(c) ==> r_class(old(reader).data@, old(reader).alignment_offset as int,
            old(reader).offset as int) == Ok::<(ClassModel, int), PayloadError>(
            (c@, final(reader).offset as int),
        ) && final(reader).offset > old(reader).offset,
        res matches Err(e) ==> r_class(old(reader).data@, old(reader).alignment_offset as int,
            old(reader).offset as int) == Err::<(ClassModel, int), PayloadError>(e),
    decreases old(reader).data@.len() - old(reader).offset, 0int,
{
    let field_count = match reader.read_u32() {
        Ok(v) => v,
        Err(e) => return Err(e),
    };
    let hash = match reader.read_u32() {
        Ok(v) => v,
        Err(e) => return Err(e),
    };
    if field_count as usize > reader.remaining() / 8 {
        return Err(PayloadError::ImpossibleFieldCount { class_hash: hash, field_count });
    }
    let fields = match read_fields(reader, field_count) {
        Ok(fs) => fs,
        Err(e) => return Err(e),
    };
    Ok(Class { hash, fields })
}

fn read_field(reader: &mut Reader<'_>) -> (res: Result<Field, PayloadError>)
    requires
        old(reader).wf(),
    ensures
        final(reader).same_stream(old(reader)),
        res matches Ok(f) ==> r_field(old(reader).data@, old(reader).alignment_offset as int,
            old(reader).offset as int) == Ok::<(FieldModel, int), PayloadError>(
            (f@, final(reader).offset as int),
        ) && final(reader).offset > old(reader).offset,
        res matches Err(e) ==> r_field(old(reader).data@, old(reader).alignment_offset as int,
            old(reader).offset as int) == Err::<(FieldModel, int), PayloadError>(e),
    decreases old(reader).data@.len() - old(reader).offset, 0int,
{
    let hash = match reader.read_u32() {
        Ok(v) => v,
        Err(e) => return Err(e),
    };
    let field_type = match reader.read_i32() {
        Ok(v) => v,
        Err(e) => return Err(e),
    };
    let value = if field_type == FIELD_TYPE_ARRAY {
        match read_array(reader) {
            Ok(a) => FieldValue::Array(a),
            Err(e) => return Err(e),
        }
    } else if field_type == FIELD_TYPE_CLASS {
        match read_class(reader) {
            Ok(c) => FieldValue::Class(Box::new(c)),
            Err(e) => return Err(e),
        }
    } else if field_type == FIELD_TYPE_STRING {
        match read_string(reader) {
            Ok(s) => FieldValue::String(s),
            Err(e) => return Err(e),
        }
    } else {
        match reader.align() {
            Ok(_) => {},
            Err(e) => return Err(e),
        }
        let size = match reader.read_u32() {
            Ok(v) => v,
            Err(e) => return Err(e),
        };
        match read_sized(reader, field_type, size) {
            Ok(bytes) => FieldValue::Scalar { size, bytes },
            Err(e) => return Err(e),
        }
    };
    match reader.align() {
        Ok(_) => {},
        Err(e) => return Err(e),
    }
    Ok(Field { hash, field_type, value })
}

/// Reads the class-hash table of `len` hashes that follows the array marker.
fn read_class_hashes(reader: &mut Reader<'_>, len: u32) -> (res: Result<Vec<u32>, PayloadError>)
    requires
        old(reader).wf(),
    ensures
        final(reader).same_stream(old(reader)),
        res matches Ok(h) ==> old(reader).offset + 4 + 4 * len <= old(reader).data@.len() && h@
            == u32s_at(old(reader).data@, old(reader).offset + 4, len as nat)
            && final(reader).offset == old(reader).offset + 4 + 4 * len,
        res matches Err(e) ==> old(reader).offset + 4 + 4 * len > old(reader).data@.len() && e
            == PayloadError::UnexpectedEnd,
{
    let ghost d = reader.data@;
    let ghost p = reader.offset as int;
    match reader.read_u32() {
        Ok(_) => {},
        Err(e) => return Err(e),
    }
    let mut hashes: Vec<u32> = Vec::new();
    let mut i: u32 = 0;
    while i < len
        invariant
            reader.same_stream(old(reader)),
            d == reader.data@,
            p == old(reader).offset,
            i <= len,
            reader.offset == p + 4 + 4 * i,
            hashes@ == u32s_at(d, p + 4, i as nat),
        decreases len - i,
    {
        let h = match reader.read_u32() {
            Ok(v) => v,
            Err(e) => return Err(e),
        };
        hashes.push(h);
        assert(hashes@ =~= u32s_at(d, p + 4, (i + 1) as nat));
        i = i + 1;
    }
    Ok(hashes)
}

/// Reads one value of an array with array type `at`, member type `mt` and member size `ms`.
#[verifier::rlimit(40)]
fn read_array_value(reader: &mut Reader<'_>, at: i32, mt: i32, ms: u32) -> (res: Result<
    ArrayValue,
    PayloadError,
>)
    requires
        old(reader).wf(),
    ensures
        final(reader).same_stream(old(reader)),
        res matches Ok(v) ==> r_element(old(reader).data@, old(reader).alignment_offset as int,
            old(reader).offset as int, at, mt, ms) == Ok::<(ElementModel, int), PayloadError>(
            (v@, final(reader).offset as int),
        ) && final(reader).offset > old(reader).offset,
        res matches Err(e) ==> r_element(old(reader).data@, old(reader).alignment_offset as int,
            old(reader).offset as int, at, mt, ms) == Err::<(ElementModel, int), PayloadError>(e),
    decreases old(reader).data@.len() - old(reader).offset, 1int,
{
    if at == ARRAY_TYPE_CLASS {
        match read_class(reader) {
            Ok(c) => Ok(ArrayValue::Class(Box::new(c))),
            Err(e) => Err(e),
        }
    } else if mt == FIELD_TYPE_ARRAY {
        match read_array(reader) {
            Ok(a) => Ok(ArrayValue::Array(Box::new(a))),
            Err(e) => Err(e),
        }
    } else if mt == FIELD_TYPE_STRING {
        match read_string(reader) {
            Ok(s) => Ok(ArrayValue::String(s)),
            Err(e) => Err(e),
        }
    } else {
        match read_sized(reader, mt, ms) {
            Ok(b) => Ok(ArrayValue::Scalar(b)),
            Err(e) => Err(e),
        }
    }
}

/// Reads `len` values of an array with array type `at`, member type `mt` and member size `ms`.
fn read_array_values(reader: &mut Reader<'_>, len: u32, at: i32, mt: i32, ms: u32) -> (res:
    Result<Vec<ArrayValue>, PayloadError>)
    requires
        old(reader).wf(),
    ensures
        final(reader).same_stream(old(reader)),
        res is Ok ==> final(reader).offset >= old(reader).offset,
        res matches Ok(vs) ==> r_elements(old(reader).data@, old(reader).alignment_offset as int,
            old(reader).offset as int, len as int, at, mt, ms) == Ok::<
            (Seq<ElementModel>, int),
            PayloadError,
        >((elements_model(vs@), final(reader).offset as int)),
        res matches Err(e) ==> r_elements(old(reader).data@, old(reader).alignment_offset as int,
            old(reader).offset as int, len as int, at, mt, ms) == Err::<
            (Seq<ElementModel>, int),
            PayloadError,
        >(e),
    decreases old(reader).data@.len() - old(reader).offset, 2int,
{
    let ghost d = reader.data@;
    let ghost off = reader.alignment_offset as int;
    let ghost p0 = reader.offset as int;
    let mut values: Vec<ArrayValue> = Vec::new();
    let mut i: u32 = 0;
    while i < len
        invariant
            reader.same_stream(old(reader)),
            d == reader.data@,
            off == reader.alignment_offset,
            p0 == old(reader).offset,
            i <= len,
            reader.offset >= p0,
            r_elements(d, off, p0, len as int, at, mt, ms) == prepend_elements(
                elements_model(values@),
                r_elements(d, off, reader.offset as int, (len - i) as int, at, mt, ms),
            ),
        decreases len - i,
    {
        let ghost cur = reader.offset as int;
        let value = match read_array_value(reader, at, mt, ms) {
            Ok(v) => v,
            Err(e) => return Err(e),
        };
        let ghost before = values@;
        values.push(value);
        proof {
            lemma_r_elements_step(
                d,
                off,
                cur,
                (len - i) as int,
                at,
                mt,
                ms,
                value@,
                reader.offset as int,
            );
            lemma_prepend_elements_twice(
                elements_model(before),
                seq![value@],
                r_elements(d, off, reader.offset as int, (len - i - 1) as int, at, mt, ms),
            );
            assert(values@.drop_last() =~= before);
            assert(elements_model(values@) == elements_model(before).push(value@));
            assert(elements_model(before) + seq![value@] =~= elements_model(before).push(value@));
        }
        i = i + 1;
    }
    proof {
        assert(elements_model(values@) + Seq::<ElementModel>::empty() =~= elements_model(values@));
    }
    Ok(values)
}

fn read_array(reader: &mut Reader<'_>) -> (res: Result<Array, PayloadError>)
    requires
        old(reader).wf(),
    ensures
        final(reader).same_stream(old(reader)),
        res matches Ok(a) ==> r_array(old(reader).data@, old(reader).alignment_offset as int,
            old(reader).offset as int) == Ok::<(ArrayModel, int), PayloadError>(
            (a@, final(reader).offset as int),
        ) && final(reader).offset > old(reader).offset,
        res matches Err(e) ==> r_array(old(reader).data@, old(reader).alignment_offset as int,
            old(reader).offset as int) == Err::<(ArrayModel, int), PayloadError>(e),
    decreases old(reader).data@.len() - old(reader).offset, 0int,
{
    match reader.align() {
        Ok(_) => {},
        Err(e) => return Err(e),
    }
    let member_type = match reader.read_i32() {
        Ok(v) => v,
        Err(e) => return Err(e),
    };
    let member_size = match reader.read_u32() {
        Ok(v) => v,
        Err(e) => return Err(e),
    };
    let len = match reader.read_u32() {
        Ok(v) => v,
        Err(e) => return Err(e),
    };
    let array_type = match reader.read_i32() {
        Ok(v) => v,
        Err(e) => return Err(e),
    };
    if array_type != ARRAY_TYPE_VALUE && array_type != ARRAY_TYPE_CLASS {
        return Err(PayloadError::UnsupportedArrayType(array_type));
    }
    let class_hashes = if array_type == ARRAY_TYPE_CLASS && reader.peek_u32() == Some(
        ARRAY_MARKER,
    ) {
        match read_class_hashes(reader, len) {
            Ok(h) => Some(h),
            Err(e) => return Err(e),
        }
    } else {
        None
    };
    let values = match read_array_values(reader, len, array_type, member_type, member_size) {
        Ok(vs) => vs,
        Err(e) => return Err(e),
    };
    match reader.align() {
        Ok(_) => {},
        Err(e) => return Err(e),
    }
    Ok(Array { member_type, member_size, array_type, class_hashes, values })
}

fn read_string(reader: &mut Reader<'_>) -> (res: Result<Vec<u16>, PayloadError>)
    requires
        old(reader).wf(),
    ensures
        final(reader).same_stream(old(reader)),
        res matches Ok(s) ==> r_string(old(reader).data@, old(reader).alignment_offset as int,
            old(reader).offset as int) == Ok::<(Seq<u16>, int), PayloadError>(
            (s@, final(reader).offset as int),
        ) && final(reader).offset > old(reader).offset,
        res matches Err(e) ==> r_string(old(reader).data@, old(reader).alignment_offset as int,
            old(reader).offset as int) == Err::<(Seq<u16>, int), PayloadError>(e),
{
    let ghost d = reader.data@;
    match reader.align() {
        Ok(_) => {},
        Err(e) => return Err(e),
    }
    let len = match reader.read_u32() {
        Ok(v) => v,
        Err(e) => return Err(e),
    };
    if len as usize > reader.remaining() / 2 {
        return Err(PayloadError::StringExceedsPayload(len));
    }
    let ghost start = reader.offset as int;
    let mut value: Vec<u16> = Vec::new();
    let mut i: u32 = 0;
    while i < len
        invariant
            reader.same_stream(old(reader)),
            d == reader.data@,
            i <= len,
            start + 2 * len <= d.len(),
            reader.offset == start + 2 * i,
            value@ == u16s_at(d, start, i as nat),
        decreases len - i,
    {
        let unit = match reader.read_u16() {
            Ok(v) => v,
            Err(e) => return Err(e),
        };
        value.push(unit);
        assert(value@ =~= u16s_at(d, start, (i + 1) as nat));
        i = i + 1;
    }
    Ok(value)
}

/// Aligning for a sized value never moves backwards and moves by less than its size.
proof fn lemma_sized_align_bounds(abs: usize, mask: usize)
    requires
        abs + mask <= usize::MAX,
    ensures
        abs <= sized_align(abs, mask) <= abs + mask,
{
    let y = (abs + mask) as usize;
    assert((y & !mask) + (y & mask) == y && (y & mask) <= mask) by (bit_vector);
}

fn read_sized(reader: &mut Reader<'_>, field_type: i32, size: u32) -> (res: Result<
    Vec<u8>,
    PayloadError,
>)
    requires
        old(reader).wf(),
    ensures
        final(reader).same_stream(old(reader)),
        res matches Ok(b) ==> r_sized(old(reader).data@, old(reader).alignment_offset as int,
            old(reader).offset as int, size) == Ok::<(Seq<u8>, int), PayloadError>(
            (b@, final(reader).offset as int),
        ) && final(reader).offset > old(reader).offset,
        res matches Err(e) ==> r_sized(old(reader).data@, old(reader).alignment_offset as int,
            old(reader).offset as int, size) == Err::<(Seq<u8>, int), PayloadError>(e),
{
    if size == 0 {
        return Err(PayloadError::ZeroSizedValue);
    }
    if size != 1 {
        let ghost abs = (reader.alignment_offset + reader.offset) as usize;
        match reader.align_sized(size as usize) {
            Ok(_) => {},
            Err(e) => return Err(e),
        }
        proof {
            lemma_sized_align_bounds(abs, (size - 1) as usize);
        }
    }
    reader.read_bytes(size as usize)
}

/// One step of `r_entries`: an entry, then the rest of the stream.
proof fn lemma_r_entries_step(d: Seq<u8>, off: int, cur: int, native_hash: u32, c: ClassModel, p: int)
    requires
        0 <= cur < p <= d.len(),
        has4(d, cur),
        !(d.len() - cur < 12 && all_zero_from(d, cur)),
        native_hash == le_u32_at(d, cur),
        r_class(d, off, cur + 4) == Ok::<(ClassModel, int), PayloadError>((c, p)),
    ensures
        r_entries(d, off, cur) == prepend_entries(
            seq![EntryModel { native_hash, class: c }],
            r_entries(d, off, p),
        ),
{
    lemma_r_entries_def(d, off, cur);
}

/// Whether every byte of `bytes` is zero.
fn all_zero(bytes: &[u8]) -> (r: bool)
    ensures
        r == forall|i: int| 0 <= i < bytes@.len() ==> bytes@[i] == 0,
{
    let mut i: usize = 0;
    while i < bytes.len()
        invariant
            i <= bytes@.len(),
            forall|j: int| 0 <= j < i ==> bytes@[j] == 0,
        decreases bytes@.len() - i,
    {
        if bytes[i] != 0 {
            return false;
        }
        i = i + 1;
    }
    true
}

impl SavePayload {
    /// Parses a class stream that starts at the beginning of its container.
    pub fn parse(data: &[u8]) -> (r: Result<Self, PayloadError>)
        ensures
            r matches Ok(p) ==> parse_spec(data@, 0) == Ok::<PayloadModel, PayloadError>(p@),
            r matches Err(e) ==> parse_spec(data@, 0) == Err::<PayloadModel, PayloadError>(e),
            r matches Ok(p) ==> typed_payload(p@),
    {
        Self::parse_at_offset(data, 0)
    }

    /// Parses a class stream that starts `alignment_offset` bytes into its container.
    pub fn parse_at_offset(data: &[u8], alignment_offset: usize) -> (r: Result<Self, PayloadError>)
        ensures
            r matches Ok(p) ==> parse_spec(data@, alignment_offset as int) == Ok::<
                PayloadModel,
                PayloadError,
            >(p@),
            r matches Err(e) ==> parse_spec(data@, alignment_offset as int) == Err::<
                PayloadModel,
                PayloadError,
            >(e),
            r matches Ok(p) ==> typed_payload(p@),
    {
        let ghost d = data@;
        let ghost off = alignment_offset as int;
        let mut reader = Reader::new(data, alignment_offset);
        let mut entries: Vec<NativeClass> = Vec::new();
        loop
            invariant
                reader.wf(),
                reader.data@ == d,
                d == data@,
                off == alignment_offset,
                reader.alignment_offset == off,
                r_entries(d, off, 0) == prepend_entries(
                    entries_model(entries@),
                    r_entries(d, off, reader.offset as int),
                ),
            ensures
                r_entries(d, off, reader.offset as int) == Ok::<Seq<EntryModel>, PayloadError>(
                    Seq::empty(),
                ),
                r_entries(d, off, 0) == prepend_entries(
                    entries_model(entries@),
                    r_entries(d, off, reader.offset as int),
                ),
            decreases d.len() - reader.offset,
        {
            let ghost cur = reader.offset as int;
            proof {
                lemma_r_entries_def(d, off, cur);
            }
            if reader.remaining() == 0 {
                break;
            }
            if reader.remaining() < 12 {
                let rest = reader.rest();
                let zero = all_zero(rest);
                proof {
                    if zero {
                        assert forall|i: int| cur <= i < d.len() implies d[i] == 0 by {
                            assert(d[i] == rest@[i - cur]);
                        }
                    } else if all_zero_from(d, cur) {
                        assert(forall|i: int| 0 <= i < rest@.len() ==> rest@[i] == d[cur + i]);
                    }
                }
                if zero {
                    break;
                }
            }
            let native_hash = match reader.read_u32() {
                Ok(v) => v,
                Err(e) => return Err(e),
            };
            let class = match read_class(&mut reader) {
                Ok(c) => c,
                Err(e) => return Err(e),
            };
            let entry = NativeClass { native_hash, class };
            let ghost before = entries@;
            entries.push(entry);
            proof {
                lemma_r_entries_step(d, off, cur, native_hash, class@, reader.offset as int);
                assert(entries_model(entries@) =~= entries_model(before) + seq![entry@]);
                match r_entries(d, off, reader.offset as int) {
                    Ok(es) => {
                        assert(entries_model(before) + (seq![entry@] + es) =~= entries_model(
                            entries@,
                        ) + es);
                    },
                    Err(_) => {},
                }
            }
        }
        proof {
            assert(entries_model(entries@) + Seq::<EntryModel>::empty() =~= entries_model(
                entries@,
            ));
            lemma_parsed_payload_typed(d, off);
        }
        Ok(SavePayload { entries })
    }

    /// Writes the class stream for a container whose stream starts at its beginning.
    pub fn encode(&self) -> (r: Result<Vec<u8>, PayloadError>)
        ensures
            r matches Ok(b) ==> encode_spec(self@, 0) == Ok::<Seq<u8>, PayloadError>(b@),
            r matches Err(e) ==> encode_spec(self@, 0) == Err::<Seq<u8>, PayloadError>(e),
    {
        self.encode_at_offset(0)
    }

    /// Writes the class stream for a container whose stream starts `alignment_offset` bytes in.
    pub fn encode_at_offset(&self, alignment_offset: usize) -> (r: Result<Vec<u8>, PayloadError>)
        ensures
            r matches Ok(b) ==> encode_spec(self@, alignment_offset as int) == Ok::<
                Seq<u8>,
                PayloadError,
            >(b@),
            r matches Err(e) ==> encode_spec(self@, alignment_offset as int) == Err::<
                Seq<u8>,
                PayloadError,
            >(e),
    {
        let ghost off = alignment_offset as int;
        let ghost em = self@.entries;
        let mut writer = Writer::new(alignment_offset);
        let mut i: usize = 0;
        assert(em.skip(0) =~= em);
        while i < self.entries.len()
            invariant
                i <= self.entries@.len(),
                em == entries_model(self.entries@),
                writer.alignment_offset == off,
                off == alignment_offset,
                w_entries(Seq::empty(), off, em) == w_entries(writer.data@, off, em.skip(i as int)),
            decreases self.entries@.len() - i,
        {
            let ghost cur = writer.data@;
            proof {
                lemma_w_entries_def(cur, off, em, i as int);
            }
            writer.write_u32(self.entries[i].native_hash);
            let r = write_class(&mut writer, &self.entries[i].class);
            match r {
                Ok(_) => {},
                Err(e) => return Err(e),
            }
            i = i + 1;
        }
        proof {
            assert(em.skip(i as int) =~= Seq::<EntryModel>::empty());
            lemma_w_entries_def(writer.data@, off, em, 0);
        }
        Ok(writer.finish())
    }
}

// ---------------------------------------------------------------------------
// Writing
// ---------------------------------------------------------------------------
/// The model of field `i` of a sequence of fields.
proof fn lemma_field_model_at(fs: Seq<Field>, i: int)
    requires
        0 <= i < fs.len(),
    ensures
        fields_model(fs).len() == fs.len(),
        fields_model(fs)[i] == field_model(fs[i]),
{
    lemma_fields_model(fs);
}

/// The model of value `i` of a sequence of array values.
proof fn lemma_element_model_at(vs: Seq<ArrayValue>, i: int)
    requires
        0 <= i < vs.len(),
    ensures
        elements_model(vs).len() == vs.len(),
        elements_model(vs)[i] == element_model(vs[i]),
{
    lemma_elements_model(vs);
}

fn write_class(writer: &mut Writer, class: &Class) -> (r: Result<(), PayloadError>)
    ensures
        final(writer).alignment_offset == old(writer).alignment_offset,
        r matches Ok(_) ==> w_class(old(writer).data@, old(writer).alignment_offset as int, class@)
            == Ok::<Seq<u8>, PayloadError>(final(writer).data@),
        r matches Err(e) ==> w_class(old(writer).data@, old(writer).alignment_offset as int, class@)
            == Err::<Seq<u8>, PayloadError>(e),
    decreases class, 1int,
{
    proof {
        lemma_fields_model(class.fields@);
        lemma_w_class_def(writer.data@, writer.alignment_offset as int, class@);
    }
    if class.fields.len() > 0xffff_ffff {
        return Err(PayloadError::TooManyFields);
    }
    writer.write_u32(class.fields.len() as u32);
    writer.write_u32(class.hash);
    write_fields(writer, &class.fields)
}

/// Writes each field of `fields` in order.
fn write_fields(writer: &mut Writer, fields: &Vec<Field>) -> (r: Result<(), PayloadError>)
    ensures
        final(writer).alignment_offset == old(writer).alignment_offset,
        r matches Ok(_) ==> w_fields(old(writer).data@, old(writer).alignment_offset as int,
            fields_model(fields@)) == Ok::<Seq<u8>, PayloadError>(final(writer).data@),
        r matches Err(e) ==> w_fields(old(writer).data@, old(writer).alignment_offset as int,
            fields_model(fields@)) == Err::<Seq<u8>, PayloadError>(e),
    decreases fields, 0int,
{
    let ghost off = writer.alignment_offset as int;
    let ghost fm = fields_model(fields@);
    let ghost start = writer.data@;
    proof {
        lemma_fields_model(fields@);
        assert(fm.skip(0) =~= fm);
    }
    let mut i: usize = 0;
    while i < fields.len()
        invariant
            i <= fields@.len(),
            fm == fields_model(fields@),
            fm.len() == fields@.len(),
            writer.alignment_offset == off,
            off == old(writer).alignment_offset,
            start == old(writer).data@,
            w_fields(start, off, fm) == w_fields(writer.data@, off, fm.skip(i as int)),
        decreases fields@.len() - i,
    {
        let ghost cur = writer.data@;
        proof {
            lemma_field_model_at(fields@, i as int);
            lemma_w_fields_def(cur, off, fm, i as int);
        }
        assert(decreases_to!(fields => fields@[i as int]));
        let r = write_field(writer, &fields[i]);
        match r {
            Ok(_) => {},
            Err(e) => return Err(e),
        }
        i = i + 1;
    }
    proof {
        assert(fm.skip(i as int) =~= Seq::<FieldModel>::empty());
        lemma_w_fields_def(writer.data@, off, fm, 0);
    }
    Ok(())
}

fn write_field(writer: &mut Writer, field: &Field) -> (r: Result<(), PayloadError>)
    ensures
        final(writer).alignment_offset == old(writer).alignment_offset,
        r matches Ok(_) ==> w_field(old(writer).data@, old(writer).alignment_offset as int, field@)
            == Ok::<Seq<u8>, PayloadError>(final(writer).data@),
        r matches Err(e) ==> w_field(old(writer).data@, old(writer).alignment_offset as int, field@)
            == Err::<Seq<u8>, PayloadError>(e),
    decreases field, 1int,
{
    proof {
        lemma_w_field_def(writer.data@, writer.alignment_offset as int, field@);
        lemma_w_field_def(
            writer.data@ + u32_le(field.hash) + u32_le(field.field_type as u32),
            writer.alignment_offset as int,
            field@,
        );
    }
    writer.write_u32(field.hash);
    writer.write_i32(field.field_type);
    match &field.value {
        FieldValue::Array(array) if field.field_type == FIELD_TYPE_ARRAY => {
            match write_array(writer, array) {
                Ok(_) => {},
                Err(e) => return Err(e),
            }
        },
        FieldValue::Class(class) if field.field_type == FIELD_TYPE_CLASS => {
            match write_class(writer, class) {
                Ok(_) => {},
                Err(e) => return Err(e),
            }
        },
        FieldValue::String(value) if field.field_type == FIELD_TYPE_STRING => {
            match write_string(writer, value) {
                Ok(_) => {},
                Err(e) => return Err(e),
            }
        },
        FieldValue::Scalar { size, bytes } => {
            match writer.align() {
                Ok(_) => {},
                Err(e) => return Err(e),
            }
            writer.write_u32(*size);
            match write_sized(writer, *size, bytes) {
                Ok(_) => {},
                Err(e) => return Err(e),
            }
        },
        _ => return Err(PayloadError::ValueTypeMismatch(field.hash)),
    }
    writer.align()
}

fn write_array(writer: &mut Writer, array: &Array) -> (r: Result<(), PayloadError>)
    ensures
        final(writer).alignment_offset == old(writer).alignment_offset,
        r matches Ok(_) ==> w_array(old(writer).data@, old(writer).alignment_offset as int, array@)
            == Ok::<Seq<u8>, PayloadError>(final(writer).data@),
        r matches Err(e) ==> w_array(old(writer).data@, old(writer).alignment_offset as int, array@)
            == Err::<Seq<u8>, PayloadError>(e),
    decreases array, 1int,
{
    proof {
        lemma_elements_model(array.values@);
        lemma_w_array_def(writer.data@, writer.alignment_offset as int, array@);
    }
    match writer.align() {
        Ok(_) => {},
        Err(e) => return Err(e),
    }
    if array.values.len() > 0xffff_ffff {
        return Err(PayloadError::ArrayTooLarge);
    }
    writer.write_i32(array.member_type);
    writer.write_u32(array.member_size);
    writer.write_u32(array.values.len() as u32);
    writer.write_i32(array.array_type);
    match &array.class_hashes {
        Some(hashes) => {
            if array.array_type != ARRAY_TYPE_CLASS || hashes.len() != array.values.len() {
                return Err(PayloadError::HashTableMismatch);
            }
            writer.write_u32(ARRAY_MARKER);
            write_hashes(writer, hashes);
        },
        None => {},
    }
    match write_array_values(writer, array) {
        Ok(_) => {},
        Err(e) => return Err(e),
    }
    writer.align()
}

/// Writes the class-hash table `hashes`.
fn write_hashes(writer: &mut Writer, hashes: &Vec<u32>)
    ensures
        final(writer).alignment_offset == old(writer).alignment_offset,
        final(writer).data@ == old(writer).data@ + u32s_le(hashes@),
{
    let ghost marked = writer.data@;
    let mut k: usize = 0;
    while k < hashes.len()
        invariant
            k <= hashes@.len(),
            writer.alignment_offset == old(writer).alignment_offset,
            marked == old(writer).data@,
            writer.data@ == marked + u32s_le(hashes@.take(k as int)),
        decreases hashes@.len() - k,
    {
        writer.write_u32(hashes[k]);
        proof {
            assert(hashes@.take(k + 1) =~= hashes@.take(k as int) + seq![hashes@[k as int]]);
            lemma_u32s_le_append(hashes@.take(k as int), seq![hashes@[k as int]]);
            lemma_le_single(0, hashes@[k as int]);
        }
        k = k + 1;
    }
    assert(hashes@.take(k as int) =~= hashes@);
}

/// Writes each value of `array` in order.
fn write_array_values(writer: &mut Writer, array: &Array) -> (r: Result<(), PayloadError>)
    ensures
        final(writer).alignment_offset == old(writer).alignment_offset,
        r matches Ok(_) ==> w_elements(old(writer).data@, old(writer).alignment_offset as int,
            array@, array@.values) == Ok::<Seq<u8>, PayloadError>(final(writer).data@),
        r matches Err(e) ==> w_elements(old(writer).data@, old(writer).alignment_offset as int,
            array@, array@.values) == Err::<Seq<u8>, PayloadError>(e),
    decreases array, 0int,
{
    let ghost off = writer.alignment_offset as int;
    let ghost am = array@;
    let ghost vm = am.values;
    let ghost start = writer.data@;
    proof {
        lemma_elements_model(array.values@);
        assert(vm.skip(0) =~= vm);
    }
    let mut i: usize = 0;
    while i < array.values.len()
        invariant
            i <= array.values@.len(),
            am == array@,
            vm == elements_model(array.values@),
            vm.len() == array.values@.len(),
            writer.alignment_offset == off,
            off == old(writer).alignment_offset,
            start == old(writer).data@,
            w_elements(start, off, am, vm) == w_elements(writer.data@, off, am, vm.skip(i as int)),
        decreases array.values@.len() - i,
    {
        let ghost cur = writer.data@;
        proof {
            lemma_element_model_at(array.values@, i as int);
            lemma_w_elements_def(cur, off, am, vm, i as int);
        }
        assert(decreases_to!(array => array.values@[i as int]));
        let r = write_array_value(writer, array, &array.values[i]);
        match r {
            Ok(_) => {},
            Err(e) => return Err(e),
        }
        i = i + 1;
    }
    proof {
        assert(vm.skip(i as int) =~= Seq::<ElementModel>::empty());
        lemma_w_elements_def(writer.data@, off, am, vm, 0);
    }
    Ok(())
}

/// Writes one value of `array`.
fn write_array_value(writer: &mut Writer, array: &Array, value: &ArrayValue) -> (r: Result<
    (),
    PayloadError,
>)
    ensures
        final(writer).alignment_offset == old(writer).alignment_offset,
        r matches Ok(_) ==> w_element(old(writer).data@, old(writer).alignment_offset as int,
            array@, value@) == Ok::<Seq<u8>, PayloadError>(final(writer).data@),
        r matches Err(e) ==> w_element(old(writer).data@, old(writer).alignment_offset as int,
            array@, value@) == Err::<Seq<u8>, PayloadError>(e),
    decreases value, 1int,
{
    proof {
        lemma_w_element_def(writer.data@, writer.alignment_offset as int, array@, value@);
    }
    match value {
        ArrayValue::Array(inner) => {
            if array.array_type == ARRAY_TYPE_VALUE && array.member_type == FIELD_TYPE_ARRAY {
                write_array(writer, inner)
            } else {
                Err(PayloadError::ArrayMemberMismatch)
            }
        },
        ArrayValue::Class(class) => {
            if array.array_type == ARRAY_TYPE_CLASS {
                write_class(writer, class)
            } else {
                Err(PayloadError::ArrayMemberMismatch)
            }
        },
        ArrayValue::String(s) => {
            if array.array_type == ARRAY_TYPE_VALUE && array.member_type == FIELD_TYPE_STRING {
                write_string(writer, s)
            } else {
                Err(PayloadError::ArrayMemberMismatch)
            }
        },
        ArrayValue::Scalar(b) => {
            if array.array_type == ARRAY_TYPE_VALUE {
                write_sized(writer, array.member_size, b)
            } else {
                Err(PayloadError::ArrayMemberMismatch)
            }
        },
    }
}

fn write_string(writer: &mut Writer, value: &[u16]) -> (r: Result<(), PayloadError>)
    ensures
        final(writer).alignment_offset == old(writer).alignment_offset,
        r matches Ok(_) ==> w_string(old(writer).data@, old(writer).alignment_offset as int,
            value@) == Ok::<Seq<u8>, PayloadError>(final(writer).data@),
        r matches Err(e) ==> w_string(old(writer).data@, old(writer).alignment_offset as int,
            value@) == Err::<Seq<u8>, PayloadError>(e),
{
    match writer.align() {
        Ok(_) => {},
        Err(e) => return Err(e),
    }
    if value.len() > 0xffff_ffff {
        return Err(PayloadError::StringTooLong);
    }
    writer.write_u32(value.len() as u32);
    let ghost start = writer.data@;
    let mut k: usize = 0;
    while k < value.len()
        invariant
            k <= value@.len(),
            writer.alignment_offset == old(writer).alignment_offset,
            writer.data@ == start + u16s_le(value@.take(k as int)),
        decreases value@.len() - k,
    {
        writer.write_u16(value[k]);
        proof {
            assert(value@.take(k + 1) =~= value@.take(k as int) + seq![value@[k as int]]);
            lemma_u16s_le_append(value@.take(k as int), seq![value@[k as int]]);
            lemma_le_single(value@[k as int], 0);
        }
        k = k + 1;
    }
    assert(value@.take(k as int) =~= value@);
    Ok(())
}

fn write_sized(writer: &mut Writer, size: u32, bytes: &[u8]) -> (r: Result<(), PayloadError>)
    ensures
        final(writer).alignment_offset == old(writer).alignment_offset,
        r matches Ok(_) ==> w_sized(old(writer).data@, old(writer).alignment_offset as int, size,
            bytes@) == Ok::<Seq<u8>, PayloadError>(final(writer).data@),
        r matches Err(e) ==> w_sized(old(writer).data@, old(writer).alignment_offset as int, size,
            bytes@) == Err::<Seq<u8>, PayloadError>(e),
{
    if size == 0 || bytes.len() != size as usize {
        return Err(PayloadError::SizeMismatch { declared: size, actual: bytes.len() });
    }
    if size != 1 {
        match writer.align_sized(size as usize) {
            Ok(_) => {},
            Err(e) => return Err(e),
        }
    }
    writer.write_bytes(bytes);
    Ok(())
}

} // verus!
