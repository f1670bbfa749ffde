//! Where the parts of an IPC stream lie. The reader of `arrow_ipc` trusts a
//! message's metadata on the places of its buffers and on the lengths of its
//! columns; a stream is looked over here before it is handed to that reader.

use arrow_ipc::{root_as_message, Field as RawField};
use arrow_schema::{DataType, Schema, UnionMode};
use vstd::prelude::*;

verus! {

/// A schema of `arrow_schema`. The types of its columns are named by
/// [`schema_types`].
#[verifier::external_type_specification]
#[verifier::external_body]
pub struct ExSchema(Schema);

/// A type of `arrow_schema`. What it is, and what it is made of, is named by
/// [`named_type`], [`type_parts`] and [`type_size`].
#[verifier::external_type_specification]
#[verifier::external_body]
pub struct ExDataType(DataType);

/// The types there are.
#[derive(Debug, Clone, Copy, PartialEq, Eq, Structural)]
pub enum TypeName {
    Null,
    Boolean,
    Int8,
    Int16,
    Int32,
    Int64,
    UInt8,
    UInt16,
    UInt32,
    UInt64,
    Float16,
    Float32,
    Float64,
    Timestamp,
    Date32,
    Date64,
    Time32,
    Time64,
    Duration,
    Interval,
    Decimal32,
    Decimal64,
    Decimal128,
    Decimal256,
    Binary,
    LargeBinary,
    BinaryView,
    FixedSizeBinary,
    Utf8,
    LargeUtf8,
    Utf8View,
    List,
    LargeList,
    ListView,
    LargeListView,
    FixedSizeList,
    /// A map: lists of pairs.
    Entries,
    Struct,
    RunEndEncoded,
    Dictionary,
    SparseUnion,
    DenseUnion,
    /// None of these.
    Unknown,
}

/// Which type it is, of the types that are nothing, truth values or integers.
pub uninterp spec fn number_name(t: DataType) -> Option<TypeName>;

/// Tell the variants of an `arrow_schema::DataType` apart that are the null type,
/// truth values and integers.
#[verifier::external_body]
fn number_of(t: &DataType) -> (r: Option<TypeName>)
    ensures
        r == number_name(*t),
{
    match t {
        DataType::Null => Some(TypeName::Null),
        DataType::Boolean => Some(TypeName::Boolean),
        DataType::Int8 => Some(TypeName::Int8),
        DataType::Int16 => Some(TypeName::Int16),
        DataType::Int32 => Some(TypeName::Int32),
        DataType::Int64 => Some(TypeName::Int64),
        DataType::UInt8 => Some(TypeName::UInt8),
        DataType::UInt16 => Some(TypeName::UInt16),
        DataType::UInt32 => Some(TypeName::UInt32),
        DataType::UInt64 => Some(TypeName::UInt64),
        _ => None,
    }
}

/// Which type it is, of the types that are floating point or time.
pub uninterp spec fn moment_name(t: DataType) -> Option<TypeName>;

/// Tell the variants of an `arrow_schema::DataType` apart that are floating point
/// numbers, points in time and spans.
#[verifier::external_body]
fn moment_of(t: &DataType) -> (r: Option<TypeName>)
    ensures
        r == moment_name(*t),
{
    match t {
        DataType::Float16 => Some(TypeName::Float16),
        DataType::Float32 => Some(TypeName::Float32),
        DataType::Float64 => Some(TypeName::Float64),
        DataType::Timestamp(_, _) => Some(TypeName::Timestamp),
        DataType::Date32 => Some(TypeName::Date32),
        DataType::Date64 => Some(TypeName::Date64),
        DataType::Time32(_) => Some(TypeName::Time32),
        DataType::Time64(_) => Some(TypeName::Time64),
        DataType::Duration(_) => Some(TypeName::Duration),
        DataType::Interval(_) => Some(TypeName::Interval),
        _ => None,
    }
}

/// Which type it is, of the types that are decimals, bytes or text.
pub uninterp spec fn bytes_name(t: DataType) -> Option<TypeName>;

/// Tell the variants of an `arrow_schema::DataType` apart that are decimals, bytes and text.
#[verifier::external_body]
fn bytes_of(t: &DataType) -> (r: Option<TypeName>)
    ensures
        r == bytes_name(*t),
{
    match t {
        DataType::Decimal32(_, _) => Some(TypeName::Decimal32),
        DataType::Decimal64(_, _) => Some(TypeName::Decimal64),
        DataType::Decimal128(_, _) => Some(TypeName::Decimal128),
        DataType::Decimal256(_, _) => Some(TypeName::Decimal256),
        DataType::Binary => Some(TypeName::Binary),
        DataType::LargeBinary => Some(TypeName::LargeBinary),
        DataType::BinaryView => Some(TypeName::BinaryView),
        DataType::FixedSizeBinary(_) => Some(TypeName::FixedSizeBinary),
        DataType::Utf8 => Some(TypeName::Utf8),
        DataType::LargeUtf8 => Some(TypeName::LargeUtf8),
        DataType::Utf8View => Some(TypeName::Utf8View),
        _ => None,
    }
}

/// Which type it is, of the types that are made of other types.
pub uninterp spec fn nested_name(t: DataType) -> Option<TypeName>;

/// Tell the variants of an `arrow_schema::DataType` apart that are types made of others.
#[verifier::external_body]
fn nested_of(t: &DataType) -> (r: Option<TypeName>)
    ensures
        r == nested_name(*t),
{
    match t {
        DataType::List(_) => Some(TypeName::List),
        DataType::LargeList(_) => Some(TypeName::LargeList),
        DataType::ListView(_) => Some(TypeName::ListView),
        DataType::LargeListView(_) => Some(TypeName::LargeListView),
        DataType::FixedSizeList(_, _) => Some(TypeName::FixedSizeList),
        DataType::Map(_, _) => Some(TypeName::Entries),
        DataType::Struct(_) => Some(TypeName::Struct),
        DataType::RunEndEncoded(_, _) => Some(TypeName::RunEndEncoded),
        DataType::Dictionary(_, _) => Some(TypeName::Dictionary),
        DataType::Union(_, UnionMode::Sparse) => Some(TypeName::SparseUnion),
        DataType::Union(_, UnionMode::Dense) => Some(TypeName::DenseUnion),
        _ => None,
    }
}

/// Which type it is.
pub open spec fn named_type(t: DataType) -> TypeName {
    match (number_name(t), moment_name(t), bytes_name(t), nested_name(t)) {
        (Some(n), _, _, _) => n,
        (_, Some(n), _, _) => n,
        (_, _, Some(n), _) => n,
        (_, _, _, Some(n)) => n,
        _ => TypeName::Unknown,
    }
}

fn name_of(t: &DataType) -> (r: TypeName)
    ensures
        r == named_type(*t),
{
    match (number_of(t), moment_of(t), bytes_of(t), nested_of(t)) {
        (Some(n), _, _, _) => n,
        (_, Some(n), _, _) => n,
        (_, _, Some(n), _) => n,
        (_, _, _, Some(n)) => n,
        _ => TypeName::Unknown,
    }
}

/// How an array of a type is laid out.
#[derive(Debug, Clone, Copy, PartialEq, Eq, Structural)]
pub enum TypeKind {
    /// Values of a width that the type fixes.
    Plain,
    /// Offsets into bytes.
    Bytes,
    /// Views into any number of buffers.
    Views,
    /// Values of as many bytes as the type says.
    Fixed,
    /// Offsets of lists.
    Lists,
    /// Offsets of lists of pairs.
    Entries,
    /// Offsets and sizes of lists.
    ListViews,
    /// Lists of as many items as the type says.
    FixedList,
    Struct,
    /// Run ends and values.
    Runs,
    /// Keys of values.
    Dictionary,
    /// A union with as many items in each part as it has itself.
    Sparse,
    /// A union with an offset for each item.
    Dense,
    Null,
    /// No layout.
    Unknown,
}

/// The layout of the arrays of a type.
pub open spec fn kind_of_name(n: TypeName) -> TypeKind {
    match n {
        TypeName::Null => TypeKind::Null,
        TypeName::Utf8 | TypeName::LargeUtf8 | TypeName::Binary | TypeName::LargeBinary =>
            TypeKind::Bytes,
        TypeName::Utf8View | TypeName::BinaryView => TypeKind::Views,
        TypeName::FixedSizeBinary => TypeKind::Fixed,
        TypeName::List | TypeName::LargeList => TypeKind::Lists,
        TypeName::Entries => TypeKind::Entries,
        TypeName::ListView | TypeName::LargeListView => TypeKind::ListViews,
        TypeName::FixedSizeList => TypeKind::FixedList,
        TypeName::Struct => TypeKind::Struct,
        TypeName::RunEndEncoded => TypeKind::Runs,
        TypeName::Dictionary => TypeKind::Dictionary,
        TypeName::SparseUnion => TypeKind::Sparse,
        TypeName::DenseUnion => TypeKind::Dense,
        TypeName::Unknown => TypeKind::Unknown,
        _ => TypeKind::Plain,
    }
}

/// Which of the layouts the type has.
pub open spec fn type_kind(t: DataType) -> TypeKind {
    kind_of_name(named_type(t))
}

fn kind_of(t: &DataType) -> (r: TypeKind)
    ensures
        r == type_kind(*t),
{
    match name_of(t) {
        TypeName::Null => TypeKind::Null,
        TypeName::Utf8 => TypeKind::Bytes,
        TypeName::LargeUtf8 => TypeKind::Bytes,
        TypeName::Binary => TypeKind::Bytes,
        TypeName::LargeBinary => TypeKind::Bytes,
        TypeName::Utf8View => TypeKind::Views,
        TypeName::BinaryView => TypeKind::Views,
        TypeName::FixedSizeBinary => TypeKind::Fixed,
        TypeName::List => TypeKind::Lists,
        TypeName::LargeList => TypeKind::Lists,
        TypeName::Entries => TypeKind::Entries,
        TypeName::ListView => TypeKind::ListViews,
        TypeName::LargeListView => TypeKind::ListViews,
        TypeName::FixedSizeList => TypeKind::FixedList,
        TypeName::Struct => TypeKind::Struct,
        TypeName::RunEndEncoded => TypeKind::Runs,
        TypeName::Dictionary => TypeKind::Dictionary,
        TypeName::SparseUnion => TypeKind::Sparse,
        TypeName::DenseUnion => TypeKind::Dense,
        TypeName::Unknown => TypeKind::Unknown,
        _ => TypeKind::Plain,
    }
}

/// How many bytes an integer of the type has; zero where it is none.
pub open spec fn integer_width(n: TypeName) -> int {
    match n {
        TypeName::Int8 | TypeName::UInt8 => 1,
        TypeName::Int16 | TypeName::UInt16 => 2,
        TypeName::Int32 | TypeName::UInt32 => 4,
        TypeName::Int64 | TypeName::UInt64 => 8,
        _ => 0,
    }
}

/// Integers of the type can count runs.
pub open spec fn counts_runs(n: TypeName) -> bool {
    n == TypeName::Int16 || n == TypeName::Int32 || n == TypeName::Int64
}

fn width_of(n: TypeName) -> (r: u8)
    ensures
        r == integer_width(n),
{
    match n {
        TypeName::Int8 => 1,
        TypeName::UInt8 => 1,
        TypeName::Int16 => 2,
        TypeName::UInt16 => 2,
        TypeName::Int32 => 4,
        TypeName::UInt32 => 4,
        TypeName::Int64 => 8,
        TypeName::UInt64 => 8,
        _ => 0,
    }
}

/// The types that a type is made of, in order: the items of a list, the fields
/// of a struct or a union, the run ends and the values of runs, the keys and
/// the values of a dictionary.
pub uninterp spec fn type_parts(t: DataType) -> Seq<DataType>;

/// The types that an `arrow_schema::DataType` holds.
#[verifier::external_body]
fn parts_of(t: &DataType) -> (r: Vec<DataType>)
    ensures
        r@ == type_parts(*t),
{
    match t {
        DataType::List(f) | DataType::LargeList(f) | DataType::ListView(f)
        | DataType::LargeListView(f) | DataType::Map(f, _) | DataType::FixedSizeList(f, _) =>
            vec![f.data_type().clone()],
        DataType::Struct(fs) => fs.iter().map(|f| f.data_type().clone()).collect(),
        DataType::RunEndEncoded(e, v) => vec![e.data_type().clone(), v.data_type().clone()],
        DataType::Dictionary(k, v) => vec![*k.clone(), *v.clone()],
        DataType::Union(fs, _) => fs.iter().map(|f| f.1.data_type().clone()).collect(),
        _ => vec![]
    }
}

/// How many bytes a value of the type has, or how many items a list; zero
/// where the type says neither.
pub uninterp spec fn type_size(t: DataType) -> i32;

/// The size that an `arrow_schema::DataType` holds.
#[verifier::external_body]
fn size_of(t: &DataType) -> (r: i32)
    ensures
        r == type_size(*t),
{
    match t {
        DataType::FixedSizeBinary(n) => *n,
        DataType::FixedSizeList(_, n) => *n,
        _ => 0,
    }
}

/// The types of the columns, in order.
pub uninterp spec fn schema_types(schema: Schema) -> Seq<DataType>;

/// The types of the fields of an `arrow_schema::Schema`.
#[verifier::external_body]
fn columns_of(schema: &Schema) -> (r: Vec<DataType>)
    ensures
        r@ == schema_types(*schema),
{
    schema.fields().iter().map(|f| f.data_type().clone()).collect()
}

/// How deep types may be nested. The metadata of a message cannot be nested so
/// deep.
pub const MAX_TYPE_DEPTH: usize = 1_024;

/// There are arrays of the type: no size is negative, runs are counted by
/// signed integers, dictionaries keyed by integers, and the entries of a map are
/// pairs; and so for the types it is made of, which are nested less than so
/// deep. Whether values of one size are among them is told by `fixed`.
pub open spec fn sound_type(t: DataType, fixed: bool, depth: nat) -> bool
    decreases depth,
{
    let parts = type_parts(t);
    &&& depth > 0
    &&& match type_kind(t) {
        TypeKind::Fixed => fixed && type_size(t) >= 0,
        TypeKind::FixedList => type_size(t) >= 0,
        TypeKind::Runs => parts.len() == 2 && counts_runs(named_type(parts[0])),
        TypeKind::Dictionary => parts.len() == 2 && integer_width(named_type(parts[0])) > 0,
        TypeKind::Entries => parts.len() == 1 && type_kind(parts[0]) == TypeKind::Struct
            && type_parts(parts[0]).len() == 2,
        TypeKind::Unknown => false,
        _ => true,
    }
    &&& forall|i: int|
        0 <= i < type_parts(t).len() ==> sound_type(
            #[trigger] type_parts(t)[i],
            fixed,
            (depth - 1) as nat,
        )
}

fn is_sound(t: &DataType, fixed: bool, depth: usize) -> (r: bool)
    ensures
        r == sound_type(*t, fixed, depth as nat),
    decreases depth, 0nat,
{
    if depth == 0 {
        return false;
    }
    let parts = parts_of(t);
    let fits = match kind_of(t) {
        TypeKind::Fixed => fixed && size_of(t) >= 0,
        TypeKind::FixedList => size_of(t) >= 0,
        TypeKind::Runs => parts.len() == 2 && match name_of(&parts[0]) {
            TypeName::Int16 => true,
            TypeName::Int32 => true,
            TypeName::Int64 => true,
            _ => false,
        },
        TypeKind::Dictionary => parts.len() == 2 && width_of(name_of(&parts[0])) > 0,
        TypeKind::Entries => parts.len() == 1 && kind_of(&parts[0]) == TypeKind::Struct && parts_of(
            &parts[0],
        ).len() == 2,
        TypeKind::Unknown => false,
        _ => true,
    };
    if !fits {
        return false;
    }
    all_sound(&parts, fixed, depth - 1)
}

/// Every one of the types is sound.
pub open spec fn sound_types(types: Seq<DataType>, fixed: bool, depth: nat) -> bool {
    forall|i: int| 0 <= i < types.len() ==> sound_type(#[trigger] types[i], fixed, depth)
}

fn all_sound(types: &Vec<DataType>, fixed: bool, depth: usize) -> (r: bool)
    ensures
        r == sound_types(types@, fixed, depth as nat),
    decreases depth, 1nat,
{
    let mut i: usize = 0;
    while i < types.len()
        invariant
            i <= types@.len(),
            forall|k: int| 0 <= k < i ==> sound_type(#[trigger] types@[k], fixed, depth as nat),
        decreases types@.len() - i,
    {
        if !is_sound(&types[i], fixed, depth) {
            return false;
        }
        i = i + 1;
    }
    true
}

/// Arrays of the type can be joined item by item: no union or dictionary is
/// among the types it is made of, which are nested less than so deep.
pub open spec fn joinable(t: DataType, depth: nat) -> bool
    decreases depth,
{
    &&& depth > 0
    &&& match type_kind(t) {
        TypeKind::Sparse | TypeKind::Dense | TypeKind::Dictionary | TypeKind::Unknown => false,
        _ => true,
    }
    &&& forall|i: int|
        0 <= i < type_parts(t).len() ==> joinable(#[trigger] type_parts(t)[i], (depth - 1) as nat)
}

fn is_joinable(t: &DataType, depth: usize) -> (r: bool)
    ensures
        r == joinable(*t, depth as nat),
    decreases depth,
{
    if depth == 0 {
        return false;
    }
    match kind_of(t) {
        TypeKind::Sparse => {
            return false;
        },
        TypeKind::Dense => {
            return false;
        },
        TypeKind::Dictionary => {
            return false;
        },
        TypeKind::Unknown => {
            return false;
        },
        _ => {},
    }
    let parts = parts_of(t);
    let mut i: usize = 0;
    while i < parts.len()
        invariant
            depth > 0,
            i <= parts@.len(),
            parts@ == type_parts(*t),
            forall|k: int| 0 <= k < i ==> joinable(#[trigger] parts@[k], (depth - 1) as nat),
        decreases parts@.len() - i,
    {
        if !is_joinable(&parts[i], depth - 1) {
            assert(!joinable(type_parts(*t)[i as int], (depth - 1) as nat));
            return false;
        }
        i = i + 1;
    }
    true
}

/// The kinds of message headers in an IPC stream.
pub const SCHEMA_HEADER: u8 = 1;

pub const DICTIONARY_HEADER: u8 = 2;

pub const BATCH_HEADER: u8 = 3;

/// The first version of the metadata in which a union has no validity bitmap.
pub const UNMASKED_UNIONS: i16 = 4;

/// What a message's metadata says of the whole message.
#[derive(Debug, Clone, Copy, PartialEq, Eq, Structural)]
pub struct MessageHead {
    pub header: u8,
    pub version: i16,
    pub body_len: i64,
}

/// What `arrow_ipc::root_as_message` finds in the metadata; nothing where it
/// reports an error.
pub uninterp spec fn message_head(meta: Seq<u8>) -> Option<MessageHead>;

/// Read the metadata with `arrow_ipc::root_as_message`: the kind of its header,
/// its version and the length of the body, as they stand.
#[verifier::external_body]
fn read_head(meta: &[u8]) -> (r: Option<MessageHead>)
    ensures
        r == message_head(meta@),
{
    let m = root_as_message(meta).ok()?;
    Some(
        MessageHead {
            header: m.header_type().0,
            version: m.version().0,
            body_len: m.bodyLength(),
        },
    )
}

/// The columns of a batch as its metadata lists them: the length of each array,
/// where each buffer lies in the body and how long it is, and how many buffers
/// each array of views has.
pub struct Layout {
    pub lengths: Vec<i64>,
    pub buffers: Vec<(i64, i64)>,
    pub views: Vec<i64>,
    pub compressed: bool,
}

/// The contents of a [`Layout`].
pub ghost struct LayoutView {
    pub lengths: Seq<i64>,
    pub buffers: Seq<(i64, i64)>,
    pub views: Seq<i64>,
    pub compressed: bool,
}

impl View for Layout {
    type V = LayoutView;

    open spec fn view(&self) -> LayoutView {
        LayoutView {
            lengths: self.lengths@,
            buffers: self.buffers@,
            views: self.views@,
            compressed: self.compressed,
        }
    }
}

/// The layout of the record batch that the metadata describes; nothing where it
/// describes none, or not its arrays or buffers.
pub uninterp spec fn batch_layout(meta: Seq<u8>) -> Option<LayoutView>;

/// Read the record batch of the metadata with `arrow_ipc::Message`:
/// `header_as_record_batch`, and of that the nodes, the buffers, the variadic
/// counts and whether there is a compression, as they stand.
#[verifier::external_body]
fn read_batch_layout(meta: &[u8]) -> (r: Option<Layout>)
    ensures
        match r {
            Some(l) => batch_layout(meta@) == Some(l@),
            None => batch_layout(meta@) is None,
        },
{
    let batch = root_as_message(meta).ok()?.header_as_record_batch()?;
    Some(
        Layout {
            lengths: batch.nodes()?.iter().map(|n| n.length()).collect(),
            buffers: batch.buffers()?.iter().map(|b| (b.offset(), b.length())).collect(),
            views: batch.variadicBufferCounts().into_iter().flatten().collect(),
            compressed: batch.compression().is_some(),
        },
    )
}

/// The dictionary id of the dictionary batch that the metadata describes,
/// whether it adds to a dictionary, and its layout; nothing where it describes
/// none, or not its arrays or buffers.
pub uninterp spec fn dictionary_layout(meta: Seq<u8>) -> Option<(i64, bool, LayoutView)>;

/// Read the dictionary batch of the metadata with `arrow_ipc::Message`:
/// `header_as_dictionary_batch`, its id, whether it is a delta, and of its
/// record batch the nodes, the buffers, the variadic counts and whether there is
/// a compression, as they stand.
#[verifier::external_body]
fn read_dictionary_layout(meta: &[u8]) -> (r: Option<(i64, bool, Layout)>)
    ensures
        match r {
            Some(d) => dictionary_layout(meta@) == Some((d.0, d.1, d.2@)),
            None => dictionary_layout(meta@) is None,
        },
{
    let dictionary = root_as_message(meta).ok()?.header_as_dictionary_batch()?;
    let batch = dictionary.data()?;
    let layout = Layout {
        lengths: batch.nodes()?.iter().map(|n| n.length()).collect(),
        buffers: batch.buffers()?.iter().map(|b| (b.offset(), b.length())).collect(),
        views: batch.variadicBufferCounts().into_iter().flatten().collect(),
        compressed: batch.compression().is_some(),
    };
    Some((dictionary.id(), dictionary.isDelta(), layout))
}

/// The type of the values of the dictionary with this id; nothing where the
/// schema has no such dictionary.
pub uninterp spec fn dictionary_type(schema: Schema, id: i64) -> Option<DataType>;

/// The type of the values of the first dictionary that
/// `arrow_schema::Schema::fields_with_dict_id` finds.
#[verifier::external_body]
#[allow(deprecated)]
fn dictionary_type_of(schema: &Schema, id: i64) -> (r: Option<DataType>)
    ensures
        r == dictionary_type(*schema, id),
{
    match schema.fields_with_dict_id(id).first()?.data_type() {
        DataType::Dictionary(_, v) => Some(*v.clone()),
        _ => None,
    }
}

/// The schema that the metadata describes; nothing where
/// `arrow_ipc::convert::try_fb_to_schema` reports an error.
pub uninterp spec fn message_schema(meta: Seq<u8>) -> Option<Schema>;

/// A field of a schema as the metadata of a message holds it. What it is made
/// of is named by [`is_lone_union`] and [`raw_parts`].
#[verifier::external_type_specification]
#[verifier::external_body]
pub struct ExRawField<'a>(RawField<'a>);

/// The fields of the schema in the metadata, in order.
pub uninterp spec fn raw_fields(meta: Seq<u8>) -> Seq<RawField<'static>>;

/// Read the fields of the schema of the metadata with `arrow_ipc::Message`:
/// `header_as_schema` and `fields`. There are none where there is no schema.
#[verifier::external_body]
fn read_raw_fields<'a>(meta: &'a [u8]) -> (r: Vec<RawField<'a>>)
    ensures
        r@ == raw_fields(meta@),
{
    match root_as_message(meta).ok().and_then(|m| m.header_as_schema()) {
        Some(schema) => schema.fields().into_iter().flatten().collect(),
        None => vec![],
    }
}

/// The field is a union without type ids.
pub uninterp spec fn is_lone_union(f: RawField<'static>) -> bool;

/// Whether `type_as_union` of an `arrow_ipc::Field` finds a union without
/// `typeIds`.
#[verifier::external_body]
fn find_lone_union(f: &RawField) -> (r: bool)
    ensures
        r == is_lone_union(*f),
{
    f.type_as_union().is_some_and(|u| u.typeIds().is_none())
}

/// The fields that the field is made of, in order.
pub uninterp spec fn raw_parts(f: RawField<'static>) -> Seq<RawField<'static>>;

/// The `children` of an `arrow_ipc::Field`.
#[verifier::external_body]
fn read_raw_parts<'a>(f: &RawField<'a>) -> (r: Vec<RawField<'a>>)
    ensures
        r@ == raw_parts(*f),
{
    f.children().into_iter().flatten().collect()
}

/// How many fields a union can number.
pub const MAX_NUMBERED: usize = 128;

/// No union without type ids has more fields than can be numbered, of the field
/// and those it is made of, which are nested less than so deep.
pub open spec fn numbered_field(f: RawField<'static>, depth: nat) -> bool
    decreases depth,
{
    &&& depth > 0
    &&& is_lone_union(f) ==> raw_parts(f).len() <= MAX_NUMBERED
    &&& forall|i: int|
        0 <= i < raw_parts(f).len() ==> numbered_field(
            #[trigger] raw_parts(f)[i],
            (depth - 1) as nat,
        )
}

fn is_numbered(f: &RawField, depth: usize) -> (r: bool)
    ensures
        r == numbered_field(*f, depth as nat),
    decreases depth, 0nat,
{
    if depth == 0 {
        return false;
    }
    let parts = read_raw_parts(f);
    if find_lone_union(f) && parts.len() > MAX_NUMBERED {
        return false;
    }
    are_numbered(&parts, depth - 1)
}

fn are_numbered(fields: &Vec<RawField>, depth: usize) -> (r: bool)
    ensures
        r == forall|i: int|
            0 <= i < fields@.len() ==> numbered_field(#[trigger] fields@[i], depth as nat),
    decreases depth, 1nat,
{
    let mut i: usize = 0;
    while i < fields.len()
        invariant
            i <= fields@.len(),
            forall|k: int| 0 <= k < i ==> numbered_field(#[trigger] fields@[k], depth as nat),
        decreases fields@.len() - i,
    {
        if !is_numbered(&fields[i], depth) {
            return false;
        }
        i = i + 1;
    }
    true
}

/// No union without type ids in the schema of the metadata has more fields than
/// can be numbered.
pub open spec fn unions_numbered(meta: Seq<u8>) -> bool {
    forall|i: int|
        0 <= i < raw_fields(meta).len() ==> numbered_field(
            #[trigger] raw_fields(meta)[i],
            MAX_TYPE_DEPTH as nat,
        )
}

fn are_unions_numbered(meta: &[u8]) -> (r: bool)
    ensures
        r == unions_numbered(meta@),
{
    are_numbered(&read_raw_fields(meta), MAX_TYPE_DEPTH)
}

/// Read the schema of the metadata with `arrow_ipc::convert::try_fb_to_schema`,
/// which numbers the fields of a union where it has no type ids, and panics
/// where there are too many.
#[verifier::external_body]
fn read_schema(meta: &[u8]) -> (r: Option<Schema>)
    requires
        unions_numbered(meta@),
    ensures
        r == message_schema(meta@),
{
    let schema = root_as_message(meta).ok()?.header_as_schema()?;
    arrow_ipc::convert::try_fb_to_schema(schema).ok()
}

/// The number in the four bytes at `at`, the lowest first.
pub open spec fn le4(b: Seq<u8>, at: int) -> int {
    b[at] + 0x100 * b[at + 1] + 0x1_0000 * b[at + 2] + 0x100_0000 * b[at + 3]
}

fn read_le4(b: &[u8], at: usize) -> (r: u32)
    requires
        at + 4 <= b@.len(),
    ensures
        r == le4(b@, at as int),
{
    b[at] as u32 + 0x100 * b[at + 1] as u32 + 0x1_0000 * b[at + 2] as u32 + 0x100_0000
        * b[at + 3] as u32
}

/// The number in the eight bytes at `at`, the lowest first.
pub open spec fn le8(b: Seq<u8>, at: int) -> int {
    le4(b, at) + 0x1_0000_0000 * le4(b, at + 4)
}

/// A buffer that starts here and is so long lies in a body of `body_len` bytes.
pub open spec fn buffer_within(buffer: (i64, i64), body_len: int) -> bool {
    0 <= buffer.0 && 0 <= buffer.1 && buffer.0 + buffer.1 <= body_len
}

/// What stands in place of a buffer's length where a compressed batch holds the
/// buffer as it is.
pub const AS_IT_IS: u64 = 0xFFFF_FFFF_FFFF_FFFF;

/// The longest buffer a length can name.
pub const MAX_BUFFER_LEN: u64 = 0x7FFF_FFFF_FFFF_FFFF;

/// Where a buffer starts and how long it is, once a prefix that a compressed
/// batch puts before it is taken off: eight bytes, its length before it was
/// compressed. Nothing where the prefix is cut off or names no length.
pub open spec fn buffer_held(l: LayoutView, body: Seq<u8>, k: int) -> Option<(int, int)> {
    let (start, len) = l.buffers[k];
    if !l.compressed || len == 0 {
        Some((start as int, len as int))
    } else if len < 8 {
        None
    } else if le8(body, start as int) == AS_IT_IS {
        Some((start + 8, len - 8))
    } else if le8(body, start as int) <= MAX_BUFFER_LEN {
        Some((0, le8(body, start as int)))
    } else {
        None
    }
}

fn held_of(l: &Layout, body: &[u8], k: usize) -> (r: Option<(u64, u64)>)
    requires
        k < l.buffers@.len(),
        buffer_within(l.buffers@[k as int], body@.len() as int),
    ensures
        match r {
            Some(h) => buffer_held(l@, body@, k as int) == Some((h.0 as int, h.1 as int)),
            None => buffer_held(l@, body@, k as int) is None,
        },
{
    let (start, len) = l.buffers[k];
    if !l.compressed || len == 0 {
        return Some((start as u64, len as u64));
    }
    if len < 8 {
        return None;
    }
    assert(start + len <= body.len());
    let at: usize = start as usize;
    let prefix: u64 = read_le4(body, at) as u64 + 0x1_0000_0000 * read_le4(body, at + 4) as u64;
    if prefix == AS_IT_IS {
        Some((start as u64 + 8, len as u64 - 8))
    } else if prefix <= MAX_BUFFER_LEN {
        Some((0, prefix))
    } else {
        None
    }
}

/// The message's unions have a validity bitmap.
pub open spec fn masks_unions(head: MessageHead) -> bool {
    head.version < UNMASKED_UNIONS
}

/// How many buffers an array of the type has, where those before `buffer` and
/// the counts before `view` are taken; nothing where the counts do not say or
/// say more than there are.
pub open spec fn buffer_count(
    t: DataType,
    l: LayoutView,
    head: MessageHead,
    buffer: int,
    view: int,
) -> Option<int> {
    match type_kind(t) {
        TypeKind::Bytes | TypeKind::ListViews => Some(3),
        TypeKind::Views => if view < l.views.len() && 0 <= l.views[view] && buffer + l.views[view]
            + 2 <= l.buffers.len() {
            Some(l.views[view] + 2)
        } else {
            None
        },
        TypeKind::Struct | TypeKind::FixedList => Some(1),
        TypeKind::Runs | TypeKind::Null => Some(0),
        TypeKind::Sparse => Some(if masks_unions(head) { 2 } else { 1 }),
        TypeKind::Dense => Some(if masks_unions(head) { 3 } else { 2 }),
        _ => Some(2),
    }
}

/// The arrays that follow an array of the type: those of its parts. The values
/// of a dictionary come in messages of their own.
pub open spec fn following(t: DataType) -> Seq<DataType> {
    if type_kind(t) == TypeKind::Dictionary {
        Seq::empty()
    } else {
        type_parts(t)
    }
}

/// How many bytes the numbers have that an array of the type is read by: its
/// offsets, views or keys. (A sound dictionary has keys.)
pub open spec fn word_width(t: DataType) -> int {
    match named_type(t) {
        TypeName::LargeUtf8 | TypeName::LargeBinary | TypeName::LargeList
        | TypeName::LargeListView => 8,
        TypeName::Utf8View | TypeName::BinaryView => 16,
        TypeName::Dictionary => if type_parts(t).len() > 0 && integer_width(
            named_type(type_parts(t)[0]),
        ) > 0 {
            integer_width(named_type(type_parts(t)[0]))
        } else {
            1
        },
        _ => 4,
    }
}

/// The buffer, where it is listed, holds whole words of this width, or fewer
/// bytes than so many of them have.
pub open spec fn holds_words(l: LayoutView, body: Seq<u8>, k: int, width: int, count: int) -> bool {
    k < l.buffers.len() ==> match buffer_held(l, body, k) {
        Some((_, len)) => len % width == 0 || len < count * width,
        None => true,
    }
}

/// The buffer, where it is listed, holds so many bytes, and starts at a multiple
/// of `step`.
pub open spec fn holds_bytes(l: LayoutView, body: Seq<u8>, k: int, count: int, step: int) -> bool {
    k < l.buffers.len() ==> match buffer_held(l, body, k) {
        Some((start, len)) => count <= len && start % step == 0,
        None => true,
    }
}

/// How many items an array has at most that is not held to it by its bytes.
pub const MAX_ITEMS: i64 = 0x7FFF_FFFF;

/// An array can have so many items in a body so long: no more than can be
/// counted anywhere, or than the body has bits.
pub open spec fn length_within(length: i64, body_len: int) -> bool {
    0 <= length && (length <= MAX_ITEMS || length <= 8 * body_len)
}

/// An array of so many items fits what its buffers, from `buffer` on, hold as
/// far as they are listed: offsets, views and keys are whole; a union has a type
/// id for each item, and an offset of four bytes where it is dense; the items of
/// lists of one size can be counted.
pub open spec fn length_fits(
    t: DataType,
    l: LayoutView,
    head: MessageHead,
    body: Seq<u8>,
    length: i64,
    buffer: int,
) -> bool {
    let ids = if masks_unions(head) {
        buffer + 1
    } else {
        buffer
    };
    let width = word_width(t);
    &&& length_within(length, body.len() as int)
    &&& match type_kind(t) {
        TypeKind::Bytes | TypeKind::Lists | TypeKind::Entries => holds_words(
            l,
            body,
            buffer + 1,
            width,
            length + 1,
        ),
        TypeKind::ListViews => holds_words(l, body, buffer + 1, width, length as int)
            && holds_words(l, body, buffer + 2, width, length as int),
        TypeKind::Views | TypeKind::Dictionary => holds_words(
            l,
            body,
            buffer + 1,
            width,
            length as int,
        ),
        TypeKind::FixedList => length * type_size(t) <= usize::MAX,
        TypeKind::Sparse => holds_bytes(l, body, ids, length as int, 1),
        TypeKind::Dense => holds_bytes(l, body, ids, length as int, 1) && holds_bytes(
            l,
            body,
            ids + 1,
            4 * length,
            4,
        ),
        _ => true,
    }
}

/// Arrays of these types, one after the other, lie in the body: where the
/// lengths before `node`, the buffers before `buffer` and the counts before
/// `view` are taken, and up to the first that the layout does not list.
pub open spec fn arrays_within(
    types: Seq<DataType>,
    l: LayoutView,
    head: MessageHead,
    body: Seq<u8>,
    node: int,
    buffer: int,
    view: int,
) -> bool
    decreases l.lengths.len() - node,
{
    if types.len() == 0 {
        true
    } else {
        match buffer_count(types[0], l, head, buffer, view) {
            None => true,
            Some(n) => {
                &&& forall|k: int|
                    buffer <= k < buffer + n && k < l.buffers.len() ==> buffer_within(
                        #[trigger] l.buffers[k],
                        body.len() as int,
                    )
                &&& if node < l.lengths.len() {
                    &&& length_fits(types[0], l, head, body, l.lengths[node], buffer)
                    &&& buffer + n <= l.buffers.len() ==> arrays_within(
                        following(types[0]) + types.drop_first(),
                        l,
                        head,
                        body,
                        node + 1,
                        buffer + n,
                        if type_kind(types[0]) == TypeKind::Views {
                            view + 1
                        } else {
                            view
                        },
                    )
                } else {
                    true
                }
            },
        }
    }
}

/// There are arrays of the types, and those of the batch lie in its body.
pub open spec fn batch_within(
    types: Seq<DataType>,
    l: LayoutView,
    head: MessageHead,
    body: Seq<u8>,
) -> bool {
    sound_types(types, true, MAX_TYPE_DEPTH as nat) && arrays_within(
        types,
        l,
        head,
        body,
        0,
        0,
        0,
    )
}

fn count_buffers(t: &DataType, l: &Layout, head: MessageHead, buffer: usize, view: usize) -> (r:
    Option<usize>)
    requires
        buffer <= l.buffers@.len(),
    ensures
        match r {
            Some(n) => buffer_count(*t, l@, head, buffer as int, view as int) == Some(n as int),
            None => buffer_count(*t, l@, head, buffer as int, view as int) is None,
        },
{
    let masked = head.version < UNMASKED_UNIONS;
    match kind_of(t) {
        TypeKind::Bytes => Some(3),
        TypeKind::ListViews => Some(3),
        TypeKind::Views => {
            if view >= l.views.len() {
                return None;
            }
            let count: i64 = l.views[view];
            let left: usize = l.buffers.len() - buffer;
            if count < 0 || left < 2 || count as u64 > (left - 2) as u64 {
                None
            } else {
                Some(count as usize + 2)
            }
        },
        TypeKind::Struct => Some(1),
        TypeKind::FixedList => Some(1),
        TypeKind::Runs => Some(0),
        TypeKind::Null => Some(0),
        TypeKind::Sparse => Some(if masked { 2 } else { 1 }),
        TypeKind::Dense => Some(if masked { 3 } else { 2 }),
        _ => Some(2),
    }
}

fn width_of_words(t: &DataType) -> (r: u8)
    ensures
        r == word_width(*t),
        r > 0,
{
    match name_of(t) {
        TypeName::LargeUtf8 => 8,
        TypeName::LargeBinary => 8,
        TypeName::LargeList => 8,
        TypeName::LargeListView => 8,
        TypeName::Utf8View => 16,
        TypeName::BinaryView => 16,
        TypeName::Dictionary => {
            let parts = parts_of(t);
            if parts.len() > 0 && width_of(name_of(&parts[0])) > 0 {
                width_of(name_of(&parts[0]))
            } else {
                1
            }
        },
        _ => 4,
    }
}

fn are_words_held(l: &Layout, body: &[u8], k: usize, width: u8, count: u64) -> (r: bool)
    requires
        width > 0,
        k < l.buffers@.len() ==> buffer_within(l.buffers@[k as int], body@.len() as int),
    ensures
        r == holds_words(l@, body@, k as int, width as int, count as int),
{
    if k >= l.buffers.len() {
        return true;
    }
    match held_of(l, body, k) {
        Some((_, len)) => {
            assert(0 <= count * width <= 0xFF_FFFF_FFFF_FFFF_FFFF) by (nonlinear_arith)
                requires
                    0 <= count <= u64::MAX,
                    0 <= width <= u8::MAX,
            ;
            len % width as u64 == 0 || (len as u128) < count as u128 * width as u128
        },
        None => true,
    }
}

fn are_bytes_held(l: &Layout, body: &[u8], k: usize, count: u128, step: u64) -> (r: bool)
    requires
        step > 0,
        k < l.buffers@.len() ==> buffer_within(l.buffers@[k as int], body@.len() as int),
    ensures
        r == holds_bytes(l@, body@, k as int, count as int, step as int),
{
    if k >= l.buffers.len() {
        return true;
    }
    match held_of(l, body, k) {
        Some((start, len)) => count <= len as u128 && start % step == 0,
        None => true,
    }
}

fn does_length_fit(
    t: &DataType,
    l: &Layout,
    head: MessageHead,
    body: &[u8],
    length: i64,
    buffer: usize,
    count: usize,
) -> (r: bool)
    requires
        exists|view: int|
            #[trigger] buffer_count(*t, l@, head, buffer as int, view) == Some(count as int),
        buffer <= l.buffers@.len(),
        forall|k: int|
            buffer <= k < buffer + count && k < l.buffers@.len() ==> buffer_within(
                #[trigger] l.buffers@[k],
                body@.len() as int,
            ),
    ensures
        r == length_fits(*t, l@, head, body@, length, buffer as int),
{
    assert(l.buffers.len() == l.buffers@.len());
    if length < 0 || (length > MAX_ITEMS && length as u128 > body.len() as u128 * 8) {
        return false;
    }
    let kind = kind_of(t);
    if kind == TypeKind::FixedList {
        let size: i32 = size_of(t);
        assert(-0x1_0000_0000_0000_0000_0000_0000 <= length * size
            <= 0x1_0000_0000_0000_0000_0000_0000) by (nonlinear_arith)
            requires
                0 <= length <= i64::MAX,
                i32::MIN <= size <= i32::MAX,
        ;
        let items: i128 = length as i128 * size as i128;
        return items <= usize::MAX as i128;
    }
    if buffer >= l.buffers.len() {
        return true;
    }
    let items: u64 = length as u64;
    let second: usize = buffer + 1;
    let third: usize = if second < l.buffers.len() {
        second + 1
    } else {
        second
    };
    match kind {
        TypeKind::Bytes => are_words_held(l, body, second, width_of_words(t), items + 1),
        TypeKind::Lists => are_words_held(l, body, second, width_of_words(t), items + 1),
        TypeKind::Entries => are_words_held(l, body, second, width_of_words(t), items + 1),
        TypeKind::ListViews => are_words_held(l, body, second, width_of_words(t), items)
            && are_words_held(l, body, third, width_of_words(t), items),
        TypeKind::Views => are_words_held(l, body, second, width_of_words(t), items),
        TypeKind::Dictionary => are_words_held(l, body, second, width_of_words(t), items),
        TypeKind::Sparse => {
            let ids: usize = if head.version < UNMASKED_UNIONS {
                second
            } else {
                buffer
            };
            are_bytes_held(l, body, ids, items as u128, 1)
        },
        TypeKind::Dense => {
            let (ids, offsets) = if head.version < UNMASKED_UNIONS {
                (second, third)
            } else {
                (buffer, second)
            };
            are_bytes_held(l, body, ids, items as u128, 1) && are_bytes_held(
                l,
                body,
                offsets,
                items as u128 * 4,
                4,
            )
        },
        _ => true,
    }
}

/// Whether the buffers from `from` up to `to` lie in the body.
fn are_within(buffers: &Vec<(i64, i64)>, from: usize, to: usize, body_len: usize) -> (r: bool)
    requires
        from <= to <= buffers@.len(),
    ensures
        r == (forall|k: int|
            from <= k < to ==> buffer_within(#[trigger] buffers@[k], body_len as int)),
{
    let mut i: usize = from;
    while i < to
        invariant
            from <= i <= to <= buffers@.len(),
            forall|k: int|
                from <= k < i ==> buffer_within(#[trigger] buffers@[k], body_len as int),
        decreases to - i,
    {
        let (start, len) = buffers[i];
        if start < 0 || len < 0 || start as u64 + len as u64 > body_len as u64 {
            assert(!buffer_within(buffers@[i as int], body_len as int));
            return false;
        }
        i = i + 1;
    }
    true
}

/// Put the types on the stack, so that the first of them comes off first.
fn put_on(stack: &mut Vec<DataType>, types: Vec<DataType>)
    ensures
        final(stack)@.reverse() == types@ + old(stack)@.reverse(),
{
    let ghost all = types@;
    let mut types = types;
    while types.len() > 0
        invariant
            types@.len() <= all.len(),
            types@ =~= all.take(types@.len() as int),
            stack@ =~= old(stack)@ + all.skip(types@.len() as int).reverse(),
        decreases types@.len(),
    {
        if let Some(t) = types.pop() {
            stack.push(t);
        }
    }
    assert(stack@.reverse() =~= all + old(stack)@.reverse());
}

fn is_batch_within(types: Vec<DataType>, l: &Layout, head: MessageHead, body: &[u8]) -> (r: bool)
    ensures
        r == batch_within(types@, l@, head, body@),
{
    if !all_sound(&types, true, MAX_TYPE_DEPTH) {
        return false;
    }
    let ghost all = types@;
    let mut stack: Vec<DataType> = Vec::new();
    put_on(&mut stack, types);
    assert(stack@.reverse() =~= all);
    let mut node: usize = 0;
    let mut buffer: usize = 0;
    let mut view: usize = 0;
    while stack.len() > 0
        invariant
            all == types@,
            node <= l.lengths@.len(),
            buffer <= l.buffers@.len(),
            view <= node,
            sound_types(all, true, MAX_TYPE_DEPTH as nat),
            arrays_within(all, l@, head, body@, 0, 0, 0) == arrays_within(
                stack@.reverse(),
                l@,
                head,
                body@,
                node as int,
                buffer as int,
                view as int,
            ),
        decreases l.lengths@.len() - node,
    {
        let ghost before = stack@.reverse();
        let t = match stack.pop() {
            Some(t) => t,
            None => {
                return true;
            },
        };
        assert(before.drop_first() =~= stack@.reverse());
        assert(before[0] == t);
        let n: usize = match count_buffers(&t, l, head, buffer, view) {
            Some(n) => n,
            None => {
                return true;
            },
        };
        let left: usize = l.buffers.len() - buffer;
        let to: usize = if n <= left {
            buffer + n
        } else {
            l.buffers.len()
        };
        if !are_within(&l.buffers, buffer, to, body.len()) {
            proof {
                let k = choose|k: int|
                    buffer <= k < to && !buffer_within(
                        #[trigger] l.buffers@[k],
                        body@.len() as int,
                    );
                assert(!buffer_within(l@.buffers[k], body@.len() as int));
            }
            return false;
        }
        if node >= l.lengths.len() {
            return true;
        }
        if !does_length_fit(&t, l, head, body, l.lengths[node], buffer, n) {
            return false;
        }
        if n > left {
            return true;
        }
        let kind = kind_of(&t);
        if kind == TypeKind::Dictionary {
            assert(following(t) + stack@.reverse() =~= stack@.reverse());
        } else {
            put_on(&mut stack, parts_of(&t));
        }
        if kind == TypeKind::Views {
            view = view + 1;
        }
        node = node + 1;
        buffer = buffer + n;
    }
    assert(stack@.reverse().len() == 0);
    true
}

/// The number that stands before the length of a message's metadata, in
/// streams that are not of the oldest form.
pub const CONTINUATION: u32 = 0xFFFF_FFFF;

/// The longest metadata a length can name.
pub const MAX_META_LEN: u32 = 0x7FFF_FFFF;

/// Where a message's metadata lies: from the first position up to the second,
/// where its body starts.
pub open spec fn meta_at(p: Seq<u8>, at: int) -> Option<(int, int)> {
    let marked = at + 4 <= p.len() && le4(p, at) == CONTINUATION;
    let from = if marked {
        at + 8
    } else {
        at + 4
    };
    if from <= p.len() && 0 < le4(p, from - 4) <= MAX_META_LEN && from + le4(p, from - 4)
        <= p.len() {
        Some((from, from + le4(p, from - 4)))
    } else {
        None
    }
}

/// The message at this position: its metadata, what that says of it, its body,
/// and where the next one starts. Nothing where the stream ends, or where the
/// message is cut off or has no readable metadata.
pub open spec fn message_at(p: Seq<u8>, at: int) -> Option<(Seq<u8>, MessageHead, Seq<u8>, int)> {
    match meta_at(p, at) {
        None => None,
        Some((from, to)) => match message_head(p.subrange(from, to)) {
            Some(head) => if 0 <= head.body_len && to + head.body_len <= p.len() {
                Some(
                    (
                        p.subrange(from, to),
                        head,
                        p.subrange(to, to + head.body_len),
                        to + head.body_len,
                    ),
                )
            } else {
                None
            },
            None => None,
        },
    }
}

fn find_message<'a>(p: &'a [u8], at: usize) -> (r: Option<
    (&'a [u8], MessageHead, &'a [u8], usize),
>)
    requires
        at <= p@.len(),
    ensures
        match r {
            Some(m) => message_at(p@, at as int) == Some((m.0@, m.1, m.2@, m.3 as int)) && at < m.3
                <= p@.len(),
            None => message_at(p@, at as int) is None,
        },
{
    let len: usize = p.len();
    if len - at < 4 {
        return None;
    }
    let mut from: usize = at + 4;
    let mut meta_len: u32 = read_le4(p, at);
    if meta_len == CONTINUATION {
        if len - at < 8 {
            return None;
        }
        from = at + 8;
        meta_len = read_le4(p, at + 4);
    }
    if meta_len == 0 || meta_len > MAX_META_LEN || meta_len as usize > len - from {
        return None;
    }
    let to: usize = from + meta_len as usize;
    let meta = vstd::slice::slice_subrange(p, from, to);
    match read_head(meta) {
        None => None,
        Some(head) => if head.body_len < 0 || head.body_len as u64 > (len - to) as u64 {
            None
        } else {
            let next: usize = to + head.body_len as usize;
            Some((meta, head, vstd::slice::slice_subrange(p, to, next), next))
        },
    }
}

/// How many items arrays of these lengths have together.
pub open spec fn items_in(lengths: Seq<i64>) -> int
    decreases lengths.len(),
{
    if lengths.len() == 0 {
        0
    } else {
        items_in(lengths.drop_last()) + if lengths.last() > 0 {
            lengths.last() as int
        } else {
            0
        }
    }
}

proof fn lemma_items_grow(lengths: Seq<i64>, n: int)
    requires
        0 <= n <= lengths.len(),
    ensures
        0 <= items_in(lengths.take(n)) <= items_in(lengths),
    decreases lengths.len(),
{
    if n < lengths.len() {
        lemma_items_grow(lengths.drop_last(), n);
        assert(lengths.drop_last().take(n) =~= lengths.take(n));
    } else {
        assert(lengths.take(n) =~= lengths);
        if n > 0 {
            lemma_items_grow(lengths.drop_last(), n - 1);
            assert(lengths.drop_last().take(n - 1) =~= lengths.drop_last());
        }
    }
}

/// The items of the arrays and those before them; one more than is admitted
/// where there are more.
fn count_items(before: u64, lengths: &Vec<i64>) -> (r: u64)
    requires
        before <= MAX_ITEMS + 1,
    ensures
        r <= MAX_ITEMS + 1,
        r == if before + items_in(lengths@) <= MAX_ITEMS {
            before + items_in(lengths@)
        } else {
            MAX_ITEMS + 1
        },
{
    let most: u64 = MAX_ITEMS as u64;
    let mut sum: u64 = before;
    let mut i: usize = 0;
    assert(lengths@.take(0) =~= Seq::<i64>::empty());
    while i < lengths.len()
        invariant
            i <= lengths@.len(),
            before <= MAX_ITEMS + 1,
            most == MAX_ITEMS,
            sum <= most + 1,
            sum == if before + items_in(lengths@.take(i as int)) <= MAX_ITEMS {
                before + items_in(lengths@.take(i as int))
            } else {
                MAX_ITEMS + 1
            },
        decreases lengths@.len() - i,
    {
        proof {
            assert(lengths@.take(i as int + 1).drop_last() =~= lengths@.take(i as int));
            lemma_items_grow(lengths@, i as int);
        }
        let length: i64 = lengths[i];
        if length > 0 {
            let more: u64 = length as u64;
            sum = if sum > most || more > most - sum {
                most + 1
            } else {
                sum + more
            };
        }
        i = i + 1;
    }
    assert(lengths@.take(i as int) =~= lengths@);
    sum
}

/// From this position on, up to and with the first batch, the reader is led
/// nowhere outside a message: the arrays of each batch lie in its body. What is
/// added to a dictionary can be joined, with no more items than can be counted
/// in all dictionaries together, `items` of them before this position. A message
/// after which the reader stops ends the walk.
pub open spec fn messages_within(p: Seq<u8>, at: int, schema: Schema, items: int) -> bool
    decreases p.len() - at,
{
    match message_at(p, at) {
        None => true,
        Some((meta, head, body, next)) => if head.header == BATCH_HEADER {
            batch_layout(meta) matches Some(l) ==> batch_within(schema_types(schema), l, head, body)
        } else if head.header == DICTIONARY_HEADER {
            match dictionary_layout(meta) {
                None => true,
                Some((id, delta, l)) => match dictionary_type(schema, id) {
                    None => true,
                    Some(t) => {
                        &&& batch_within(seq![t], l, head, body)
                        &&& delta ==> joinable(t, MAX_TYPE_DEPTH as nat) && items + items_in(
                            l.lengths,
                        ) <= MAX_ITEMS
                        &&& at < next <= p.len() ==> messages_within(
                            p,
                            next,
                            schema,
                            items + items_in(l.lengths),
                        )
                    },
                },
            }
        } else {
            head.header == SCHEMA_HEADER ==> unions_numbered(meta)
        },
    }
}

/// The reader of `arrow_ipc` is led nowhere outside the stream while it reads
/// the schema and the first batch, and has arrays for every type it meets.
pub open spec fn buffers_within(p: Seq<u8>) -> bool {
    match message_at(p, 0) {
        None => true,
        Some((meta, head, _, next)) => head.header == SCHEMA_HEADER ==> unions_numbered(meta) && (
        message_schema(meta) matches Some(schema) ==> messages_within(p, next, schema, 0)),
    }
}

/// More items make no stream admissible, and past what is admitted it does not
/// matter how many there are.
proof fn lemma_too_many_items(p: Seq<u8>, at: int, schema: Schema, a: int, b: int)
    requires
        a > MAX_ITEMS,
        b > MAX_ITEMS,
    ensures
        messages_within(p, at, schema, a) == messages_within(p, at, schema, b),
    decreases p.len() - at,
{
    if let Some((meta, head, body, next)) = message_at(p, at) {
        if let Some((id, delta, l)) = dictionary_layout(meta) {
            lemma_items_grow(l.lengths, 0);
            if at < next <= p.len() {
                lemma_too_many_items(
                    p,
                    next,
                    schema,
                    a + items_in(l.lengths),
                    b + items_in(l.lengths),
                );
            }
        }
    }
}

fn are_messages_within(p: &[u8], start: usize, schema: &Schema) -> (r: bool)
    requires
        start <= p@.len(),
    ensures
        r == messages_within(p@, start as int, *schema, 0),
{
    let mut at: usize = start;
    let mut items: u64 = 0;
    loop
        invariant
            start <= at <= p@.len(),
            items <= MAX_ITEMS + 1,
            messages_within(p@, start as int, *schema, 0) == messages_within(
                p@,
                at as int,
                *schema,
                items as int,
            ),
        decreases p@.len() - at,
    {
        let (meta, head, body, next) = match find_message(p, at) {
            Some(m) => m,
            None => {
                return true;
            },
        };
        if head.header == BATCH_HEADER {
            return match read_batch_layout(meta) {
                Some(l) => is_batch_within(columns_of(schema), &l, head, body),
                None => true,
            };
        }
        if head.header != DICTIONARY_HEADER {
            return head.header != SCHEMA_HEADER || are_unions_numbered(meta);
        }
        let (id, delta, l) = match read_dictionary_layout(meta) {
            Some(d) => d,
            None => {
                return true;
            },
        };
        let t = match dictionary_type_of(schema, id) {
            Some(t) => t,
            None => {
                return true;
            },
        };
        proof {
            lemma_items_grow(l.lengths@, 0);
        }
        let counted: u64 = count_items(items, &l.lengths);
        if delta && (counted > MAX_ITEMS as u64 || !is_joinable(&t, MAX_TYPE_DEPTH)) {
            return false;
        }
        let ghost values = seq![t];
        let types: Vec<DataType> = vec![t];
        assert(types@ =~= values);
        if !is_batch_within(types, &l, head, body) {
            return false;
        }
        proof {
            if counted > MAX_ITEMS {
                lemma_too_many_items(
                    p@,
                    next as int,
                    *schema,
                    items + items_in(l.lengths@),
                    counted as int,
                );
            }
        }
        at = next;
        items = counted;
    }
}

/// Whether the reader can be handed the stream.
pub fn is_within(p: &[u8]) -> (r: bool)
    ensures
        r == buffers_within(p@),
{
    let (meta, head, _, next) = match find_message(p, 0) {
        Some(m) => m,
        None => {
            return true;
        },
    };
    if head.header != SCHEMA_HEADER {
        return true;
    }
    if !are_unions_numbered(meta) {
        return false;
    }
    match read_schema(meta) {
        Some(schema) => are_messages_within(p, next, &schema),
        None => true,
    }
}

/// How many items lists of one size have at most, with the lists inside them,
/// where they are set aside before they are read.
pub const MAX_FIXED_ITEMS: i32 = 0x10_0000;

/// How many bytes values of one size have at most, where they are set aside
/// before they are read.
pub const MAX_FIXED_BYTES: i32 = 0x10_0000;

/// How many of `most` items each item of a list of the type may have.
pub open spec fn shared(t: DataType, most: int) -> int {
    if type_kind(t) == TypeKind::FixedList && type_size(t) > 1 {
        most / type_size(t) as int
    } else {
        most
    }
}

/// Lists of one size in the type, with the lists of one size inside them, have
/// no more than so many items, and the types are nested less than so deep.
pub open spec fn countable(t: DataType, most: int, depth: nat) -> bool
    decreases depth,
{
    &&& depth > 0
    &&& type_kind(t) == TypeKind::FixedList ==> type_size(t) <= most
    &&& forall|i: int|
        0 <= i < type_parts(t).len() ==> countable(
            #[trigger] type_parts(t)[i],
            shared(t, most),
            (depth - 1) as nat,
        )
}

fn is_countable(t: &DataType, most: i32, depth: usize) -> (r: bool)
    requires
        most >= 0,
    ensures
        r == countable(*t, most as int, depth as nat),
    decreases depth,
{
    if depth == 0 {
        return false;
    }
    let mut left: i32 = most;
    if kind_of(t) == TypeKind::FixedList {
        let size: i32 = size_of(t);
        if size > most {
            return false;
        }
        if size > 1 {
            left = most / size;
        }
    }
    let parts = parts_of(t);
    let mut i: usize = 0;
    while i < parts.len()
        invariant
            depth > 0,
            left >= 0,
            left == shared(*t, most as int),
            i <= parts@.len(),
            parts@ == type_parts(*t),
            forall|k: int|
                0 <= k < i ==> countable(#[trigger] parts@[k], left as int, (depth - 1) as nat),
        decreases parts@.len() - i,
    {
        if !is_countable(&parts[i], left, depth - 1) {
            assert(!countable(
                type_parts(*t)[i as int],
                shared(*t, most as int),
                (depth - 1) as nat,
            ));
            return false;
        }
        i = i + 1;
    }
    true
}

/// A column of the type can be read value by value: there are arrays of the
/// type, and no lists too long to be set aside, or it is one of values of one
/// size, not too long. Inside other types there are no values of one size.
pub open spec fn sound_column(t: DataType) -> bool {
    if type_kind(t) == TypeKind::Fixed {
        0 <= type_size(t) <= MAX_FIXED_BYTES
    } else {
        sound_type(t, false, MAX_TYPE_DEPTH as nat) && countable(
            t,
            MAX_FIXED_ITEMS as int,
            MAX_TYPE_DEPTH as nat,
        )
    }
}

/// Every column of the schema can be read value by value.
pub open spec fn sound_schema(schema: Schema) -> bool {
    forall|i: int|
        0 <= i < schema_types(schema).len() ==> sound_column(#[trigger] schema_types(schema)[i])
}

/// Whether every column of the schema can be read value by value.
pub fn is_schema_sound(schema: &Schema) -> (r: bool)
    ensures
        r == sound_schema(*schema),
{
    let types = columns_of(schema);
    let mut i: usize = 0;
    while i < types.len()
        invariant
            i <= types@.len(),
            types@ == schema_types(*schema),
            forall|k: int| 0 <= k < i ==> sound_column(#[trigger] types@[k]),
        decreases types@.len() - i,
    {
        let sound = if kind_of(&types[i]) == TypeKind::Fixed {
            let size: i32 = size_of(&types[i]);
            0 <= size && size <= MAX_FIXED_BYTES
        } else {
            is_sound(&types[i], false, MAX_TYPE_DEPTH) && is_countable(
                &types[i],
                MAX_FIXED_ITEMS,
                MAX_TYPE_DEPTH,
            )
        };
        if !sound {
            assert(!sound_column(schema_types(*schema)[i as int]));
            return false;
        }
        i = i + 1;
    }
    true
}

/// A column of the schema has values of one size.
pub open spec fn has_fixed(schema: Schema) -> bool {
    exists|i: int|
        0 <= i < schema_types(schema).len() && type_kind(#[trigger] schema_types(schema)[i])
            == TypeKind::Fixed
}

/// Whether a column of the schema has values of one size.
pub fn has_fixed_column(schema: &Schema) -> (r: bool)
    ensures
        r == has_fixed(*schema),
{
    let types = columns_of(schema);
    let mut i: usize = 0;
    while i < types.len()
        invariant
            i <= types@.len(),
            types@ == schema_types(*schema),
            forall|k: int| 0 <= k < i ==> type_kind(#[trigger] types@[k]) != TypeKind::Fixed,
        decreases types@.len() - i,
    {
        if kind_of(&types[i]) == TypeKind::Fixed {
            assert(type_kind(schema_types(*schema)[i as int]) == TypeKind::Fixed);
            return true;
        }
        i = i + 1;
    }
    false
}

/// The types of the columns, without those of values of one size.
pub open spec fn unfixed(types: Seq<DataType>) -> Seq<Option<DataType>> {
    types.map_values(
        |t: DataType|
            if type_kind(t) == TypeKind::Fixed {
                None
            } else {
                Some(t)
            },
    )
}

/// The schema with the columns of these types, or of bytes of any length where
/// none is given.
pub uninterp spec fn retyped_schema(schema: Schema, types: Seq<Option<DataType>>) -> Schema;

/// A new `arrow_schema::Schema` of the same fields, each `with_data_type` of the
/// type given, or `DataType::Binary` where none is given.
#[verifier::external_body]
fn retype(schema: &Schema, types: Vec<Option<DataType>>) -> (r: Schema)
    requires
        types@.len() == schema_types(*schema).len(),
    ensures
        r == retyped_schema(*schema, types@),
{
    let fields = schema.fields().iter().zip(types);
    Schema::new(
        fields.map(
            |(f, t)| f.as_ref().clone().with_data_type(t.unwrap_or(DataType::Binary)),
        ).collect::<Vec<_>>(),
    )
}

/// The schema with bytes of any length in place of values of one size.
pub open spec fn loose_schema(schema: Schema) -> Schema {
    retyped_schema(schema, unfixed(schema_types(schema)))
}

/// Put bytes of any length in place of values of one size.
pub fn loosen(schema: &Schema) -> (r: Schema)
    ensures
        r == loose_schema(*schema),
{
    let types = columns_of(schema);
    let mut loose: Vec<Option<DataType>> = Vec::new();
    let ghost all = types@;
    for t in it: types
        invariant
            it.seq() == all,
            loose@ =~= unfixed(all.take(it.index() as int)),
    {
        loose.push(
            if kind_of(&t) == TypeKind::Fixed {
                None
            } else {
                Some(t)
            },
        );
    }
    assert(loose@ =~= unfixed(all));
    retype(schema, loose)
}

/// How the arrays of each type are laid out, and how wide integers are.
pub proof fn law_layouts_of_types(n: TypeName)
    ensures
        kind_of_name(n) is Null <==> n is Null,
        kind_of_name(n) is Bytes <==> n is Utf8 || n is LargeUtf8 || n is Binary || n
            is LargeBinary,
        kind_of_name(n) is Views <==> n is Utf8View || n is BinaryView,
        kind_of_name(n) is Fixed <==> n is FixedSizeBinary,
        kind_of_name(n) is Lists <==> n is List || n is LargeList,
        kind_of_name(n) is Entries <==> n is Entries,
        kind_of_name(n) is ListViews <==> n is ListView || n is LargeListView,
        kind_of_name(n) is FixedList <==> n is FixedSizeList,
        kind_of_name(n) is Struct <==> n is Struct,
        kind_of_name(n) is Runs <==> n is RunEndEncoded,
        kind_of_name(n) is Dictionary <==> n is Dictionary,
        kind_of_name(n) is Sparse <==> n is SparseUnion,
        kind_of_name(n) is Dense <==> n is DenseUnion,
        kind_of_name(n) is Unknown <==> n is Unknown,
        integer_width(n) == 1 <==> n is Int8 || n is UInt8,
        integer_width(n) == 2 <==> n is Int16 || n is UInt16,
        integer_width(n) == 4 <==> n is Int32 || n is UInt32,
        integer_width(n) == 8 <==> n is Int64 || n is UInt64,
        integer_width(n) == 0 || integer_width(n) == 1 || integer_width(n) == 2 || integer_width(n)
            == 4 || integer_width(n) == 8,
        counts_runs(n) <==> n is Int16 || n is Int32 || n is Int64,
{
}

/// A type is named by the one family of types that knows it.
pub proof fn law_types_are_named(t: DataType, n: TypeName)
    ensures
        number_name(t) == Some(n) ==> named_type(t) == n,
        number_name(t) is None && moment_name(t) == Some(n) ==> named_type(t) == n,
        number_name(t) is None && moment_name(t) is None && bytes_name(t) == Some(n) ==> named_type(
            t,
        ) == n,
        number_name(t) is None && moment_name(t) is None && bytes_name(t) is None && nested_name(t)
            == Some(n) ==> named_type(t) == n,
        number_name(t) is None && moment_name(t) is None && bytes_name(t) is None && nested_name(t)
            is None ==> named_type(t) is Unknown,
        type_kind(t) == kind_of_name(named_type(t)),
{
}

/// There are arrays of a type exactly where there are arrays of all it is made of and
/// nothing about it itself is amiss: no size below zero, no runs that are not counted by
/// signed integers, no keys that are not integers, no entries that are not pairs, no
/// type that is unknown.
pub proof fn law_sound_types(t: DataType, fixed: bool, depth: nat)
    ensures
        !sound_type(t, fixed, 0),
        ({
            let p = type_parts(t);
            let n = named_type(t);
            let amiss = {
                ||| n is Unknown
                ||| n is FixedSizeBinary && (!fixed || type_size(t) < 0)
                ||| n is FixedSizeList && type_size(t) < 0
                ||| n is RunEndEncoded && !(p.len() == 2 && (named_type(p[0]) is Int16
                    || named_type(p[0]) is Int32 || named_type(p[0]) is Int64))
                ||| n is Dictionary && !(p.len() == 2 && integer_width(named_type(p[0])) > 0)
                ||| n is Entries && !(p.len() == 1 && named_type(p[0]) is Struct && type_parts(
                    p[0],
                ).len() == 2)
            };
            sound_type(t, fixed, depth + 1) <==> !amiss && sound_types(p, fixed, depth)
        }),
{
    let d = (depth + 1) as nat;
    assert((d - 1) as nat == depth);
}

/// Every one of some types is sound or one is not; those of arrays that can be joined
/// are no unions and no dictionaries, down to their parts.
pub proof fn law_each_type_counts(types: Seq<DataType>, t: DataType, fixed: bool, depth: nat)
    ensures
        sound_types(Seq::empty(), fixed, depth),
        sound_types(types.push(t), fixed, depth) <==> sound_types(types, fixed, depth)
            && sound_type(t, fixed, depth),
        !joinable(t, 0),
        joinable(t, depth + 1) <==> !(named_type(t) is SparseUnion || named_type(t) is DenseUnion
            || named_type(t) is Dictionary || named_type(t) is Unknown) && forall|i: int|
            0 <= i < type_parts(t).len() ==> joinable(#[trigger] type_parts(t)[i], depth),
{
    let all = types.push(t);
    assert(all[types.len() as int] == t);
    if sound_types(all, fixed, depth) {
        assert forall|i: int| 0 <= i < types.len() implies sound_type(
            #[trigger] types[i],
            fixed,
            depth,
        ) by {
            assert(all[i] == types[i]);
        }
    }
    let d = (depth + 1) as nat;
    assert((d - 1) as nat == depth);
}

/// Numbers are read with their lowest byte first.
pub proof fn law_lowest_byte_first(b: Seq<u8>, at: int)
    ensures
        le4(b, at) == b[at] + 256 * (b[at + 1] + 256 * (b[at + 2] + 256 * b[at + 3])),
        le8(b, at) == le4(b, at) + 4_294_967_296 * le4(b, at + 4),
{
}

/// A buffer lies in its body where it starts and ends in it. A compressed batch puts
/// eight bytes before each that holds anything: its length, or that it is held as it is.
pub proof fn law_buffers_are_held(l: LayoutView, body: Seq<u8>, k: int, body_len: int)
    ensures
        buffer_within(l.buffers[k], body_len) <==> l.buffers[k].0 >= 0 && l.buffers[k].1 >= 0
            && l.buffers[k].0 + l.buffers[k].1 <= body_len,
        !l.compressed || l.buffers[k].1 == 0 ==> buffer_held(l, body, k) == Some(
            (l.buffers[k].0 as int, l.buffers[k].1 as int),
        ),
        l.compressed && l.buffers[k].1 != 0 && l.buffers[k].1 < 8 ==> buffer_held(l, body, k)
            is None,
        l.compressed && l.buffers[k].1 >= 8 ==> ({
            let n = le8(body, l.buffers[k].0 as int);
            &&& n == 0xFFFF_FFFF_FFFF_FFFF ==> buffer_held(l, body, k) == Some(
                (l.buffers[k].0 + 8, l.buffers[k].1 - 8),
            )
            &&& n <= 0x7FFF_FFFF_FFFF_FFFF ==> buffer_held(l, body, k) == Some((0int, n))
            &&& 0x7FFF_FFFF_FFFF_FFFF < n < 0xFFFF_FFFF_FFFF_FFFF ==> buffer_held(l, body, k)
                is None
        }),
{
}

/// How many buffers an array has: what its layout asks for, with the bitmap of unions up
/// to the fourth version of the metadata, and what is listed for views.
pub proof fn law_arrays_have_their_buffers(
    t: DataType,
    l: LayoutView,
    head: MessageHead,
    buffer: int,
    view: int,
)
    ensures
        ({
            let n = buffer_count(t, l, head, buffer, view);
            let k = type_kind(t);
            &&& k is Null || k is Runs ==> n == Some(0int)
            &&& k is Struct || k is FixedList ==> n == Some(1int)
            &&& k is Plain || k is Fixed || k is Lists || k is Entries || k is Dictionary || k
                is Unknown ==> n == Some(2int)
            &&& k is Bytes || k is ListViews ==> n == Some(3int)
            &&& k is Sparse && head.version < 4 ==> n == Some(2int)
            &&& k is Sparse && head.version >= 4 ==> n == Some(1int)
            &&& k is Dense && head.version < 4 ==> n == Some(3int)
            &&& k is Dense && head.version >= 4 ==> n == Some(2int)
            &&& k is Views ==> (n is Some <==> view < l.views.len() && l.views[view] >= 0 && buffer
                + l.views[view] + 2 <= l.buffers.len())
            &&& k is Views && n is Some ==> n == Some(l.views[view] + 2)
        }),
        named_type(t) is Dictionary ==> following(t).len() == 0,
        !(named_type(t) is Dictionary) ==> following(t) == type_parts(t),
        masks_unions(head) <==> head.version < 4,
{
}

/// How wide the numbers are that an array is read by, and when a buffer holds them.
pub proof fn law_words_are_whole(
    t: DataType,
    l: LayoutView,
    body: Seq<u8>,
    k: int,
    width: int,
    count: int,
)
    ensures
        ({
            let n = named_type(t);
            &&& n is LargeUtf8 || n is LargeBinary || n is LargeList || n is LargeListView
                ==> word_width(t) == 8
            &&& n is Utf8 || n is Binary || n is List || n is ListView || n is Entries
                ==> word_width(t) == 4
            &&& n is Utf8View || n is BinaryView ==> word_width(t) == 16
            &&& n is Dictionary && type_parts(t).len() > 0 && integer_width(
                named_type(type_parts(t)[0]),
            ) > 0 ==> word_width(t) == integer_width(named_type(type_parts(t)[0]))
        }),
        k >= l.buffers.len() ==> holds_words(l, body, k, width, count) && holds_bytes(
            l,
            body,
            k,
            count,
            width,
        ),
        k < l.buffers.len() ==> (buffer_held(l, body, k) matches Some((start, len)) ==> (
        holds_words(l, body, k, width, count) <==> len % width == 0 || len < count * width) && (
        holds_bytes(l, body, k, count, width) <==> count <= len && start % width == 0)),
        k < l.buffers.len() && buffer_held(l, body, k) is None ==> holds_words(
            l,
            body,
            k,
            width,
            count,
        ) && holds_bytes(l, body, k, count, width),
{
}

/// An array has no more items than can be counted or than its body has bits, and its
/// buffers hold what so many items are read by.
pub proof fn law_lengths_fit(
    t: DataType,
    l: LayoutView,
    head: MessageHead,
    body: Seq<u8>,
    length: i64,
    buffer: int,
)
    ensures
        length_within(length, body.len() as int) <==> length >= 0 && (length <= 2_147_483_647
            || length <= 8 * body.len()),
        !length_within(length, body.len() as int) ==> !length_fits(
            t,
            l,
            head,
            body,
            length,
            buffer,
        ),
        length_within(length, body.len() as int) ==> ({
            let fits = length_fits(t, l, head, body, length, buffer);
            let w = word_width(t);
            let k = type_kind(t);
            &&& k is Plain || k is Fixed || k is Struct || k is Runs || k is Null ==> fits
            &&& k is Bytes || k is Lists || k is Entries ==> (fits <==> holds_words(
                l,
                body,
                buffer + 1,
                w,
                length + 1,
            ))
            &&& k is ListViews ==> (fits <==> holds_words(l, body, buffer + 1, w, length as int)
                && holds_words(l, body, buffer + 2, w, length as int))
            &&& k is Views || k is Dictionary ==> (fits <==> holds_words(
                l,
                body,
                buffer + 1,
                w,
                length as int,
            ))
            &&& k is FixedList ==> (fits <==> length * type_size(t) <= usize::MAX)
            &&& k is Sparse && head.version >= 4 ==> (fits <==> holds_bytes(
                l,
                body,
                buffer,
                length as int,
                1,
            ))
            &&& k is Sparse && head.version < 4 ==> (fits <==> holds_bytes(
                l,
                body,
                buffer + 1,
                length as int,
                1,
            ))
            &&& k is Dense && head.version >= 4 ==> (fits <==> holds_bytes(
                l,
                body,
                buffer,
                length as int,
                1,
            ) && holds_bytes(l, body, buffer + 1, 4 * length, 4))
            &&& k is Dense && head.version < 4 ==> (fits <==> holds_bytes(
                l,
                body,
                buffer + 1,
                length as int,
                1,
            ) && holds_bytes(l, body, buffer + 2, 4 * length, 4))
        }),
{
}

/// The arrays of a batch are taken one after the other, each before its parts. The first
/// takes its buffers, which lie in the body, and a length that fits; the others take what
/// comes after. What is not listed is not looked for.
pub proof fn law_arrays_are_taken_in_turn(
    types: Seq<DataType>,
    l: LayoutView,
    head: MessageHead,
    body: Seq<u8>,
    node: int,
    buffer: int,
    view: int,
)
    requires
        types.len() > 0,
    ensures
        arrays_within(Seq::empty(), l, head, body, node, buffer, view),
        ({
            let within = arrays_within(types, l, head, body, node, buffer, view);
            let t = types[0];
            match buffer_count(t, l, head, buffer, view) {
                None => within,
                Some(n) => {
                    let placed = forall|k: int|
                        buffer <= k < buffer + n && k < l.buffers.len() ==> (
                        #[trigger] l.buffers[k]).0 >= 0 && l.buffers[k].1 >= 0 && l.buffers[k].0
                            + l.buffers[k].1 <= body.len();
                    let rest = arrays_within(
                        following(t) + types.drop_first(),
                        l,
                        head,
                        body,
                        node + 1,
                        buffer + n,
                        if type_kind(t) is Views {
                            view + 1
                        } else {
                            view
                        },
                    );
                    &&& !placed ==> !within
                    &&& placed && node >= l.lengths.len() ==> within
                    &&& placed && node < l.lengths.len() ==> (within <==> length_fits(
                        t,
                        l,
                        head,
                        body,
                        l.lengths[node],
                        buffer,
                    ) && (buffer + n <= l.buffers.len() ==> rest))
                },
            }
        }),
        batch_within(types, l, head, body) <==> sound_types(types, true, 1_024) && arrays_within(
            types,
            l,
            head,
            body,
            0,
            0,
            0,
        ),
{
}

/// A message begins with the length of its metadata, behind a mark or not; its body is
/// as long as the metadata says, and the next message comes right after it.
pub proof fn law_messages_are_found(p: Seq<u8>, at: int)
    requires
        0 <= at,
    ensures
        ({
            let from = if at + 4 <= p.len() && le4(p, at) == 0xFFFF_FFFF {
                at + 8
            } else {
                at + 4
            };
            let len = le4(p, from - 4);
            let whole = from <= p.len() && 1 <= len <= 0x7FFF_FFFF && from + len <= p.len();
            &&& whole ==> meta_at(p, at) == Some((from, from + len))
            &&& !whole ==> meta_at(p, at) is None
        }),
        message_at(p, at) matches Some((meta, head, body, next)) ==> ({
            &&& message_head(meta) == Some(head)
            &&& body.len() == head.body_len
            &&& next <= p.len()
            &&& meta_at(p, at) matches Some((from, to)) && meta == p.subrange(from, to) && body
                == p.subrange(to, next)
        }),
        meta_at(p, at) is None ==> message_at(p, at) is None,
        meta_at(p, at) matches Some((from, to)) ==> (message_head(p.subrange(from, to)) matches Some(
            head,
        ) ==> (message_at(p, at) is Some <==> head.body_len >= 0 && to + head.body_len <= p.len())),
{
}

/// A stream is read where its schema can be and every message up to the first batch
/// keeps to itself. The first batch ends the walk, and so does the end of the stream.
pub proof fn law_streams_are_looked_over(p: Seq<u8>, at: int, schema: Schema, items: int)
    ensures
        message_at(p, 0) is None ==> buffers_within(p),
        message_at(p, 0) matches Some((meta, head, body, next)) ==> ({
            &&& head.header != 1 ==> buffers_within(p)
            &&& head.header == 1 && !unions_numbered(meta) ==> !buffers_within(p)
            &&& head.header == 1 && unions_numbered(meta) && message_schema(meta) is None
                ==> buffers_within(p)
            &&& head.header == 1 && unions_numbered(meta) ==> (message_schema(meta) matches Some(s)
                ==> (buffers_within(p) <==> messages_within(p, next, s, 0)))
        }),
        message_at(p, at) is None ==> messages_within(p, at, schema, items),
        message_at(p, at) matches Some((meta, head, body, next)) ==> ({
            let within = messages_within(p, at, schema, items);
            &&& head.header == 1 ==> (within <==> unions_numbered(meta))
            &&& head.header != 1 && head.header != 2 && head.header != 3 ==> within
            &&& head.header == 3 && batch_layout(meta) is None ==> within
            &&& head.header == 3 ==> (batch_layout(meta) matches Some(l) ==> (within
                <==> batch_within(schema_types(schema), l, head, body)))
            &&& head.header == 2 && dictionary_layout(meta) is None ==> within
            &&& head.header == 2 ==> (dictionary_layout(meta) matches Some((id, delta, l)) ==> (
            dictionary_type(schema, id) is None ==> within))
        }),
{
}

/// A dictionary comes before the batch that uses it: its values keep to their message,
/// and what is added to one can be joined, two thousand million items at most in all.
pub proof fn law_dictionaries_are_looked_over(
    p: Seq<u8>,
    at: int,
    schema: Schema,
    items: int,
    meta: Seq<u8>,
    head: MessageHead,
    body: Seq<u8>,
    next: int,
    id: i64,
    delta: bool,
    l: LayoutView,
    t: DataType,
)
    requires
        message_at(p, at) == Some((meta, head, body, next)),
        head.header == 2,
        dictionary_layout(meta) == Some((id, delta, l)),
        dictionary_type(schema, id) == Some(t),
        at < next <= p.len(),
    ensures
        messages_within(p, at, schema, items) <==> batch_within(seq![t], l, head, body) && (delta
            ==> joinable(t, 1_024) && items + items_in(l.lengths) <= 2_147_483_647)
            && messages_within(p, next, schema, items + items_in(l.lengths)),
{
}

/// The items of arrays are counted together; a length below zero counts as none.
pub proof fn law_items_add_up(lengths: Seq<i64>, n: i64)
    ensures
        items_in(Seq::empty()) == 0,
        n >= 0 ==> items_in(lengths.push(n)) == items_in(lengths) + n,
        n < 0 ==> items_in(lengths.push(n)) == items_in(lengths),
{
    assert(lengths.push(n).drop_last() =~= lengths);
}

/// A union without type ids has at most a hundred and twenty-eight fields, and so have
/// those inside it.
pub proof fn law_unions_are_numbered(f: RawField<'static>, depth: nat, meta: Seq<u8>)
    ensures
        !numbered_field(f, 0),
        numbered_field(f, depth + 1) <==> (is_lone_union(f) ==> raw_parts(f).len() <= 128) && (
        forall|i: int|
            0 <= i < raw_parts(f).len() ==> numbered_field(#[trigger] raw_parts(f)[i], depth)),
        unions_numbered(meta) <==> forall|i: int|
            0 <= i < raw_fields(meta).len() ==> numbered_field(
                #[trigger] raw_fields(meta)[i],
                1_024,
            ),
{
    let d = (depth + 1) as nat;
    assert((d - 1) as nat == depth);
}

/// Lists of one size have together with those inside them at most as many items as may
/// be: each level takes its share.
pub proof fn law_lists_share_their_items(t: DataType, most: int, depth: nat)
    ensures
        !countable(t, most, 0),
        ({
            let share = if named_type(t) is FixedSizeList && type_size(t) > 1 {
                most / type_size(t) as int
            } else {
                most
            };
            countable(t, most, depth + 1) <==> (named_type(t) is FixedSizeList ==> type_size(t)
                <= most) && forall|i: int|
                0 <= i < type_parts(t).len() ==> countable(
                    #[trigger] type_parts(t)[i],
                    share,
                    depth,
                )
        }),
{
    let d = (depth + 1) as nat;
    assert((d - 1) as nat == depth);
    assert(shared(t, most) == if named_type(t) is FixedSizeList && type_size(t) > 1 {
        most / type_size(t) as int
    } else {
        most
    });
}

/// A column of values of one size has at most a mebibyte in each; any other has a sound
/// type without such values and lists of at most a mebi items. A schema can be read
/// where all its columns can.
pub proof fn law_columns_can_be_read(t: DataType, schema: Schema, i: int)
    ensures
        named_type(t) is FixedSizeBinary ==> (sound_column(t) <==> 0 <= type_size(t) <= 1_048_576),
        !(named_type(t) is FixedSizeBinary) ==> (sound_column(t) <==> sound_type(t, false, 1_024)
            && countable(t, 1_048_576, 1_024)),
        sound_schema(schema) && 0 <= i < schema_types(schema).len() ==> sound_column(
            schema_types(schema)[i],
        ),
        (forall|k: int|
            0 <= k < schema_types(schema).len() ==> sound_column(
                #[trigger] schema_types(schema)[k],
            )) ==> sound_schema(schema),
        0 <= i < schema_types(schema).len() && named_type(schema_types(schema)[i])
            is FixedSizeBinary ==> has_fixed(schema),
        has_fixed(schema) ==> exists|k: int|
            0 <= k < schema_types(schema).len() && named_type(#[trigger] schema_types(schema)[k])
                is FixedSizeBinary,
{
    if 0 <= i < schema_types(schema).len() {
        assert(type_kind(schema_types(schema)[i]) == kind_of_name(
            named_type(schema_types(schema)[i]),
        ));
    }
    if has_fixed(schema) {
        let k = choose|k: int|
            0 <= k < schema_types(schema).len() && type_kind(#[trigger] schema_types(schema)[k])
                == TypeKind::Fixed;
        assert(named_type(schema_types(schema)[k]) is FixedSizeBinary);
    }
}

/// The loose schema keeps every column but those of values of one size, whose values may
/// have any length in it.
pub proof fn law_loose_schema(types: Seq<DataType>, i: int, schema: Schema)
    requires
        0 <= i < types.len(),
    ensures
        unfixed(types).len() == types.len(),
        named_type(types[i]) is FixedSizeBinary ==> unfixed(types)[i] is None,
        !(named_type(types[i]) is FixedSizeBinary) ==> unfixed(types)[i] == Some(types[i]),
        loose_schema(schema) == retyped_schema(schema, unfixed(schema_types(schema))),
{
}

} // verus!
