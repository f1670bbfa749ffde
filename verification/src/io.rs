//! What the file and network sources decide: how a frame header is taken, how
//! a frame is decoded, how JSON lines are read, and the defaults of the
//! readers.

use std::io::Cursor;
use std::sync::Arc;

use arrow_array::RecordBatch;
use arrow_ipc::reader::StreamReader;
use arrow_json::reader::Reader as JsonReader;
use arrow_schema::Schema;
use vstd::prelude::*;

use crate::consensus::codec::read_be4;
use crate::error::{ErrorView, PcsError};
use crate::ipc::{
    buffers_within, has_fixed, has_fixed_column, is_schema_sound, is_within, loose_schema, loosen,
    sound_schema,
};
use crate::order::be_bytes;

verus! {

/// One decoded batch: the columns of an `arrow_array::RecordBatch`. Nothing is
/// said of what they hold.
#[verifier::external_body]
#[derive(Debug)]
pub struct IngestBatch {
    pub batch: RecordBatch,
}

/// What to do after a frame header was read.
#[derive(Debug, Clone, Copy, PartialEq, Eq, Structural)]
pub enum FrameStep {
    /// The frame is empty; read the next header.
    Skip,
    /// The frame is too large; close the connection.
    Close,
    /// Read so many bytes and decode them.
    Read(usize),
}

/// Take a frame header: four bytes, big-endian.
pub fn take_header(header: &[u8; 4], max_frame_bytes: usize) -> (r: FrameStep)
    ensures
        exists|len: nat|
            len <= u32::MAX && #[trigger] be_bytes(len, 4) == header@ && r == if len == 0 {
                FrameStep::Skip
            } else if len > max_frame_bytes {
                FrameStep::Close
            } else {
                FrameStep::Read(len as usize)
            },
{
    let len: usize = read_be4(header.as_slice(), 0) as usize;
    proof {
        assert(header@.subrange(0, 4) =~= header@);
        assert(be_bytes(len as nat, 4) == header@);
    }
    if len == 0 {
        FrameStep::Skip
    } else if len > max_frame_bytes {
        FrameStep::Close
    } else {
        FrameStep::Read(len)
    }
}

/// What reading the first batch of an IPC stream gives.
pub enum FrameRead {
    /// The stream has no valid header.
    BadHeader(String),
    /// The stream ends without a batch.
    Empty,
    /// The batch cannot be decoded.
    Undecodable(String),
    Batch(IngestBatch),
}

/// The contents of a [`FrameRead`].
pub ghost enum FrameReadView {
    BadHeader(Seq<char>),
    Empty,
    Undecodable(Seq<char>),
    Batch(IngestBatch),
}

impl View for FrameRead {
    type V = FrameReadView;

    open spec fn view(&self) -> FrameReadView {
        match *self {
            FrameRead::BadHeader(e) => FrameReadView::BadHeader(e@),
            FrameRead::Empty => FrameReadView::Empty,
            FrameRead::Undecodable(e) => FrameReadView::Undecodable(e@),
            FrameRead::Batch(b) => FrameReadView::Batch(b),
        }
    }
}

/// What `arrow_ipc::reader::StreamReader` gives first for these bytes.
pub uninterp spec fn first_batch(payload: Seq<u8>) -> FrameReadView;

/// Open an `arrow_ipc::reader::StreamReader` on the bytes and take its first
/// item. What comes is a function of the bytes. The reader panics on a stream
/// that leads it outside a message, to a type of which there are no arrays, to
/// offsets, views or keys with one cut off at the end, or to an addition to a
/// dictionary that it cannot join.
#[verifier::external_body]
fn read_first_batch(payload: &[u8]) -> (r: FrameRead)
    requires
        buffers_within(payload@),
    ensures
        r@ == first_batch(payload@),
{
    match StreamReader::try_new(Cursor::new(payload), None) {
        Err(e) => FrameRead::BadHeader(e.to_string()),
        Ok(mut reader) => match reader.next() {
            None => FrameRead::Empty,
            Some(Err(e)) => FrameRead::Undecodable(e.to_string()),
            Some(Ok(batch)) => FrameRead::Batch(IngestBatch { batch }),
        },
    }
}

/// The fields of a schema, in order, each as the text that tells it from every
/// field that `arrow_schema` holds unequal to it.
pub uninterp spec fn schema_fields(schema: Schema) -> Seq<Seq<char>>;

/// The fields of the batch's schema, as [`schema_fields`] gives them.
pub uninterp spec fn batch_fields(batch: IngestBatch) -> Seq<Seq<char>>;

/// Whether the batch has the fields of the schema: the equality of
/// `arrow_schema::Fields`, which compares them in order, one by one.
#[verifier::external_body]
fn fields_agree(batch: &IngestBatch, schema: &Schema) -> (r: bool)
    ensures
        r == (batch_fields(*batch) == schema_fields(*schema)),
{
    batch.batch.schema().fields() == schema.fields()
}

/// The schema of the batch, as `arrow_schema::Schema` shows itself.
pub uninterp spec fn batch_schema_shown(batch: IngestBatch) -> Seq<char>;

/// The schema of the batch as the `Debug` of `arrow_schema::Schema` shows it:
/// the fields in order, metadata in the order of its keys.
#[verifier::external_body]
fn batch_schema_text(batch: &IngestBatch) -> (r: String)
    ensures
        r@ == batch_schema_shown(*batch),
{
    format!("{:?}", batch.batch.schema())
}

/// The schema, as `arrow_schema::Schema` shows itself.
pub uninterp spec fn schema_shown(schema: Schema) -> Seq<char>;

/// The schema as the `Debug` of `arrow_schema::Schema` shows it: the fields in
/// order, metadata in the order of its keys.
#[verifier::external_body]
fn schema_text(schema: &Schema) -> (r: String)
    ensures
        r@ == schema_shown(*schema),
{
    format!("{:?}", schema)
}

/// The message for a batch of another schema.
pub open spec fn mismatch_text(got: Seq<char>, expected: Seq<char>) -> Seq<char> {
    "TcpIngestSource: received batch with schema "@ + got + ", expected "@ + expected
}

/// The message of what was read, where it is no batch.
pub open spec fn unread_text(read: FrameReadView) -> Option<Seq<char>> {
    match read {
        FrameReadView::BadHeader(e) => Some("TcpIngestSource: IPC stream header: "@ + e),
        FrameReadView::Empty => Some("TcpIngestSource: frame contained no record batch"@),
        FrameReadView::Undecodable(e) => Some("TcpIngestSource: IPC decode: "@ + e),
        FrameReadView::Batch(_) => None,
    }
}

/// The batch that was read, or why there is none.
pub fn read_batch(read: FrameRead) -> (r: Result<IngestBatch, PcsError>)
    ensures
        match unread_text(read@) {
            Some(m) => r matches Err(e) && e@ == ErrorView::Generic(m),
            None => r == Ok::<IngestBatch, PcsError>(read->Batch_0),
        },
{
    match read {
        FrameRead::BadHeader(e) => {
            let mut m = "TcpIngestSource: IPC stream header: ".to_owned();
            m.append(e.as_str());
            Err(PcsError::Generic(m))
        },
        FrameRead::Empty => Err(
            PcsError::Generic("TcpIngestSource: frame contained no record batch".to_owned()),
        ),
        FrameRead::Undecodable(e) => {
            let mut m = "TcpIngestSource: IPC decode: ".to_owned();
            m.append(e.as_str());
            Err(PcsError::Generic(m))
        },
        FrameRead::Batch(b) => Ok(b),
    }
}

/// The batch, if its fields agree with what is expected.
pub fn accept_batch(batch: IngestBatch, agrees: bool, got: &str, expected: &str) -> (r: Result<
    IngestBatch,
    PcsError,
>)
    ensures
        agrees ==> r == Ok::<IngestBatch, PcsError>(batch),
        !agrees ==> (r matches Err(e) && e@ == ErrorView::Generic(mismatch_text(got@, expected@))),
{
    if agrees {
        return Ok(batch);
    }
    let mut m = "TcpIngestSource: received batch with schema ".to_owned();
    m.append(got);
    m.append(", expected ");
    m.append(expected);
    Err(PcsError::Generic(m))
}

/// What is read first of a frame. A frame that would lead the reader outside a
/// message is not handed to it.
pub open spec fn frame_read(payload: Seq<u8>) -> FrameReadView {
    if buffers_within(payload) {
        first_batch(payload)
    } else {
        FrameReadView::Undecodable("a message does not hold the arrays it lists"@)
    }
}

/// Decode one IPC stream payload into its single batch. A batch with other
/// fields than expected is refused, with the two schemas shown in the message.
pub fn decode_frame(payload: &[u8], schema: &Schema) -> (r: Result<IngestBatch, PcsError>)
    ensures
        match unread_text(frame_read(payload@)) {
            Some(m) => r matches Err(e) && e@ == ErrorView::Generic(m),
            None => {
                let batch = frame_read(payload@)->Batch_0;
                if batch_fields(batch) == schema_fields(*schema) {
                    r == Ok::<IngestBatch, PcsError>(batch)
                } else {
                    r matches Err(e) && e@ == ErrorView::Generic(
                        mismatch_text(batch_schema_shown(batch), schema_shown(*schema)),
                    )
                }
            },
        },
{
    let read = if is_within(payload) {
        read_first_batch(payload)
    } else {
        FrameRead::Undecodable("a message does not hold the arrays it lists".to_owned())
    };
    let batch = match read_batch(read) {
        Ok(b) => b,
        Err(e) => {
            return Err(e);
        },
    };
    let agrees = fields_agree(&batch, schema);
    let got = batch_schema_text(&batch);
    let expected = schema_text(schema);
    accept_batch(batch, agrees, got.as_str(), expected.as_str())
}

/// How many decoded batches may wait: at least one.
pub fn ingest_buffer(buffer: usize) -> (r: usize)
    ensures
        r == if buffer > 1 {
            buffer
        } else {
            1
        },
{
    if buffer > 1 {
        buffer
    } else {
        1
    }
}

/// How many rows a schema is inferred from unless said otherwise.
pub const DEFAULT_INFER_ROWS: usize = 1024;

/// How many rows a schema is inferred from.
pub fn infer_rows(max: Option<usize>) -> (r: usize)
    ensures
        r == match max {
            Some(n) => n,
            None => DEFAULT_INFER_ROWS,
        },
{
    match max {
        Some(n) => n,
        None => DEFAULT_INFER_ROWS,
    }
}

/// A reader of JSON lines of `arrow_json`. What is ahead of it is named by
/// [`json_position`].
#[verifier::external_type_specification]
#[verifier::external_body]
#[verifier::reject_recursive_types(R)]
pub struct ExJsonReader<R>(JsonReader<R>);

/// Bytes that are read from the start on: `std::io::Cursor`.
#[verifier::external_type_specification]
#[verifier::external_body]
#[verifier::reject_recursive_types(T)]
pub struct ExCursor<T>(Cursor<T>);

/// What a reader reads, by which schema, and how many items it has given.
pub uninterp spec fn json_position(reader: JsonReader<Cursor<Vec<u8>>>) -> (Seq<u8>, Schema, nat);

/// Why `arrow_json::ReaderBuilder` has no reader for the schema; nothing where
/// it has one.
pub uninterp spec fn json_unreadable(schema: Schema) -> Option<Seq<char>>;

/// What `arrow_json::Reader` gives for these bytes by this schema, the items
/// counted from zero: nothing at the end, a batch, or the text of an error.
pub uninterp spec fn json_item(data: Seq<u8>, schema: Schema, n: nat) -> Option<
    Result<IngestBatch, Seq<char>>,
>;

/// The schema that `arrow_json::reader::infer_json_schema` infers from at most
/// so many of the first rows, or the text of its error.
pub uninterp spec fn json_schema(data: Seq<u8>, max: usize) -> Result<Schema, Seq<char>>;

/// A result, with the view of its text.
pub open spec fn text_view<T>(r: Result<T, String>) -> Result<T, Seq<char>> {
    match r {
        Ok(x) => Ok(x),
        Err(e) => Err(e@),
    }
}

/// How deep values may be nested in each other.
pub const MAX_VALUE_DEPTH: usize = 1_024;

/// What the first `n` bytes of JSON text leave open: whether a string, whether an
/// escape in it, and how many lists and objects.
pub open spec fn left_open(text: Seq<u8>, n: int) -> (bool, bool, int)
    decreases n,
{
    if n <= 0 {
        (false, false, 0)
    } else {
        let (string, escape, values) = left_open(text, n - 1);
        let c = text[n - 1];
        if string {
            (escape || c != 0x22, !escape && c == 0x5C, values)
        } else if c == 0x5B || c == 0x7B {
            (false, false, values + 1)
        } else if c == 0x5D || c == 0x7D {
            (false, false, values - 1)
        } else {
            (c == 0x22, false, values)
        }
    }
}

/// Nowhere in the text are more lists and objects open than values may be nested.
pub open spec fn nested_within(text: Seq<u8>) -> bool {
    forall|n: int|
        0 <= n <= text.len() ==> (#[trigger] left_open(text, n)).2 <= MAX_VALUE_DEPTH
}

/// Whether the values of the text are not nested too deep.
fn is_nested_within(text: &[u8]) -> (r: bool)
    ensures
        r == nested_within(text@),
{
    let mut string = false;
    let mut escape = false;
    let mut values: i128 = 0;
    let mut i: usize = 0;
    while i < text.len()
        invariant
            i <= text@.len(),
            -(i as int) <= values <= i,
            left_open(text@, i as int) == (string, escape, values as int),
            forall|n: int|
                0 <= n <= i ==> (#[trigger] left_open(text@, n)).2 <= MAX_VALUE_DEPTH,
        decreases text@.len() - i,
    {
        let c: u8 = text[i];
        if string {
            string = escape || c != 0x22;
            escape = !escape && c == 0x5C;
        } else if c == 0x5B || c == 0x7B {
            values = values + 1;
        } else if c == 0x5D || c == 0x7D {
            values = values - 1;
        } else {
            string = c == 0x22;
        }
        i = i + 1;
        assert(left_open(text@, i as int) == (string, escape, values as int));
        if values > MAX_VALUE_DEPTH as i128 {
            return false;
        }
    }
    true
}

/// The item is an error.
pub open spec fn is_failed(item: Option<Result<IngestBatch, Seq<char>>>) -> bool {
    item matches Some(Err(_))
}

/// None of the first `n` items is an error.
pub open spec fn unfailed(data: Seq<u8>, schema: Schema, n: nat) -> bool {
    forall|k: nat| k < n ==> !is_failed(#[trigger] json_item(data, schema, k))
}

/// Build an `arrow_json::Reader` on a copy of the bytes. Whether there is one,
/// and the text where there is none, is a matter of the schema; it starts at
/// the first item. Where runs are counted by anything but signed integers the
/// builder panics.
#[verifier::external_body]
fn build_reader(data: &[u8], schema: &Arc<Schema>) -> (r: Result<
    JsonReader<Cursor<Vec<u8>>>,
    String,
>)
    requires
        sound_schema(**schema),
    ensures
        match r {
            Ok(x) => json_unreadable(**schema) is None && json_position(x) == (
                data@,
                **schema,
                0nat,
            ),
            Err(e) => json_unreadable(**schema) == Some(e@),
        },
{
    arrow_json::ReaderBuilder::new(schema.clone()).build(Cursor::new(data.to_owned())).map_err(
        |e| e.to_string(),
    )
}

/// An item that was read, with the view of its text.
pub open spec fn item_view(r: Option<Result<IngestBatch, String>>) -> Option<
    Result<IngestBatch, Seq<char>>,
> {
    match r {
        None => None,
        Some(x) => Some(text_view(x)),
    }
}

/// Take the next item of an `arrow_json::Reader`: it is a function of the
/// bytes, the schema and how many were taken before. The reader panics where a
/// size is negative or more is to be set aside than can be, and in a column of
/// values of one size where a value is neither text nor null. In a column of
/// bytes of any length such a value is an error: the reader by the loose schema
/// takes the same rows at a time and gives one. An error is written out with the
/// value it is about, however deep that is nested. After an error about the text
/// the reader starts amid it.
#[verifier::external_body]
fn next_item(reader: &mut JsonReader<Cursor<Vec<u8>>>) -> (r: Option<Result<IngestBatch, String>>)
    requires
        sound_schema(json_position(*old(reader)).1),
        nested_within(json_position(*old(reader)).0),
        unfailed(
            json_position(*old(reader)).0,
            json_position(*old(reader)).1,
            json_position(*old(reader)).2,
        ),
        has_fixed(json_position(*old(reader)).1) ==> !is_failed(
            json_item(
                json_position(*old(reader)).0,
                loose_schema(json_position(*old(reader)).1),
                json_position(*old(reader)).2,
            ),
        ),
    ensures
        item_view(r) == json_item(
            json_position(*old(reader)).0,
            json_position(*old(reader)).1,
            json_position(*old(reader)).2,
        ),
        json_position(*final(reader)) == (
            json_position(*old(reader)).0,
            json_position(*old(reader)).1,
            json_position(*old(reader)).2 + 1,
        ),
{
    match reader.next() {
        None => None,
        Some(Ok(batch)) => Some(Ok(IngestBatch { batch })),
        Some(Err(e)) => Some(Err(e.to_string())),
    }
}

/// Infer a schema with `arrow_json::reader::infer_json_schema`. The schema, and
/// the text where there is none, is a function of the bytes and the number of
/// rows: what was met is kept and shown in the order in which it was met.
#[verifier::external_body]
fn infer_schema(data: &[u8], max: usize) -> (r: Result<Schema, String>)
    ensures
        text_view(r) == json_schema(data@, max),
{
    match arrow_json::reader::infer_json_schema(Cursor::new(data), Some(max)) {
        Ok((schema, _)) => Ok(schema),
        Err(e) => Err(e.to_string()),
    }
}

/// `"JsonSource: <what>: <cause>"`.
pub open spec fn json_failed_text(what: Seq<char>, cause: Seq<char>) -> Seq<char> {
    "JsonSource: "@ + what + ": "@ + cause
}

/// The error of a step of a [`JsonSource`] that failed.
pub fn json_failed(what: &str, cause: &str) -> (r: PcsError)
    ensures
        r@ == ErrorView::Generic(json_failed_text(what@, cause@)),
{
    let mut m = "JsonSource: ".to_owned();
    m.append(what);
    m.append(": ");
    m.append(cause);
    PcsError::Generic(m)
}

/// What the consumer of a source is given for an item: the batch, the end, or
/// the error.
pub fn json_batch(item: Option<Result<IngestBatch, String>>) -> (r: Result<
    Option<IngestBatch>,
    PcsError,
>)
    ensures
        match item {
            None => r == Ok::<Option<IngestBatch>, PcsError>(None),
            Some(Ok(b)) => r == Ok::<Option<IngestBatch>, PcsError>(Some(b)),
            Some(Err(e)) => r is Err && r->Err_0@ == ErrorView::Generic(
                json_failed_text("read error"@, e@),
            ),
        },
{
    match item {
        None => Ok(None),
        Some(Ok(b)) => Ok(Some(b)),
        Some(Err(e)) => Err(json_failed("read error", e.as_str())),
    }
}

/// The schema the values of one size are looked over by has none itself.
pub open spec fn loose_fits(schema: Schema) -> bool {
    has_fixed(schema) ==> sound_schema(loose_schema(schema)) && !has_fixed(loose_schema(schema))
}

/// Why the bytes are not read by the schema; nothing where they are. A schema
/// with a type of which there are no arrays, and bytes with values nested too
/// deep, are not handed to the reader.
pub open spec fn no_reader(data: Seq<u8>, schema: Schema) -> Option<Seq<char>> {
    if !sound_schema(schema) || !loose_fits(schema) {
        Some("a type of the schema cannot be read"@)
    } else if !nested_within(data) {
        Some("values are nested too deep"@)
    } else if json_unreadable(schema) is None && has_fixed(schema) {
        json_unreadable(loose_schema(schema))
    } else {
        json_unreadable(schema)
    }
}

/// What a [`JsonSource`] takes for its next item, where `n` were taken before and
/// none was an error: what the reader gives, unless a column of values of one
/// size holds something else. Then it is the error that the loose schema gives.
pub open spec fn json_taken(data: Seq<u8>, schema: Schema, n: nat) -> Option<
    Result<IngestBatch, Seq<char>>,
> {
    if has_fixed(schema) && is_failed(json_item(data, loose_schema(schema), n)) {
        json_item(data, loose_schema(schema), n)
    } else {
        json_item(data, schema, n)
    }
}

/// Reads JSON lines, one batch of rows after the other. After an error it gives
/// that error again.
pub struct JsonSource {
    reader: JsonReader<Cursor<Vec<u8>>>,
    /// Looks over the rows before the reader takes them, where columns have
    /// values of one size.
    scout: Option<JsonReader<Cursor<Vec<u8>>>>,
    failure: Option<String>,
    schema: Arc<Schema>,
}

impl JsonSource {
    /// The bytes that are read.
    pub closed spec fn data(self) -> Seq<u8> {
        json_position(self.reader).0
    }

    /// The schema they are read by.
    pub closed spec fn read_by(self) -> Schema {
        json_position(self.reader).1
    }

    /// How many items were taken without an error.
    pub closed spec fn taken(self) -> nat {
        json_position(self.reader).2
    }

    /// The text of the error that came, if one did.
    pub closed spec fn failed_by(self) -> Option<Seq<char>> {
        match self.failure {
            None => None,
            Some(e) => Some(e@),
        }
    }

    pub closed spec fn wf(self) -> bool {
        let (data, schema, n) = json_position(self.reader);
        &&& *self.schema == schema
        &&& sound_schema(schema)
        &&& nested_within(data)
        &&& loose_fits(schema)
        &&& self.failure is None ==> {
            &&& unfailed(data, schema, n)
            &&& has_fixed(schema) == (self.scout is Some)
            &&& self.scout matches Some(x) ==> {
                &&& json_position(x) == (data, loose_schema(schema), n)
                &&& unfailed(data, loose_schema(schema), n)
            }
        }
    }

    /// Read the bytes by the schema. It is an error if they are not read: see
    /// [`no_reader`].
    pub fn from_bytes(data: &[u8], schema: Arc<Schema>) -> (r: Result<Self, PcsError>)
        ensures
            match no_reader(data@, *schema) {
                None => r matches Ok(s) && s.wf() && s.data() == data@ && s.read_by() == *schema
                    && s.taken() == 0 && s.failed_by() is None,
                Some(cause) => r matches Err(e) && e@ == ErrorView::Generic(
                    json_failed_text("reader build failed"@, cause),
                ),
            },
    {
        if !is_schema_sound(&schema) {
            return Err(json_failed("reader build failed", "a type of the schema cannot be read"));
        }
        let fixed = has_fixed_column(&schema);
        let loose: Arc<Schema> = if fixed {
            Arc::new(loosen(&schema))
        } else {
            schema.clone()
        };
        if fixed && (!is_schema_sound(&loose) || has_fixed_column(&loose)) {
            return Err(json_failed("reader build failed", "a type of the schema cannot be read"));
        }
        if !is_nested_within(data) {
            return Err(json_failed("reader build failed", "values are nested too deep"));
        }
        let reader = match build_reader(data, &schema) {
            Ok(x) => x,
            Err(e) => {
                return Err(json_failed("reader build failed", e.as_str()));
            },
        };
        let scout = if fixed {
            match build_reader(data, &loose) {
                Ok(x) => Some(x),
                Err(e) => {
                    return Err(json_failed("reader build failed", e.as_str()));
                },
            }
        } else {
            None
        };
        Ok(JsonSource { reader, scout, failure: None, schema })
    }

    /// Read the bytes by the schema inferred from their first rows, as many as
    /// [`infer_rows`] says. It is an error if none can be inferred.
    pub fn with_infer(data: &[u8], infer_max: Option<usize>) -> (r: Result<Self, PcsError>)
        ensures
            match json_schema(
                data@,
                match infer_max {
                    Some(n) => n,
                    None => DEFAULT_INFER_ROWS,
                },
            ) {
                Err(cause) => r matches Err(e) && e@ == ErrorView::Generic(
                    json_failed_text("schema inference failed"@, cause),
                ),
                Ok(schema) => match no_reader(data@, schema) {
                    None => r matches Ok(s) && s.wf() && s.data() == data@ && s.read_by() == schema
                        && s.taken() == 0 && s.failed_by() is None,
                    Some(cause) => r matches Err(e) && e@ == ErrorView::Generic(
                        json_failed_text("reader build failed"@, cause),
                    ),
                },
            },
    {
        match infer_schema(data, infer_rows(infer_max)) {
            Ok(schema) => Self::from_bytes(data, Arc::new(schema)),
            Err(e) => Err(json_failed("schema inference failed", e.as_str())),
        }
    }

    /// The schema the rows are read by.
    pub fn schema(&self) -> (r: Arc<Schema>)
        requires
            self.wf(),
        ensures
            *r == self.read_by(),
    {
        self.schema.clone()
    }

    /// The next batch; none at the end.
    pub fn next_batch(&mut self) -> (r: Result<Option<IngestBatch>, PcsError>)
        requires
            old(self).wf(),
        ensures
            final(self).wf(),
            final(self).data() == old(self).data(),
            final(self).read_by() == old(self).read_by(),
            match old(self).failed_by() {
                Some(cause) => {
                    &&& final(self).failed_by() == Some(cause)
                    &&& r matches Err(e) && e@ == ErrorView::Generic(
                        json_failed_text("read error"@, cause),
                    )
                },
                None => match json_taken(
                    old(self).data(),
                    old(self).read_by(),
                    old(self).taken(),
                ) {
                    Some(Err(cause)) => {
                        &&& final(self).failed_by() == Some(cause)
                        &&& r matches Err(e) && e@ == ErrorView::Generic(
                            json_failed_text("read error"@, cause),
                        )
                    },
                    None => {
                        &&& final(self).failed_by() is None
                        &&& final(self).taken() == old(self).taken() + 1
                        &&& r == Ok::<Option<IngestBatch>, PcsError>(None)
                    },
                    Some(Ok(b)) => {
                        &&& final(self).failed_by() is None
                        &&& final(self).taken() == old(self).taken() + 1
                        &&& r == Ok::<Option<IngestBatch>, PcsError>(Some(b))
                    },
                },
            },
    {
        if let Some(e) = &self.failure {
            return Err(json_failed("read error", e.as_str()));
        }
        if let Some(scout) = &mut self.scout {
            if let Some(Err(e)) = next_item(scout) {
                let failed = json_failed("read error", e.as_str());
                self.failure = Some(e);
                return Err(failed);
            }
        }
        let item = next_item(&mut self.reader);
        if let Some(Err(e)) = &item {
            self.failure = Some(e.clone());
        }
        json_batch(item)
    }
}

/// The rows of all row groups.
pub open spec fn total_rows(groups: Seq<usize>) -> nat
    decreases groups.len(),
{
    if groups.len() == 0 {
        0
    } else {
        total_rows(groups.drop_last()) + groups.last() as nat
    }
}

/// How many rows the row groups of a file promise together; none where they
/// promise nothing.
pub fn estimated_rows(groups: &Vec<usize>) -> (r: Option<usize>)
    requires
        total_rows(groups@) <= usize::MAX,
    ensures
        r == if total_rows(groups@) == 0 {
            None
        } else {
            Some(total_rows(groups@) as usize)
        },
{
    let mut sum: usize = 0;
    let mut i: usize = 0;
    assert(groups@.take(0) =~= Seq::<usize>::empty());
    while i < groups.len()
        invariant
            i <= groups@.len(),
            total_rows(groups@) <= usize::MAX,
            sum == total_rows(groups@.take(i as int)),
        decreases groups@.len() - i,
    {
        proof {
            assert(groups@.take(i as int + 1).drop_last() =~= groups@.take(i as int));
            lemma_rows_grow(groups@, i as int + 1);
        }
        sum = sum + groups[i];
        i += 1;
    }
    assert(groups@.take(i as int) =~= groups@);
    if sum == 0 {
        None
    } else {
        Some(sum)
    }
}

proof fn lemma_rows_grow(groups: Seq<usize>, n: int)
    requires
        0 <= n <= groups.len(),
    ensures
        total_rows(groups.take(n)) <= total_rows(groups),
    decreases groups.len() - n,
{
    if n < groups.len() {
        lemma_rows_grow(groups, n + 1);
        assert(groups.take(n + 1).drop_last() =~= groups.take(n));
    } else {
        assert(groups.take(n) =~= groups);
    }
}

/// The words in which a frame that is not taken is told.
pub proof fn law_frames_refused_are_told(a: Seq<char>, b: Seq<char>, batch: IngestBatch)
    ensures
        mismatch_text(a, b) == "TcpIngestSource: received batch with schema "@ + a + ", expected "@
            + b,
        unread_text(FrameReadView::BadHeader(a)) == Some(
            "TcpIngestSource: IPC stream header: "@ + a,
        ),
        unread_text(FrameReadView::Empty) == Some(
            "TcpIngestSource: frame contained no record batch"@,
        ),
        unread_text(FrameReadView::Undecodable(a)) == Some("TcpIngestSource: IPC decode: "@ + a),
        unread_text(FrameReadView::Batch(batch)) is None,
        json_failed_text(a, b) == "JsonSource: "@ + a + ": "@ + b,
{
}

/// A frame whose messages hold what they list is read as it is; any other is not read.
pub proof fn law_sound_frames_are_read(payload: Seq<u8>)
    ensures
        buffers_within(payload) ==> frame_read(payload) == first_batch(payload),
        !buffers_within(payload) ==> frame_read(payload) is Undecodable,
{
}

/// One more byte of JSON text opens or closes what it stands for: a quote opens a string
/// and closes it unless it is escaped; inside a string only a backslash that is not
/// escaped means anything else; outside, brackets and braces open and close values.
pub proof fn law_text_opens_and_closes(text: Seq<u8>, c: u8)
    ensures
        ({
            let b = left_open(text, text.len() as int);
            let a = left_open(text.push(c), text.len() as int + 1);
            &&& left_open(text, 0) == (false, false, 0int)
            &&& b.0 ==> a.2 == b.2 && (a.0 <==> b.1 || c != 0x22) && (a.1 <==> !b.1 && c == 0x5C)
            &&& !b.0 ==> !a.1 && (a.0 <==> c == 0x22)
            &&& !b.0 && (c == 0x5B || c == 0x7B) ==> a.2 == b.2 + 1
            &&& !b.0 && (c == 0x5D || c == 0x7D) ==> a.2 == b.2 - 1
            &&& !b.0 && c != 0x5B && c != 0x7B && c != 0x5D && c != 0x7D ==> a.2 == b.2
        }),
{
    lemma_left_open_prefix(text, c, text.len() as int);
}

proof fn lemma_left_open_prefix(text: Seq<u8>, c: u8, n: int)
    requires
        n <= text.len(),
    ensures
        left_open(text.push(c), n) == left_open(text, n),
    decreases n,
{
    if n > 0 {
        lemma_left_open_prefix(text, c, n - 1);
    }
}

/// Text is read while at most a thousand and twenty-four values are open at once.
pub proof fn law_nesting_is_limited(text: Seq<u8>, n: int)
    ensures
        nested_within(text) && 0 <= n <= text.len() ==> left_open(text, n).2 <= 1_024,
        0 <= n <= text.len() && left_open(text, n).2 > 1_024 ==> !nested_within(text),
        text.len() <= 1_024 ==> nested_within(text),
{
    assert forall|k: int| 0 <= k <= text.len() && text.len() <= 1_024 implies (
    #[trigger] left_open(text, k)).2 <= 1_024 by {
        lemma_open_at_most(text, k);
    }
}

proof fn lemma_open_at_most(text: Seq<u8>, n: int)
    requires
        n >= 0,
    ensures
        left_open(text, n).2 <= n,
    decreases n,
{
    if n > 0 {
        lemma_open_at_most(text, n - 1);
    }
}

/// JSON is read by a schema whose types can be read, where its values are not nested too
/// deep and the reader can be built. Otherwise the first of these that fails is told.
pub proof fn law_json_is_read(data: Seq<u8>, schema: Schema, n: nat)
    ensures
        no_reader(data, schema) is None ==> sound_schema(schema) && nested_within(data)
            && json_unreadable(schema) is None,
        sound_schema(schema) && !has_fixed(schema) && nested_within(data) ==> no_reader(
            data,
            schema,
        ) == json_unreadable(schema),
        sound_schema(schema) && !has_fixed(schema) && !nested_within(data) ==> no_reader(
            data,
            schema,
        ) == Some("values are nested too deep"@),
        !sound_schema(schema) ==> no_reader(data, schema) == Some(
            "a type of the schema cannot be read"@,
        ),
        sound_schema(schema) && has_fixed(schema) && sound_schema(loose_schema(schema))
            && !has_fixed(loose_schema(schema)) && nested_within(data) && json_unreadable(schema)
            is None ==> no_reader(data, schema) == json_unreadable(loose_schema(schema)),
        !has_fixed(schema) ==> json_taken(data, schema, n) == json_item(data, schema, n),
        !(json_item(data, loose_schema(schema), n) matches Some(Err(_))) ==> json_taken(
            data,
            schema,
            n,
        ) == json_item(data, schema, n),
        has_fixed(schema) && (json_item(data, loose_schema(schema), n) matches Some(Err(_)))
            ==> json_taken(data, schema, n) == json_item(data, loose_schema(schema), n),
        DEFAULT_INFER_ROWS == 1024,
{
}

/// The rows of the groups add up.
pub proof fn law_rows_add_up(groups: Seq<usize>, n: usize)
    ensures
        total_rows(Seq::empty()) == 0,
        total_rows(groups.push(n)) == total_rows(groups) + n,
{
    assert(groups.push(n).drop_last() =~= groups);
}

/// What was read is seen as what it is, with its text.
pub proof fn law_frame_read_is_seen_whole(e: String, b: IngestBatch, r: FrameRead)
    ensures
        FrameRead::BadHeader(e)@ == FrameReadView::BadHeader(e@),
        FrameRead::Empty@ == FrameReadView::Empty,
        FrameRead::Undecodable(e)@ == FrameReadView::Undecodable(e@),
        FrameRead::Batch(b)@ == FrameReadView::Batch(b),
        r@ is Batch <==> r is Batch,
{
}

} // verus!
