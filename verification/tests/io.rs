use arrow_array::types::{Int32Type, Int8Type};
use arrow_array::{
    new_null_array, Array, ArrayRef, DictionaryArray, FixedSizeBinaryArray, Int32Array, Int64Array, Int8Array, ListArray,
    RecordBatch, StringArray,
};
use arrow_ipc::writer::{DictionaryHandling, IpcWriteOptions, StreamWriter};
use arrow_schema::{DataType, Field, Fields, IntervalUnit, Schema, UnionFields, UnionMode};
use pcs_service::error::PcsError;
use pcs_service::io::{
    decode_frame, estimated_rows, infer_rows, ingest_buffer, json_batch, json_failed, take_header,
    FrameStep, JsonSource,
};
use std::sync::Arc;

fn test_schema() -> Arc<Schema> {
    Arc::new(Schema::new(vec![Field::new("v", DataType::Int64, false)]))
}

#[test]
fn decode_frame_rejects_schema_mismatch() {
    let wrong = Arc::new(Schema::new(vec![Field::new("v", DataType::Int32, false)]));
    let batch = RecordBatch::try_new(
        Arc::clone(&wrong),
        vec![Arc::new(Int32Array::from(vec![1]))],
    )
    .unwrap();

    let mut buf: Vec<u8> = Vec::new();
    {
        let mut writer = arrow_ipc::writer::StreamWriter::try_new(&mut buf, &wrong).unwrap();
        writer.write(&batch).unwrap();
        writer.finish().unwrap();
    }

    let err = decode_frame(&buf, &test_schema()).unwrap_err();
    assert!(err.message().contains("expected"), "got: {}", err.message());
    assert!(err
        .message()
        .starts_with("TcpIngestSource: received batch with schema "));
    assert!(err.message().contains("Int32") && err.message().contains("Int64"));
}

#[test]
fn decode_frame_round_trips_matching_batch() {
    let schema = test_schema();
    let batch = RecordBatch::try_new(
        Arc::clone(&schema),
        vec![Arc::new(Int64Array::from(vec![7, 8]))],
    )
    .unwrap();

    let mut buf: Vec<u8> = Vec::new();
    {
        let mut writer = arrow_ipc::writer::StreamWriter::try_new(&mut buf, &schema).unwrap();
        writer.write(&batch).unwrap();
        writer.finish().unwrap();
    }

    let decoded = decode_frame(&buf, &schema).unwrap();
    assert_eq!(decoded.batch.num_rows(), 2);
    assert_eq!(decoded.batch, batch);
}

#[test]
fn decode_frame_names_what_is_missing() {
    let err = decode_frame(&[1, 2, 3], &test_schema()).unwrap_err();
    assert!(
        err.message()
            .starts_with("TcpIngestSource: IPC stream header: ")
            || err.message() == "TcpIngestSource: frame contained no record batch",
        "got: {}",
        err.message()
    );

    let schema = test_schema();
    let mut buf: Vec<u8> = Vec::new();
    {
        let mut writer = arrow_ipc::writer::StreamWriter::try_new(&mut buf, &schema).unwrap();
        writer.finish().unwrap();
    }
    let err = decode_frame(&buf, &schema).unwrap_err();
    assert_eq!(
        err.message(),
        "TcpIngestSource: frame contained no record batch"
    );
}

#[test]
fn frame_headers_are_skipped_read_or_refused() {
    assert_eq!(take_header(&[0, 0, 0, 0], 1024), FrameStep::Skip);
    assert_eq!(take_header(&[0, 0, 4, 0], 1024), FrameStep::Read(1024));
    assert_eq!(take_header(&[0, 0, 4, 1], 1024), FrameStep::Close);
}

#[test]
fn reader_defaults() {
    assert_eq!(ingest_buffer(0), 1);
    assert_eq!(ingest_buffer(8), 8);
    assert_eq!(infer_rows(None), 1024);
    assert_eq!(infer_rows(Some(3)), 3);
    assert_eq!(estimated_rows(&vec![]), None);
    assert_eq!(estimated_rows(&vec![0, 0]), None);
    assert_eq!(estimated_rows(&vec![2, 3]), Some(5));
}

fn json_lines(lines: &[&str]) -> Vec<u8> {
    let mut data = Vec::new();
    for line in lines {
        data.extend_from_slice(line.as_bytes());
        data.push(b'\n');
    }
    data
}

#[test]
fn test_json_source_from_path_explicit_schema() {
    let data = json_lines(&[
        r#"{"id":1,"val":1.5}"#,
        r#"{"id":2,"val":2.5}"#,
        r#"{"id":3,"val":3.5}"#,
    ]);
    let schema = Arc::new(Schema::new(vec![
        Field::new("id", DataType::Int32, false),
        Field::new("val", DataType::Float64, false),
    ]));

    let mut src = JsonSource::from_bytes(&data, schema.clone()).unwrap();
    assert_eq!(src.schema().fields().len(), 2);

    let mut total_rows = 0;
    while let Some(batch) = src.next_batch().unwrap() {
        total_rows += batch.batch.num_rows();
    }
    assert_eq!(total_rows, 3);
}

#[test]
fn test_json_source_with_infer() {
    let data = json_lines(&[r#"{"x":10}"#, r#"{"x":20}"#]);
    let mut src = JsonSource::with_infer(&data, None).unwrap();

    let batch = src.next_batch().unwrap().unwrap().batch;
    assert_eq!(batch.num_rows(), 2);
    let col = batch.column_by_name("x").expect("column x should exist");
    assert_eq!(col.len(), 2);
    assert!(src.next_batch().unwrap().is_none());
}

#[test]
fn test_json_source_from_bytes() {
    let data = b"{\"a\":42}\n{\"a\":99}\n";
    let schema = Arc::new(Schema::new(vec![Field::new("a", DataType::Int32, false)]));
    let mut src = JsonSource::from_bytes(data, schema).unwrap();
    let batch = src.next_batch().unwrap().unwrap().batch;
    let col = batch
        .column(0)
        .as_any()
        .downcast_ref::<Int32Array>()
        .unwrap();
    assert_eq!(col.value(0), 42);
    assert_eq!(col.value(1), 99);
}

#[test]
fn test_json_source_streams_first_batch_without_full_materialisation() {
    let mut data = Vec::new();
    for i in 0..5_000i32 {
        data.extend_from_slice(format!("{{\"v\":{i}}}\n").as_bytes());
    }
    let schema = Arc::new(Schema::new(vec![Field::new("v", DataType::Int32, false)]));
    let mut src = JsonSource::from_bytes(&data, schema).unwrap();
    let first = src.next_batch().unwrap();
    assert!(first.is_some(), "first batch must not be None");
    assert_eq!(first.unwrap().batch.num_rows(), 1024);
}

#[test]
fn a_json_schema_is_inferred_from_the_first_rows_alone() {
    let data = json_lines(&[r#"{"x":1}"#, r#"{"x":"one","y":2}"#]);
    let narrow = JsonSource::with_infer(&data, Some(1)).unwrap();
    assert_eq!(narrow.schema().fields().len(), 1);
    let wide = JsonSource::with_infer(&data, None).unwrap();
    assert_eq!(wide.schema().fields().len(), 2);
    assert_eq!(wide.schema().field(0).data_type(), &DataType::Utf8);
}

#[test]
fn what_is_no_json_is_reported() {
    let mut src = JsonSource::from_bytes(b"{\"v\":", test_schema()).unwrap();
    let err = src.next_batch().unwrap_err();
    assert!(
        err.message().starts_with("JsonSource: read error: "),
        "{}",
        err.message()
    );

    match JsonSource::with_infer(b"[1]\n", None) {
        Err(e) => assert!(
            e.message()
                .starts_with("JsonSource: schema inference failed: "),
            "{}",
            e.message()
        ),
        Ok(_) => panic!("a row that is no object has no schema"),
    }

    let unreadable = Arc::new(Schema::new(vec![Field::new(
        "v",
        DataType::Interval(IntervalUnit::DayTime),
        false,
    )]));
    match JsonSource::from_bytes(b"{}\n", unreadable) {
        Err(e) => assert!(
            e.message().starts_with("JsonSource: reader build failed: "),
            "{}",
            e.message()
        ),
        Ok(_) => panic!("intervals are not read from JSON"),
    }

    assert_eq!(
        json_failed("read error", "cut"),
        PcsError::Generic("JsonSource: read error: cut".to_string())
    );
    assert_eq!(
        json_batch(Some(Err("cut".to_string()))).unwrap_err(),
        PcsError::Generic("JsonSource: read error: cut".to_string())
    );
    assert!(json_batch(None).unwrap().is_none());
}

fn stream_of(batch: &RecordBatch) -> Vec<u8> {
    let mut buf = Vec::new();
    let mut writer =
        arrow_ipc::writer::StreamWriter::try_new(&mut buf, &batch.schema()).unwrap();
    writer.write(batch).unwrap();
    writer.finish().unwrap();
    buf
}

/// Put `new` where the eight bytes of `old` stand.
fn replace_number(bytes: &mut [u8], old: i64, new: i64) -> usize {
    let mut at = 0;
    let mut found = 0;
    while at + 8 <= bytes.len() {
        if bytes[at..at + 8] == old.to_le_bytes() {
            bytes[at..at + 8].copy_from_slice(&new.to_le_bytes());
            found += 1;
            at += 8;
        } else {
            at += 1;
        }
    }
    found
}

fn union_of(mode: UnionMode) -> DataType {
    DataType::Union(
        UnionFields::from_fields(vec![
            Field::new("i", DataType::Int32, true),
            Field::new("s", DataType::Utf8, true),
        ]),
        mode,
    )
}

const MISPLACED: &str =
    "TcpIngestSource: IPC decode: a message does not hold the arrays it lists";

#[test]
fn frames_of_every_layout_are_decoded() {
    let item = Arc::new(Field::new("item", DataType::Int32, true));
    let entry = DataType::Struct(Fields::from(vec![
        Field::new("key", DataType::Utf8, false),
        Field::new("value", DataType::Int32, true),
    ]));
    let types = vec![
        DataType::Int64,
        DataType::Boolean,
        DataType::Utf8,
        DataType::Utf8View,
        DataType::FixedSizeBinary(3),
        DataType::List(item.clone()),
        DataType::LargeListView(item.clone()),
        DataType::FixedSizeList(item.clone(), 2),
        DataType::Map(Arc::new(Field::new("entries", entry.clone(), false)), false),
        DataType::Struct(Fields::from(vec![Field::new("a", DataType::Utf8View, true)])),
        DataType::RunEndEncoded(
            Arc::new(Field::new("run_ends", DataType::Int32, false)),
            Arc::new(Field::new("values", DataType::Utf8, true)),
        ),
        DataType::Dictionary(Box::new(DataType::Int8), Box::new(DataType::Utf8)),
        union_of(UnionMode::Sparse),
        union_of(UnionMode::Dense),
        DataType::Null,
    ];
    let fields: Vec<Field> = types
        .iter()
        .enumerate()
        .map(|(i, t)| Field::new(format!("c{i}"), t.clone(), true))
        .collect();
    let columns = types.iter().map(|t| new_null_array(t, 3)).collect();
    let batch = RecordBatch::try_new(Arc::new(Schema::new(fields)), columns).unwrap();

    let decoded = decode_frame(&stream_of(&batch), &batch.schema()).unwrap();
    assert_eq!(decoded.batch.num_rows(), 3);
    assert_eq!(decoded.batch.num_columns(), types.len());
}

#[test]
fn a_buffer_outside_its_message_makes_a_frame_undecodable() {
    let schema = test_schema();
    let column = Arc::new(Int64Array::from((0..999).collect::<Vec<i64>>()));
    let batch = RecordBatch::try_new(
        Arc::new(Schema::new(vec![Field::new("v", DataType::Int64, false)])),
        vec![column],
    )
    .unwrap();
    let good = stream_of(&batch);
    assert!(decode_frame(&good, &batch.schema()).is_ok());

    let mut long = good.clone();
    assert!(replace_number(&mut long, 7_992, 9_000) > 0);
    let err = decode_frame(&long, &schema).unwrap_err();
    assert_eq!(err.message(), MISPLACED);

    let mut negative = good;
    assert!(replace_number(&mut negative, 7_992, -1) > 0);
    let err = decode_frame(&negative, &schema).unwrap_err();
    assert_eq!(err.message(), MISPLACED);
}

#[test]
fn a_union_longer_than_its_type_ids_makes_a_frame_undecodable() {
    for mode in [UnionMode::Sparse, UnionMode::Dense] {
        let field = Field::new("u", union_of(mode), true);
        let batch = RecordBatch::try_new(
            Arc::new(Schema::new(vec![field])),
            vec![new_null_array(&union_of(mode), 37)],
        )
        .unwrap();
        let mut stream = stream_of(&batch);
        assert!(decode_frame(&stream, &batch.schema()).is_ok());
        assert!(replace_number(&mut stream, 37, 1 << 40) > 0);
        let err = decode_frame(&stream, &batch.schema()).unwrap_err();
        assert_eq!(err.message(), MISPLACED);
    }
}

#[test]
fn a_schema_with_an_unreadable_type_has_no_json_reader() {
    let runs = DataType::RunEndEncoded(
        Arc::new(Field::new("run_ends", DataType::UInt8, false)),
        Arc::new(Field::new("values", DataType::Utf8, true)),
    );
    let nested = DataType::List(Arc::new(Field::new("item", runs.clone(), true)));
    let sized = Arc::new(Field::new("item", DataType::FixedSizeBinary(4), true));
    let long = DataType::FixedSizeList(Arc::new(Field::new("item", DataType::Int8, true)), 2_000);
    let longer = DataType::FixedSizeList(Arc::new(Field::new("item", long.clone(), true)), 2_000);
    for t in [
        runs,
        nested,
        longer,
        DataType::FixedSizeBinary(-1),
        DataType::FixedSizeBinary(i32::MAX),
        DataType::List(sized),
    ] {
        let schema = Arc::new(Schema::new(vec![Field::new("a", t, true)]));
        let err = JsonSource::from_bytes(b"{}\n", schema).err().unwrap();
        assert_eq!(
            err.message(),
            "JsonSource: reader build failed: a type of the schema cannot be read"
        );
    }
    let schema = Arc::new(Schema::new(vec![Field::new("a", long, true)]));
    assert!(JsonSource::from_bytes(b"{}\n", schema).is_ok());
    let counted = DataType::RunEndEncoded(
        Arc::new(Field::new("run_ends", DataType::Int16, false)),
        Arc::new(Field::new("values", DataType::Utf8, true)),
    );
    let schema = Arc::new(Schema::new(vec![Field::new("a", counted, true)]));
    let mut source = JsonSource::from_bytes(b"{\"a\": \"x\"}\n", schema).unwrap();
    assert_eq!(source.next_batch().unwrap().unwrap().batch.num_rows(), 1);
}

/// Replace the first place where `old` stands.
fn replace_bytes(bytes: &mut [u8], old: &[u8], new: &[u8]) -> bool {
    match bytes.windows(old.len()).position(|w| w == old) {
        Some(at) => {
            bytes[at..at + new.len()].copy_from_slice(new);
            true
        }
        None => false,
    }
}

fn numbers(values: &[i64]) -> Vec<u8> {
    values.iter().flat_map(|v| v.to_le_bytes()).collect()
}

#[test]
fn a_union_that_lists_only_its_type_ids_is_held_to_them() {
    let field = Field::new("u", union_of(UnionMode::Dense), true);
    let batch = RecordBatch::try_new(
        Arc::new(Schema::new(vec![field])),
        vec![new_null_array(&union_of(UnionMode::Dense), 37)],
    )
    .unwrap();
    let mut stream = stream_of(&batch);
    let mut listed = 7u32.to_le_bytes().to_vec();
    listed.extend(numbers(&[0, 37]));
    assert!(replace_bytes(&mut stream, &listed, &1u32.to_le_bytes()));
    assert!(replace_bytes(&mut stream, &numbers(&[37, 0]), &numbers(&[38, 0])));
    let err = decode_frame(&stream, &batch.schema()).unwrap_err();
    assert_eq!(err.message(), MISPLACED);
}

#[test]
fn offsets_that_are_cut_off_make_a_frame_undecodable() {
    let column: ArrayRef = Arc::new(StringArray::from(vec!["abc"; 37]));
    let field = Field::new("s", DataType::Utf8, false);
    let batch = RecordBatch::try_new(Arc::new(Schema::new(vec![field])), vec![column]).unwrap();
    let mut stream = stream_of(&batch);
    assert!(decode_frame(&stream, &batch.schema()).is_ok());
    assert!(replace_number(&mut stream, 152, 153) > 0);
    let err = decode_frame(&stream, &batch.schema()).unwrap_err();
    assert_eq!(err.message(), MISPLACED);
}

/// A stream whose first batch follows a dictionary and an addition to it.
fn added_to(first: ArrayRef, whole: ArrayRef) -> (Vec<u8>, RecordBatch) {
    let of = |values: &ArrayRef, keys: Vec<i8>| {
        let column = DictionaryArray::<Int8Type>::new(Int8Array::from(keys), Arc::clone(values));
        let field = Field::new("d", column.data_type().clone(), false);
        RecordBatch::try_new(Arc::new(Schema::new(vec![field])), vec![Arc::new(column)]).unwrap()
    };
    let before = of(&first, vec![0, 1]);
    let after = of(&whole, vec![2, 0, 1]);
    let options =
        IpcWriteOptions::default().with_dictionary_handling(DictionaryHandling::Delta);
    let mut buf = Vec::new();
    let mut writer =
        StreamWriter::try_new_with_options(&mut buf, &before.schema(), options).unwrap();
    writer.write(&before).unwrap();
    writer.write(&after).unwrap();
    writer.finish().unwrap();

    let starts: Vec<usize> = (0..buf.len())
        .step_by(8)
        .filter(|&at| buf[at..at + 4] == [0xFF; 4])
        .collect();
    assert_eq!(starts.len(), 6, "schema, dictionary, batch, addition, batch, end");
    let mut stream = buf[..starts[2]].to_vec();
    stream.extend_from_slice(&buf[starts[3]..]);
    (stream, after)
}

#[test]
fn an_addition_to_a_dictionary_is_joined() {
    let words: ArrayRef = Arc::new(StringArray::from(vec!["a", "b", "c"]));
    let (stream, batch) = added_to(words.slice(0, 2), words);
    assert_eq!(decode_frame(&stream, &batch.schema()).unwrap().batch, batch);

    let rows = |n: i32| -> ArrayRef {
        Arc::new(ListArray::from_iter_primitive::<Int32Type, _, _>(
            (0..n).map(|i| Some(vec![Some(i), Some(i + 1)])),
        ))
    };
    let (stream, batch) = added_to(rows(2), rows(3));
    assert_eq!(decode_frame(&stream, &batch.schema()).unwrap().batch, batch);
}

fn sized_schema() -> Arc<Schema> {
    Arc::new(Schema::new(vec![
        Field::new("id", DataType::FixedSizeBinary(2), true),
        Field::new("n", DataType::Int32, true),
    ]))
}

#[test]
fn values_of_one_size_are_read() {
    let data = b"{\"id\": \"0aff\", \"n\": 1}\n{\"id\": null, \"n\": 2}\n";
    let mut source = JsonSource::from_bytes(data, sized_schema()).unwrap();
    assert_eq!(source.schema(), sized_schema());
    let batch = source.next_batch().unwrap().unwrap().batch;
    let ids = batch.column(0).as_any().downcast_ref::<FixedSizeBinaryArray>().unwrap();
    assert_eq!(ids.value(0), [0x0A, 0xFF]);
    assert!(ids.is_null(1));
    assert_eq!(batch.num_rows(), 2);
    assert!(source.next_batch().unwrap().is_none());
}

#[test]
fn an_error_of_the_rows_is_given_again() {
    for bad in ["{\"id\": 5}\n", "{\"id\": \"0a\"}\n", "{\"id\": [\"0a0b\"]}\n", "{x}\n"] {
        let mut source = JsonSource::from_bytes(bad.as_bytes(), sized_schema()).unwrap();
        let first = source.next_batch().unwrap_err();
        assert!(
            first.message().starts_with("JsonSource: read error: "),
            "{}",
            first.message()
        );
        assert_eq!(source.next_batch().unwrap_err(), first);
    }
    let mut good = String::new();
    for _ in 0..1_024 {
        good.push_str("{\"id\": \"0a0b\"}\n");
    }
    good.push_str("{\"id\": true}\n");
    let mut source = JsonSource::from_bytes(good.as_bytes(), sized_schema()).unwrap();
    assert_eq!(source.next_batch().unwrap().unwrap().batch.num_rows(), 1_024);
    let err = source.next_batch().unwrap_err();
    assert!(err.message().contains("got true"), "{}", err.message());
}

#[test]
fn values_nested_too_deep_are_not_read() {
    let lists = |n: usize| {
        let text = format!("{{\"x\": {}{}}}\n", "[".repeat(n), "]".repeat(n));
        JsonSource::from_bytes(text.as_bytes(), test_schema())
    };
    assert!(lists(1_023).is_ok());
    assert_eq!(
        lists(1_024).err().unwrap().message(),
        "JsonSource: reader build failed: values are nested too deep"
    );
    let text = format!("{{\"v\": 3, \"x\": \"\\\"{}\"}}\n", "[".repeat(2_000));
    let mut source = JsonSource::from_bytes(text.as_bytes(), test_schema()).unwrap();
    assert_eq!(source.next_batch().unwrap().unwrap().batch.num_rows(), 1);
}
