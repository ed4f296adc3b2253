//! Whole-run tests: the verified engine driving real parquet data held in
//! memory, mirroring the way an unverified driver performs each action the
//! engine asks for.

use arrow::array::{Array, Float64Array, Int32Array, RecordBatch, StringArray};
use arrow::datatypes::{DataType, Field, Schema};
use bytes::Bytes;
use parquet::arrow::arrow_reader::ParquetRecordBatchReaderBuilder;
use parquet::arrow::ArrowWriter;
use parquet::basic::Compression;
use parquet::file::properties::WriterProperties;
use parquet_consolidator::engine::{Action, ConsolidateError, Engine, Event};
use parquet_consolidator::schema::{ColumnType, FieldDef, SchemaDef};
use std::sync::Arc;

fn standard_arrow_schema() -> Arc<Schema> {
    Arc::new(Schema::new(vec![
        Field::new("id", DataType::Int32, false),
        Field::new("name", DataType::Utf8, false),
        Field::new("value", DataType::Float64, false),
    ]))
}

/// A parquet buffer with the standard schema and rows with ids start..end.
fn standard_parquet_buffer(start: i32, end: i32) -> Vec<u8> {
    let schema = standard_arrow_schema();
    let ids: Vec<i32> = (start..end).collect();
    let names: Vec<String> = (start..end).map(|i| format!("name_{}", i)).collect();
    let values: Vec<f64> = (start..end).map(|i| i as f64 * 1.5).collect();
    let batch = RecordBatch::try_new(
        schema.clone(),
        vec![
            Arc::new(Int32Array::from(ids)),
            Arc::new(StringArray::from(names)),
            Arc::new(Float64Array::from(values)),
        ],
    )
    .unwrap();
    let mut buf: Vec<u8> = Vec::new();
    let mut writer = ArrowWriter::try_new(&mut buf, schema, None).unwrap();
    writer.write(&batch).unwrap();
    writer.close().unwrap();
    buf
}

/// A parquet buffer whose schema has an added nullable `extra: string` field.
fn parquet_buffer_with_extra_column(start: i32, end: i32) -> Vec<u8> {
    let schema = Arc::new(Schema::new(vec![
        Field::new("id", DataType::Int32, false),
        Field::new("name", DataType::Utf8, false),
        Field::new("value", DataType::Float64, false),
        Field::new("extra", DataType::Utf8, true),
    ]));
    let ids: Vec<i32> = (start..end).collect();
    let names: Vec<String> = (start..end).map(|i| format!("name_{}", i)).collect();
    let values: Vec<f64> = (start..end).map(|i| i as f64 * 1.5).collect();
    let extras: Vec<Option<String>> = (start..end).map(|i| Some(format!("extra_{}", i))).collect();
    let batch = RecordBatch::try_new(
        schema.clone(),
        vec![
            Arc::new(Int32Array::from(ids)),
            Arc::new(StringArray::from(names)),
            Arc::new(Float64Array::from(values)),
            Arc::new(StringArray::from(extras)),
        ],
    )
    .unwrap();
    let mut buf: Vec<u8> = Vec::new();
    let mut writer = ArrowWriter::try_new(&mut buf, schema, None).unwrap();
    writer.write(&batch).unwrap();
    writer.close().unwrap();
    buf
}

fn to_schema_def(s: &Schema) -> SchemaDef {
    let mut fields: Vec<FieldDef> = Vec::new();
    for f in s.fields() {
        let ctype = match f.data_type() {
            DataType::Boolean => ColumnType::Boolean,
            DataType::Int32 => ColumnType::Int32,
            DataType::Int64 => ColumnType::Int64,
            DataType::Float64 => ColumnType::Float64,
            DataType::Utf8 => ColumnType::Utf8,
            DataType::Binary => ColumnType::Binary,
            DataType::Date32 => ColumnType::Date,
            DataType::Timestamp(_, _) => ColumnType::Timestamp,
            other => ColumnType::Other(format!("{:?}", other)),
        };
        fields.push(FieldDef { name: f.name().clone(), ctype, nullable: f.is_nullable() });
    }
    SchemaDef { fields }
}

/// Drive one consolidation run over in-memory parquet buffers, performing
/// each action the engine asks for and reporting the outcome back. Returns
/// the output buffer and the row count; on failure the output was never
/// created.
fn consolidate_buffers(buffers: &[Vec<u8>]) -> Result<(Vec<u8>, u64), ConsolidateError> {
    let names: Vec<String> = (0..buffers.len()).map(|i| format!("input{}.parquet", i)).collect();
    let mut engine = match Engine::new(names) {
        Ok(e) => e,
        Err(err) => return Err(err),
    };
    let mut canonical_arrow: Option<Arc<Schema>> = None;
    let mut writer: Option<ArrowWriter<Vec<u8>>> = None;
    let mut reader: Option<parquet::arrow::arrow_reader::ParquetRecordBatchReader> = None;
    let mut pending: Option<RecordBatch> = None;
    let mut output: Option<Vec<u8>> = None;
    loop {
        match engine.next_action() {
            Action::ReadSchema { index } => {
                match ParquetRecordBatchReaderBuilder::try_new(Bytes::copy_from_slice(
                    &buffers[index],
                )) {
                    Ok(builder) => {
                        let schema = builder.schema().clone();
                        if index == 0 {
                            canonical_arrow = Some(schema.clone());
                        }
                        engine.step(Event::SchemaRead { schema: to_schema_def(&schema) });
                    },
                    Err(_) => engine.step(Event::SchemaUnreadable),
                }
            },
            Action::CreateOutput => {
                let props = WriterProperties::builder()
                    .set_compression(Compression::SNAPPY)
                    .build();
                match ArrowWriter::try_new(
                    Vec::new(),
                    canonical_arrow.clone().unwrap(),
                    Some(props),
                ) {
                    Ok(w) => {
                        writer = Some(w);
                        engine.step(Event::OutputCreated);
                    },
                    Err(_) => engine.step(Event::OutputCreateFailed),
                }
            },
            Action::OpenInput { index } => {
                let builder =
                    ParquetRecordBatchReaderBuilder::try_new(Bytes::copy_from_slice(
                        &buffers[index],
                    ));
                match builder.and_then(|b| b.build()) {
                    Ok(r) => {
                        reader = Some(r);
                        engine.step(Event::InputOpened);
                    },
                    Err(_) => engine.step(Event::InputOpenFailed),
                }
            },
            Action::ReadBatch { .. } => match reader.as_mut().unwrap().next() {
                Some(Ok(batch)) => {
                    let rows = batch.num_rows() as u64;
                    if !(engine.can_account_batch(rows) && engine.can_count_batch()) {
                        engine.step(Event::BatchUnreadable);
                    } else {
                        pending = Some(batch);
                        engine.step(Event::BatchRead { rows });
                    }
                },
                Some(Err(_)) => engine.step(Event::BatchUnreadable),
                None => engine.step(Event::EndOfInput),
            },
            Action::WriteBatch { .. } => {
                let batch = pending.take().unwrap();
                match writer.as_mut().unwrap().write(&batch) {
                    Ok(()) => engine.step(Event::BatchWritten),
                    Err(_) => engine.step(Event::WriteFailed),
                }
            },
            Action::Finalize => match writer.take().unwrap().into_inner() {
                Ok(buf) => {
                    output = Some(buf);
                    engine.step(Event::Finalized);
                },
                Err(_) => engine.step(Event::FinalizeFailed),
            },
            Action::Done { rows } => {
                return Ok((output.unwrap(), rows));
            },
            Action::Failed => {
                // The output writer is only ever created after validation; a
                // phase-one failure leaves no output artifact at all.
                assert!(output.is_none());
                return Err(engine.take_error().unwrap());
            },
        }
    }
}

fn read_back(buf: &[u8]) -> (Arc<Schema>, Vec<RecordBatch>) {
    let builder = ParquetRecordBatchReaderBuilder::try_new(Bytes::copy_from_slice(buf)).unwrap();
    let schema = builder.schema().clone();
    let reader = builder.build().unwrap();
    let batches: Vec<RecordBatch> = reader.map(|b| b.unwrap()).collect();
    (schema, batches)
}

#[test]
fn test_consolidate_parquet_files() {
    let file1 = standard_parquet_buffer(0, 10);
    let file2 = standard_parquet_buffer(10, 20);
    let (out, rows) = consolidate_buffers(&[file1, file2]).unwrap();
    assert_eq!(rows, 20);
    let (_, batches) = read_back(&out);
    let total: usize = batches.iter().map(|b| b.num_rows()).sum();
    assert_eq!(total, 20);
}

#[test]
fn test_consolidate_three_files_row_count_and_schema() {
    // 5, 10 and 7 rows with the identical standard schema: 22 rows come out,
    // under the same three fields.
    let buffers = [
        standard_parquet_buffer(0, 5),
        standard_parquet_buffer(5, 15),
        standard_parquet_buffer(15, 22),
    ];
    let (out, rows) = consolidate_buffers(&buffers).unwrap();
    assert_eq!(rows, 22);
    let (schema, batches) = read_back(&out);
    let total: usize = batches.iter().map(|b| b.num_rows()).sum();
    assert_eq!(total, 22);
    assert_eq!(schema.fields().len(), 3);
    assert_eq!(schema.field(0).name(), "id");
    assert_eq!(schema.field(0).data_type(), &DataType::Int32);
    assert_eq!(schema.field(1).name(), "name");
    assert_eq!(schema.field(1).data_type(), &DataType::Utf8);
    assert_eq!(schema.field(2).name(), "value");
    assert_eq!(schema.field(2).data_type(), &DataType::Float64);
}

#[test]
fn test_consolidate_preserves_row_order() {
    // Concatenating the inputs' rows in file order reproduces the output's
    // row sequence exactly.
    let buffers = [
        standard_parquet_buffer(100, 105),
        standard_parquet_buffer(0, 3),
        standard_parquet_buffer(50, 54),
    ];
    let (out, rows) = consolidate_buffers(&buffers).unwrap();
    assert_eq!(rows, 12);
    let (_, batches) = read_back(&out);
    let mut ids: Vec<i32> = Vec::new();
    for b in &batches {
        let col = b.column(0).as_any().downcast_ref::<Int32Array>().unwrap();
        for i in 0..col.len() {
            ids.push(col.value(i));
        }
    }
    let expected: Vec<i32> = (100..105).chain(0..3).chain(50..54).collect();
    assert_eq!(ids, expected);
}

#[test]
fn test_consolidate_parquet_files_with_mismatched_schemas() {
    // The second of two files has an added nullable `extra` field: the run
    // fails with a mismatch naming that file, and no output exists.
    let file1 = standard_parquet_buffer(0, 10);
    let file2 = parquet_buffer_with_extra_column(10, 20);
    let r = consolidate_buffers(&[file1, file2]);
    match r {
        Err(ConsolidateError::SchemaMismatch { file, index, expected, found }) => {
            assert_eq!(file, "input1.parquet");
            assert_eq!(index, 1);
            assert_eq!(expected.fields.len(), 3);
            assert_eq!(found.fields.len(), 4);
            assert_eq!(found.fields[3].name, "extra");
            assert!(found.fields[3].nullable);
        },
        other => panic!("expected SchemaMismatch, got {:?}", other),
    }
}

#[test]
fn test_consolidate_rejects_corrupt_first_file() {
    let garbage = vec![0u8; 32];
    let good = standard_parquet_buffer(0, 5);
    let r = consolidate_buffers(&[garbage, good]);
    assert!(matches!(r, Err(ConsolidateError::SchemaReadError { .. })));
}

#[test]
fn test_consolidate_single_file_round_trip() {
    let file = standard_parquet_buffer(0, 100);
    let (out, rows) = consolidate_buffers(&[file]).unwrap();
    assert_eq!(rows, 100);
    let (schema, batches) = read_back(&out);
    let total: usize = batches.iter().map(|b| b.num_rows()).sum();
    assert_eq!(total, 100);
    assert_eq!(schema.fields().len(), 3);
}
