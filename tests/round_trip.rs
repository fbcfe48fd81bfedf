use std::sync::Arc;

use arrow::array::{
    ArrayRef, BinaryArray, BooleanArray, Float64Array, Int64Array, PrimitiveBuilder, StringArray,
    StringDictionaryBuilder, UInt32Array, UInt64Array, UInt8Array,
};
use arrow::datatypes::{DataType as ArrowType, Field as ArrowField, Schema, UInt16Type, UInt32Type, UInt8Type};
use arrow::ipc::reader::StreamReader;
use arrow::ipc::writer::StreamWriter;
use arrow::record_batch::RecordBatch;

use trace_columnar::batch::{encode_column_oriented, encode_row_oriented, EncodedBatch};
use trace_columnar::column::{Column, DataType, KeyWidth};
use trace_columnar::encode::Table;
use trace_columnar::envelope::{decode_envelope, encode_envelope};
use trace_columnar::model::{AttributeValue, Event, KeyValue, Link, Number, Span};

fn arrow_type(t: DataType) -> ArrowType {
    let key = |w: KeyWidth| match w {
        KeyWidth::U8 => ArrowType::UInt8,
        KeyWidth::U16 => ArrowType::UInt16,
        KeyWidth::U32 => ArrowType::UInt32,
    };
    match t {
        DataType::UInt8 => ArrowType::UInt8,
        DataType::UInt32 => ArrowType::UInt32,
        DataType::UInt64 => ArrowType::UInt64,
        DataType::Int64 => ArrowType::Int64,
        DataType::Float64 => ArrowType::Float64,
        DataType::Boolean => ArrowType::Boolean,
        DataType::Utf8 => ArrowType::Utf8,
        DataType::Binary => ArrowType::Binary,
        DataType::Dictionary(w) => ArrowType::Dictionary(Box::new(key(w)), Box::new(ArrowType::Utf8)),
    }
}

fn array(c: &Column) -> ArrayRef {
    match c {
        Column::UInt8(v) => Arc::new(UInt8Array::from(v.clone())),
        Column::UInt32(v) => Arc::new(UInt32Array::from(v.clone())),
        Column::UInt64(v) => Arc::new(UInt64Array::from(v.clone())),
        Column::Int64(v) => Arc::new(Int64Array::from(v.clone())),
        Column::Float64(v) => Arc::new(Float64Array::from(v.iter().map(|b| b.map(f64::from_bits)).collect::<Vec<_>>())),
        Column::Boolean(v) => Arc::new(BooleanArray::from(v.clone())),
        Column::Utf8(v) => Arc::new(StringArray::from(v.iter().map(|s| s.as_deref()).collect::<Vec<_>>())),
        Column::Binary(v) => Arc::new(BinaryArray::from(v.iter().map(|s| s.as_ref().map(|x| x.as_bytes())).collect::<Vec<_>>())),
        Column::Dictionary(w, keys, dict) => {
            let values = StringArray::from(dict.iter().map(|s| s.as_str()).collect::<Vec<&str>>());
            match w {
                KeyWidth::U8 => {
                    let mut b = StringDictionaryBuilder::new_with_dictionary(PrimitiveBuilder::<UInt8Type>::new(keys.len()), &values).unwrap();
                    for k in keys {
                        match k {
                            Some(i) => {
                                b.append(&dict[*i]).unwrap();
                            }
                            None => b.append_null().unwrap(),
                        }
                    }
                    Arc::new(b.finish())
                }
                KeyWidth::U16 => {
                    let mut b = StringDictionaryBuilder::new_with_dictionary(PrimitiveBuilder::<UInt16Type>::new(keys.len()), &values).unwrap();
                    for k in keys {
                        match k {
                            Some(i) => {
                                b.append(&dict[*i]).unwrap();
                            }
                            None => b.append_null().unwrap(),
                        }
                    }
                    Arc::new(b.finish())
                }
                KeyWidth::U32 => {
                    let mut b = StringDictionaryBuilder::new_with_dictionary(PrimitiveBuilder::<UInt32Type>::new(keys.len()), &values).unwrap();
                    for k in keys {
                        match k {
                            Some(i) => {
                                b.append(&dict[*i]).unwrap();
                            }
                            None => b.append_null().unwrap(),
                        }
                    }
                    Arc::new(b.finish())
                }
            }
        }
    }
}

fn ipc(t: &Table) -> Vec<u8> {
    if t.fields.is_empty() {
        return vec![];
    }
    let schema = Arc::new(Schema::new(
        t.fields.iter().map(|f| ArrowField::new(&f.name, arrow_type(f.data_type), f.nullable)).collect(),
    ));
    let batch = RecordBatch::try_new(schema.clone(), t.columns.iter().map(array).collect()).unwrap();
    let mut w = StreamWriter::try_new(Vec::new(), schema.as_ref()).unwrap();
    w.write(&batch).unwrap();
    w.finish().unwrap();
    w.into_inner().unwrap()
}

fn read(buf: &[u8]) -> Option<(usize, usize)> {
    if buf.is_empty() {
        return None;
    }
    let mut r = StreamReader::try_new(buf).unwrap();
    let b = r.next().unwrap().unwrap();
    Some((b.num_columns(), b.num_rows()))
}

fn round_trip(b: &EncodedBatch) -> [Option<(usize, usize)>; 3] {
    let bytes = encode_envelope(&ipc(&b.spans), &ipc(&b.events), &ipc(&b.links));
    let (s, e, l) = decode_envelope(&bytes).expect("an envelope");
    [read(&s), read(&e), read(&l)]
}

fn base(name: &str) -> Span {
    Span {
        trace_id: "T".into(),
        span_id: "S".into(),
        trace_state: None,
        parent_span_id: None,
        name: name.into(),
        kind: None,
        start_time_unix_nano: 1,
        end_time_unix_nano: None,
        attributes: None,
        dropped_attributes_count: None,
        events: None,
        dropped_events_count: None,
        links: None,
        dropped_links_count: None,
    }
}

#[test]
fn single_span_round_trips_through_arrow() {
    let spans = vec![base("n")];
    let b = encode_row_oriented(&spans);
    assert_eq!(round_trip(&b), [Some((11, 1)), None, None]);
}

#[test]
fn batch_round_trips_with_row_counts() {
    let kv = |k: &str, v: AttributeValue| KeyValue { key: k.into(), value: v };
    let mut s0 = base("a");
    s0.attributes = Some(vec![
        kv("x", AttributeValue::Number(Number::Float, 0.5f64.to_bits())),
        kv("s", AttributeValue::String("v".into())),
    ]);
    s0.events = Some(vec![
        Event { time_unix_nano: 2, name: "e".into(), attributes: vec![kv("k", AttributeValue::String("v".into()))], dropped_attributes_count: None },
        Event { time_unix_nano: 3, name: "e".into(), attributes: vec![], dropped_attributes_count: Some(1) },
    ]);
    let mut s1 = base("b");
    s1.kind = Some(2);
    s1.links = Some(vec![Link { trace_id: "t".into(), span_id: "s".into(), trace_state: None, attributes: vec![], dropped_attributes_count: None }]);
    let mut spans = vec![s0, s1];
    for i in 0..20 {
        let mut s = base("c");
        s.attributes = Some(vec![kv("s", AttributeValue::String("v".into())), kv("b", AttributeValue::Bool(i % 2 == 0))]);
        spans.push(s);
    }
    for b in [encode_row_oriented(&spans), encode_column_oriented(&spans)] {
        let got = round_trip(&b);
        assert_eq!(got[0], Some((b.spans.fields.len(), 22)));
        assert_eq!(got[1], Some((b.events.fields.len(), 2)));
        assert_eq!(got[2], Some((b.links.fields.len(), 1)));
    }
}
