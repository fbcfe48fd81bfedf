use trace_columnar::statistics::{ColumnType, ColumnsStatistics};
use trace_columnar::batch::{encode_column_oriented, encode_row_oriented, EncodedBatch};
use trace_columnar::column::{
    binary_non_nullable_field, binary_nullable_field, bool_nullable_field, f64_nullable_field,
    i64_nullable_field, key_width, min_num_bits_to_represent, string_non_nullable_field,
    string_nullable_field, u32_non_nullable_field, u32_nullable_field, u64_non_nullable_field,
    u64_nullable_field, u8_nullable_field, Column, DataType, Field, KeyWidth,
};
use trace_columnar::attribute::infer_span_attribute_schema;
use trace_columnar::encode::{infer_span_schema, Table};
use trace_columnar::model::{AttributeValue, Event, KeyValue, Link, Number, Span};
use trace_columnar::schema::{FieldInfo, FieldType};

fn span(name: &str, start: u64) -> Span {
    Span {
        trace_id: "T".to_string(),
        span_id: "S".to_string(),
        trace_state: None,
        parent_span_id: None,
        name: name.to_string(),
        kind: None,
        start_time_unix_nano: start,
        end_time_unix_nano: None,
        attributes: None,
        dropped_attributes_count: None,
        events: None,
        dropped_events_count: None,
        links: None,
        dropped_links_count: None,
    }
}

fn kv(key: &str, value: AttributeValue) -> KeyValue {
    KeyValue { key: key.to_string(), value }
}

fn whole_number(u: u64) -> AttributeValue {
    AttributeValue::Number(Number::PosInt(u), (u as f64).to_bits())
}

fn neg(i: i64) -> AttributeValue {
    AttributeValue::Number(Number::NegInt(i), (i as f64).to_bits())
}

fn float(x: f64) -> AttributeValue {
    AttributeValue::Number(Number::Float, x.to_bits())
}

fn text(s: &str) -> AttributeValue {
    AttributeValue::String(s.to_string())
}

fn event(name: &str, attributes: Vec<KeyValue>) -> Event {
    Event { time_unix_nano: 7, name: name.to_string(), attributes, dropped_attributes_count: None }
}

fn names(t: &Table) -> Vec<String> {
    t.fields.iter().map(|f| f.name.clone()).collect()
}

fn column<'a>(t: &'a Table, name: &str) -> (&'a Field, &'a Column) {
    let i = t.fields.iter().position(|f| f.name == name).expect("column present");
    (&t.fields[i], &t.columns[i])
}

fn rows(c: &Column) -> usize {
    match c {
        Column::UInt8(v) => v.len(),
        Column::UInt32(v) => v.len(),
        Column::UInt64(v) => v.len(),
        Column::Int64(v) => v.len(),
        Column::Float64(v) => v.len(),
        Column::Boolean(v) => v.len(),
        Column::Utf8(v) => v.len(),
        Column::Binary(v) => v.len(),
        Column::Dictionary(_, k, _) => k.len(),
    }
}

fn assert_rectangular(t: &Table, n: usize) {
    assert_eq!(t.fields.len(), t.columns.len());
    for c in &t.columns {
        assert_eq!(rows(c), n);
    }
}

fn both(spans: &[Span]) -> (EncodedBatch, EncodedBatch) {
    (encode_row_oriented(spans), encode_column_oriented(spans))
}

#[test]
fn empty_batch_has_no_columns() {
    let (row, col) = both(&[]);
    for b in [&row, &col] {
        assert!(b.spans.fields.is_empty());
        assert!(b.events.fields.is_empty());
        assert!(b.links.fields.is_empty());
    }
}

#[test]
fn spans_without_children_have_no_id_column() {
    let spans = vec![span("a", 1), span("b", 2)];
    let (row, col) = both(&spans);
    for b in [&row, &col] {
        assert!(!names(&b.spans).contains(&"id".to_string()));
        assert!(b.events.fields.is_empty());
        assert!(b.links.fields.is_empty());
        assert_rectangular(&b.spans, 2);
    }
}

#[test]
fn empty_events_list_beside_a_sibling_with_events() {
    let mut s0 = span("a", 1);
    s0.events = Some(vec![]);
    let mut s1 = span("b", 2);
    s1.events = Some(vec![event("e", vec![])]);
    let (row, col) = both(&[s0, s1]);
    for b in [&row, &col] {
        assert_rectangular(&b.events, 1);
        assert_eq!(column(&b.events, "id").1, &Column::UInt32(vec![Some(1)]));
        assert_eq!(column(&b.spans, "id").1, &Column::UInt32(vec![Some(0), Some(1)]));
    }
}

#[test]
fn null_then_bool_then_integer_is_a_string_column() {
    let values = [AttributeValue::Null, AttributeValue::Bool(true), whole_number(5)];
    let spans: Vec<Span> = values
        .iter()
        .enumerate()
        .map(|(i, v)| {
            let mut s = span("s", i as u64);
            s.attributes = Some(vec![kv("k", v.clone())]);
            s
        })
        .collect();
    let schema = infer_span_attribute_schema(&spans);
    assert_eq!(schema.len(), 1);
    assert_eq!(schema[0].info.field_type, FieldType::String);
    assert_eq!(schema[0].info.non_null_count, 2);
    let row = encode_row_oriented(&spans);
    let (f, c) = column(&row.spans, "attributes_k");
    let inferred = infer_span_schema(&spans, false);
    let predicted = inferred.fields.iter().find(|g| g.name == "attributes_k").unwrap();
    assert_eq!(f.data_type, predicted.data_type);
    assert_eq!(f.data_type, DataType::Dictionary(KeyWidth::U8));
    assert_eq!(c, &Column::Dictionary(KeyWidth::U8, vec![None, None, None], vec![]));
}

#[test]
fn emitted_string_column_follows_the_inferred_schema() {
    let mut spans: Vec<Span> = (0..5)
        .map(|i| {
            let mut s = span("s", i);
            s.attributes = Some(vec![kv("b", AttributeValue::Bool(true))]);
            s
        })
        .collect();
    let mut last = span("s", 5);
    last.attributes = Some(vec![kv("b", text("a"))]);
    spans.push(last);
    let inferred = infer_span_schema(&spans, false);
    let row = encode_row_oriented(&spans);
    assert_eq!(row.spans.fields, inferred.fields);
    let (f, c) = column(&row.spans, "attributes_b");
    assert_eq!(f.data_type, DataType::Dictionary(KeyWidth::U8));
    assert_eq!(c, &Column::Dictionary(KeyWidth::U8, vec![None, None, None, None, None, Some(0)], vec!["a".to_string()]));
}

#[test]
fn signed_then_large_unsigned_keeps_i64_in_either_order() {
    let big = whole_number((1u64 << 63) + 1);
    let minus = neg(-1);
    for order in [[minus.clone(), big.clone()], [big.clone(), minus.clone()]] {
        let spans: Vec<Span> = order
            .iter()
            .enumerate()
            .map(|(i, v)| {
                let mut s = span("s", i as u64);
                s.attributes = Some(vec![kv("x", v.clone())]);
                s
            })
            .collect();
        let schema = infer_span_attribute_schema(&spans);
        assert_eq!(schema[0].info.field_type, FieldType::I64);
        let row = encode_row_oriented(&spans);
        let (_, c) = column(&row.spans, "attributes_x");
        let expected = if matches!(order[0], AttributeValue::Number(Number::NegInt(_), _)) {
            Column::Int64(vec![Some(-1), None])
        } else {
            Column::Int64(vec![None, Some(-1)])
        };
        assert_eq!(c, &expected);
    }
}

#[test]
fn one_distinct_string_over_a_thousand_rows_uses_byte_keys() {
    let spans: Vec<Span> = (0..1000)
        .map(|i| {
            let mut s = span("s", i);
            s.attributes = Some(vec![kv("k", text("same"))]);
            s
        })
        .collect();
    let (row, col) = both(&spans);
    for b in [&row, &col] {
        let (f, c) = column(&b.spans, "attributes_k");
        assert_eq!(f.data_type, DataType::Dictionary(KeyWidth::U8));
        match c {
            Column::Dictionary(KeyWidth::U8, keys, dict) => {
                assert_eq!(dict, &vec!["same".to_string()]);
                assert_eq!(keys.len(), 1000);
                assert!(keys.iter().all(|k| *k == Some(0)));
            }
            other => panic!("not a dictionary: {:?}", other),
        }
    }
}

#[test]
fn seventy_thousand_distinct_strings_stay_plain() {
    let n = 70000;
    let spans: Vec<Span> = (0..n)
        .map(|i| {
            let mut s = span("s", i as u64);
            s.attributes = Some(vec![kv("k", text(&format!("v{}", i)))]);
            s
        })
        .collect();
    let (row, col) = both(&spans);
    for b in [&row, &col] {
        let (f, c) = column(&b.spans, "attributes_k");
        assert_eq!(f.data_type, DataType::Utf8);
        assert_eq!(rows(c), n);
    }
    assert_eq!(key_width(70000), Some(KeyWidth::U32));
}

#[test]
fn key_width_boundaries() {
    assert_eq!(key_width(1), Some(KeyWidth::U8));
    assert_eq!(key_width(256), Some(KeyWidth::U8));
    assert_eq!(key_width(257), Some(KeyWidth::U16));
    assert_eq!(key_width(65536), Some(KeyWidth::U16));
    assert_eq!(key_width(65537), Some(KeyWidth::U32));
    assert_eq!(min_num_bits_to_represent(0), 0);
    assert_eq!(min_num_bits_to_represent(1), 1);
    assert_eq!(min_num_bits_to_represent(255), 8);
    assert_eq!(min_num_bits_to_represent(256), 9);
    assert_eq!(min_num_bits_to_represent(usize::MAX), 64);
}

#[test]
fn unsigned_signed_and_float_promote_to_f64() {
    let values = [whole_number(5), neg(-1), float(0.5)];
    let spans: Vec<Span> = values
        .iter()
        .enumerate()
        .map(|(i, n)| {
            let mut s = span("s", i as u64);
            s.attributes = Some(vec![kv("x", n.clone())]);
            s
        })
        .collect();
    let schema = infer_span_attribute_schema(&spans);
    assert_eq!(schema[0].info.field_type, FieldType::F64);
    let (row, col) = both(&spans);
    let expected = Column::Float64(vec![Some(5f64.to_bits()), Some((-1f64).to_bits()), Some(0.5f64.to_bits())]);
    assert_eq!(column(&row.spans, "attributes_x").1, &expected);
    assert_eq!(column(&col.spans, "attributes_x").1, &expected);
    assert!(!column(&col.spans, "attributes_x").0.nullable);
}

#[test]
fn single_span_without_children() {
    let spans = vec![Span { trace_id: "T".into(), span_id: "S".into(), name: "n".into(), start_time_unix_nano: 1, ..span("n", 1) }];
    let row = encode_row_oriented(&spans);
    assert_eq!(row.spans.fields.len(), 11);
    assert!(!names(&row.spans).contains(&"id".to_string()));
    assert_rectangular(&row.spans, 1);
    assert!(row.events.fields.is_empty());
    assert!(row.links.fields.is_empty());
    assert_eq!(column(&row.spans, "trace_id").1, &Column::Binary(vec![Some("T".to_string())]));
    assert_eq!(column(&row.spans, "start_time_unix_nano").1, &Column::UInt64(vec![Some(1)]));
    let col = encode_column_oriented(&spans);
    assert_eq!(names(&col.spans), vec!["start_time_unix_nano", "trace_id", "span_id", "name"]);
}

#[test]
fn two_spans_one_with_two_events() {
    let mut s0 = span("a", 1);
    s0.events = Some(vec![event("e0", vec![kv("k", text("v"))]), event("e1", vec![kv("k", text("v"))])]);
    let s1 = span("b", 2);
    let (row, col) = both(&[s0, s1]);
    for b in [&row, &col] {
        assert_rectangular(&b.events, 2);
        assert_eq!(column(&b.events, "id").1, &Column::UInt32(vec![Some(0), Some(0)]));
        assert_eq!(column(&b.spans, "id").1, &Column::UInt32(vec![Some(0), Some(1)]));
        let (f, c) = column(&b.events, "attributes_k");
        assert_eq!(f.data_type, DataType::Utf8);
        assert_eq!(c, &Column::Utf8(vec![Some("v".to_string()), Some("v".to_string())]));
    }
}

#[test]
fn mixed_numeric_attribute_is_f64() {
    let values = [whole_number(1), neg(-2), float(0.5)];
    let spans: Vec<Span> = values
        .iter()
        .map(|n| {
            let mut s = span("s", 1);
            s.attributes = Some(vec![kv("x", n.clone())]);
            s
        })
        .collect();
    let row = encode_row_oriented(&spans);
    let (f, c) = column(&row.spans, "attributes_x");
    assert_eq!(f.data_type, DataType::Float64);
    assert_eq!(c, &Column::Float64(vec![Some(1f64.to_bits()), Some((-2f64).to_bits()), Some(0.5f64.to_bits())]));
}

#[test]
fn bool_then_string_is_a_string_column_with_null_for_the_bool() {
    let mut s0 = span("a", 1);
    s0.attributes = Some(vec![kv("b", AttributeValue::Bool(true))]);
    let mut s1 = span("b", 2);
    s1.attributes = Some(vec![kv("b", text("n/a"))]);
    let (row, col) = both(&[s0, s1]);
    for b in [&row, &col] {
        let (f, c) = column(&b.spans, "attributes_b");
        assert_eq!(f.data_type, DataType::Utf8);
        assert!(f.nullable);
        assert_eq!(c, &Column::Utf8(vec![None, Some("n/a".to_string())]));
    }
}

#[test]
fn missing_attribute_is_null() {
    let mut s0 = span("a", 1);
    s0.attributes = Some(vec![kv("k", whole_number(1))]);
    let mut s1 = span("b", 2);
    s1.attributes = Some(vec![]);
    let (row, col) = both(&[s0, s1]);
    for b in [&row, &col] {
        let (f, c) = column(&b.spans, "attributes_k");
        assert!(f.nullable);
        assert_eq!(f.data_type, DataType::UInt64);
        assert_eq!(c, &Column::UInt64(vec![Some(1), None]));
    }
}

#[test]
fn unique_names_stay_plain_and_repeated_names_use_a_dictionary() {
    let unique: Vec<Span> = (0..1000).map(|i| span(&format!("n{}", i), i)).collect();
    let col = encode_column_oriented(&unique);
    assert_eq!(column(&col.spans, "name").0.data_type, DataType::Utf8);
    let repeated: Vec<Span> = (0..1000).map(|i| span(&format!("n{}", i % 3), i)).collect();
    let col = encode_column_oriented(&repeated);
    let (f, c) = column(&col.spans, "name");
    assert_eq!(f.data_type, DataType::Dictionary(KeyWidth::U8));
    match c {
        Column::Dictionary(_, keys, dict) => {
            assert_eq!(dict.len(), 3);
            assert_eq!(keys[0], keys[3]);
            assert_eq!(dict[keys[4].unwrap()], "n1");
        }
        other => panic!("not a dictionary: {:?}", other),
    }
}

#[test]
fn links_carry_parent_index_and_binary_ids() {
    let mut s0 = span("a", 1);
    s0.links = Some(vec![Link {
        trace_id: "t1".into(),
        span_id: "s1".into(),
        trace_state: None,
        attributes: vec![kv("w", AttributeValue::Bool(false))],
        dropped_attributes_count: Some(3),
    }]);
    let (row, col) = both(&[span("z", 0), s0]);
    for b in [&row, &col] {
        assert_eq!(column(&b.links, "id").1, &Column::UInt32(vec![Some(1)]));
        assert_eq!(column(&b.links, "trace_id").0.data_type, DataType::Binary);
        assert_eq!(column(&b.links, "attributes_w").1, &Column::Boolean(vec![Some(false)]));
        assert_eq!(column(&b.links, "dropped_attributes_count").1, &Column::UInt32(vec![Some(3)]));
        assert!(names(&b.spans).contains(&"id".to_string()));
    }
}

#[test]
fn empty_required_field_is_left_out() {
    let mut fields = vec![];
    let mut columns = vec![];
    u64_non_nullable_field("t", &[], &mut fields, &mut columns);
    u32_non_nullable_field("i", &[], &mut fields, &mut columns);
    string_non_nullable_field("s", &[], &mut fields, &mut columns);
    assert!(fields.is_empty());
    assert!(columns.is_empty());
}

#[test]
fn all_null_field_is_left_out_without_touching_others() {
    let mut fields = vec![];
    let mut columns = vec![];
    u64_non_nullable_field("t", &[1, 2], &mut fields, &mut columns);
    u64_nullable_field("e", &[None, None], &mut fields, &mut columns);
    string_nullable_field("s", &[None, None], &mut fields, &mut columns);
    u64_nullable_field("f", &[None, Some(4)], &mut fields, &mut columns);
    assert_eq!(fields.len(), 2);
    assert_eq!(fields[0], Field { name: "t".into(), data_type: DataType::UInt64, nullable: false });
    assert_eq!(fields[1], Field { name: "f".into(), data_type: DataType::UInt64, nullable: true });
    assert_eq!(columns[0], Column::UInt64(vec![Some(1), Some(2)]));
    assert_eq!(columns[1], Column::UInt64(vec![None, Some(4)]));
}

#[test]
fn nullable_string_dictionary_keeps_nulls() {
    let mut data: Vec<Option<String>> = vec![];
    for i in 0..12 {
        data.push(if i % 4 == 0 { None } else { Some("x".to_string()) });
    }
    let mut fields = vec![];
    let mut columns = vec![];
    string_nullable_field("s", &data, &mut fields, &mut columns);
    assert_eq!(fields[0].data_type, DataType::Dictionary(KeyWidth::U8));
    assert!(fields[0].nullable);
    match &columns[0] {
        Column::Dictionary(_, keys, dict) => {
            assert_eq!(dict, &vec!["x".to_string()]);
            assert_eq!(keys[0], None);
            assert_eq!(keys[1], Some(0));
        }
        other => panic!("not a dictionary: {:?}", other),
    }
}

#[test]
fn dictionary_decision_counts_distinct_values() {
    let few = FieldInfo { non_null_count: 6, field_type: FieldType::String, dictionary_values: vec!["a".to_string(); 6] };
    assert!(few.is_dictionary());
    let many = FieldInfo {
        non_null_count: 6,
        field_type: FieldType::String,
        dictionary_values: (0..6).map(|i| i.to_string()).collect(),
    };
    assert!(!many.is_dictionary());
    let none = FieldInfo { non_null_count: 0, field_type: FieldType::String, dictionary_values: vec![] };
    assert!(!none.is_dictionary());
}

#[test]
fn inferred_schema_lists_fixed_then_attribute_fields() {
    let mut s0 = span("a", 1);
    s0.attributes = Some(vec![kv("k", text("v")), kv("n", AttributeValue::Null), kv("o", AttributeValue::Object)]);
    let schema = infer_span_schema(&[s0], true);
    let got: Vec<String> = schema.fields.iter().map(|f| f.name.clone()).collect();
    assert_eq!(got.len(), 13);
    assert_eq!(got[11], "id");
    assert_eq!(got[12], "attributes_k");
    assert_eq!(schema.attribute_fields.len(), 1);
}

#[test]
fn statistics_count_distinct_values_nulls_and_validity() {
    let mut s0 = span("a", 1);
    s0.attributes = Some(vec![kv("x", whole_number(3))]);
    let mut s1 = span("a", 2);
    s1.attributes = Some(vec![kv("x", whole_number(3))]);
    let mut s2 = span("b", 3);
    s2.end_time_unix_nano = Some(9);
    let batch = encode_row_oriented(&[s0, s1, s2]);
    let mut stats = ColumnsStatistics::new(true);
    stats.report(&batch.spans);
    assert_eq!(stats.columns.len(), batch.spans.fields.len());
    let x = stats.columns.iter().find(|c| c.name == "attributes_x").unwrap();
    assert_eq!(x.column_type, ColumnType::U64);
    assert_eq!(x.total_values, 3);
    assert_eq!(x.cardinality, 1);
    assert_eq!(x.missing_values, 1);
    assert_eq!(x.validity_map, vec![true, true, false]);
    let name = stats.columns.iter().find(|c| c.name == "name").unwrap();
    assert_eq!(name.cardinality, 2);
    assert_eq!(name.column_type, ColumnType::String);
    let trace = stats.columns.iter().find(|c| c.name == "trace_id").unwrap();
    assert_eq!(trace.column_type, ColumnType::Binary);
    let mut off = ColumnsStatistics::new(false);
    off.report(&batch.spans);
    assert!(off.columns.is_empty());
}

#[test]
fn nullable_helpers_mark_nullability_by_content() {
    let mut fields = vec![];
    let mut columns = vec![];
    i64_nullable_field("i", &[Some(-3), Some(4)], &mut fields, &mut columns);
    bool_nullable_field("b", &[None, Some(true)], &mut fields, &mut columns);
    f64_nullable_field("f", &[Some(1.5f64.to_bits())], &mut fields, &mut columns);
    u8_nullable_field("k", &[Some(2), None], &mut fields, &mut columns);
    u32_nullable_field("d", &[None], &mut fields, &mut columns);
    binary_nullable_field("p", &[Some("x".to_string()), None], &mut fields, &mut columns);
    binary_non_nullable_field("t", &["y".to_string()], &mut fields, &mut columns);
    let got: Vec<(String, DataType, bool)> = fields.iter().map(|f| (f.name.clone(), f.data_type, f.nullable)).collect();
    assert_eq!(
        got,
        vec![
            ("i".to_string(), DataType::Int64, false),
            ("b".to_string(), DataType::Boolean, true),
            ("f".to_string(), DataType::Float64, false),
            ("k".to_string(), DataType::UInt8, true),
            ("p".to_string(), DataType::Binary, true),
            ("t".to_string(), DataType::Binary, false),
        ]
    );
    assert_eq!(columns[0], Column::Int64(vec![Some(-3), Some(4)]));
    assert_eq!(columns[1], Column::Boolean(vec![None, Some(true)]));
    assert_eq!(columns[4], Column::Binary(vec![Some("x".to_string()), None]));
    assert_eq!(columns[5], Column::Binary(vec![Some("y".to_string())]));
}

#[test]
fn attribute_column_names_are_unique_per_table() {
    let mut s0 = span("a", 1);
    s0.attributes = Some(vec![kv("name", text("x")), kv("id", AttributeValue::Bool(true))]);
    s0.events = Some(vec![event("e", vec![kv("name", text("y"))])]);
    let mut s1 = span("b", 2);
    s1.attributes = Some(vec![kv("id", AttributeValue::Bool(false)), kv("z", AttributeValue::Array)]);
    let (row, col) = both(&[s0, s1]);
    for b in [&row, &col] {
        for t in [&b.spans, &b.events, &b.links] {
            let mut n = names(t);
            let before = n.len();
            n.sort();
            n.dedup();
            assert_eq!(n.len(), before);
        }
        assert!(names(&b.spans).contains(&"attributes_name".to_string()));
        assert!(names(&b.spans).contains(&"attributes_id".to_string()));
        assert!(!names(&b.spans).contains(&"attributes_z".to_string()));
        assert!(names(&b.events).contains(&"attributes_name".to_string()));
    }
}

#[test]
fn dictionary_keys_index_every_entry() {
    let spans: Vec<Span> = (0..2000)
        .map(|i| {
            let mut s = span("s", i);
            s.attributes = Some(vec![kv("k", text(&format!("v{}", i % 300)))]);
            s
        })
        .collect();
    let row = encode_row_oriented(&spans);
    match column(&row.spans, "attributes_k").1 {
        Column::Dictionary(w, keys, dict) => {
            assert_eq!(*w, KeyWidth::U16);
            assert_eq!(dict.len(), 300);
            assert!(keys.iter().all(|k| k.map_or(false, |i| i < dict.len())));
            assert_eq!(dict[keys[301].unwrap()], "v1");
        }
        other => panic!("not a dictionary: {:?}", other),
    }
}

#[test]
fn row_and_column_paths_agree_on_children() {
    let mut s0 = span("a", 1);
    s0.events = Some(vec![event("e0", vec![kv("n", neg(-4))])]);
    s0.links = Some(vec![Link { trace_id: "t".into(), span_id: "s".into(), trace_state: Some("st".into()), attributes: vec![], dropped_attributes_count: None }]);
    let mut s1 = span("b", 2);
    s1.events = Some(vec![event("e1", vec![]), event("e2", vec![kv("n", whole_number(8))])]);
    let (row, col) = both(&[s0, s1]);
    assert_eq!(column(&row.events, "id").1, &Column::UInt32(vec![Some(0), Some(1), Some(1)]));
    assert_eq!(column(&row.events, "id").1, column(&col.events, "id").1);
    assert_eq!(column(&row.events, "attributes_n").1, &Column::Int64(vec![Some(-4), None, Some(8)]));
    assert_eq!(column(&row.events, "attributes_n").1, column(&col.events, "attributes_n").1);
    assert_eq!(column(&row.links, "trace_state").1, &Column::Utf8(vec![Some("st".to_string())]));
    assert_rectangular(&row.events, 3);
    assert_rectangular(&col.events, 3);
    assert_rectangular(&row.links, 1);
}

#[test]
fn statistics_of_dictionary_and_float_columns() {
    let mut spans = vec![];
    for i in 0..10 {
        let mut s = span("s", i);
        let x = if i % 2 == 0 { float(0.25) } else { neg(-1) };
        s.attributes = Some(vec![kv("x", x), kv("d", text("same"))]);
        spans.push(s);
    }
    let batch = encode_row_oriented(&spans);
    let mut stats = ColumnsStatistics::new(true);
    stats.report(&batch.spans);
    let x = stats.columns.iter().find(|c| c.name == "attributes_x").unwrap();
    assert_eq!(x.column_type, ColumnType::F64);
    assert_eq!(x.cardinality, 2);
    assert_eq!(x.missing_values, 0);
    let mut whole = span("s", 0);
    whole.attributes = Some(vec![kv("y", whole_number(1))]);
    let mut fraction = span("s", 1);
    fraction.attributes = Some(vec![kv("y", float(1.0))]);
    let both_ones = encode_row_oriented(&[whole, fraction]);
    let mut ones = ColumnsStatistics::new(true);
    ones.report(&both_ones.spans);
    let y = ones.columns.iter().find(|c| c.name == "attributes_y").unwrap();
    assert_eq!(y.column_type, ColumnType::F64);
    assert_eq!(y.cardinality, 1);
    let d = stats.columns.iter().find(|c| c.name == "attributes_d").unwrap();
    assert!(d.dictionary);
    assert_eq!(d.cardinality, 1);
    assert_eq!(d.total_values, 10);
    assert_eq!(d.validity_map, vec![true; 10]);
}
