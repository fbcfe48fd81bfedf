//! The pivot from rows to columns: one vector per fixed field of each table,
//! and one typed vector per inferred attribute key, every vector holding one
//! entry per row of its table.
use vstd::prelude::*;
use crate::model::{Attributes, AttributeValue, Event, KeyValue, Link, Number, Span, events_of, links_of};
use crate::schema::{FieldType, i64_max};
use crate::attribute::{AttributeField, SchemaModel, schema_model, apply_all, lemma_string_recorded, lemma_apply_all_invariants, event_list_kvs, link_list_kvs, span_kvs, event_kvs, link_kvs, infer_span_attribute_schema, infer_event_attribute_schema, infer_link_attribute_schema};
use crate::column::{opt_view, opt_views};

verus! {

/// The value at key `k` of an attribute map: that of the first pair with that key.
pub open spec fn lookup(attrs: Seq<KeyValue>, k: Seq<char>) -> Option<AttributeValue>
    decreases attrs.len(),
{
    if attrs.len() == 0 {
        None
    } else if attrs[0].key@ == k {
        Some(attrs[0].value)
    } else {
        lookup(attrs.drop_first(), k)
    }
}

/// The pairs of a row's attribute map; a row without a map has none.
pub open spec fn map_of(o: Option<&Attributes>) -> Seq<KeyValue> {
    match o {
        Some(a) => a@,
        None => Seq::empty(),
    }
}

/// The cell of a U64 column: unsigned integers only.
pub open spec fn u64_cell(v: Option<AttributeValue>) -> Option<u64> {
    match v {
        Some(AttributeValue::Number(Number::PosInt(u), _)) => Some(u),
        _ => None,
    }
}

/// The cell of an I64 column: integers that fit in 64 signed bits.
pub open spec fn i64_cell(v: Option<AttributeValue>) -> Option<i64> {
    match v {
        Some(AttributeValue::Number(Number::PosInt(u), _)) => if u <= i64_max() {
            Some(u as i64)
        } else {
            None
        },
        Some(AttributeValue::Number(Number::NegInt(i), _)) => Some(i),
        _ => None,
    }
}

/// The cell of an F64 column: any number, as the bits of its float value.
pub open spec fn f64_cell(v: Option<AttributeValue>) -> Option<u64> {
    match v {
        Some(AttributeValue::Number(_, bits)) => Some(bits),
        _ => None,
    }
}

/// The cell of a Bool column: booleans only.
pub open spec fn bool_cell(v: Option<AttributeValue>) -> Option<bool> {
    match v {
        Some(AttributeValue::Bool(b)) => Some(b),
        _ => None,
    }
}

/// The cell of a String column: strings only; values of other types are null.
pub open spec fn string_cell(v: Option<AttributeValue>) -> Option<Seq<char>> {
    match v {
        Some(AttributeValue::String(s)) => Some(s@),
        _ => None,
    }
}

/// The values of one attribute column, `missing` of which are null.
#[derive(Debug)]
#[allow(inconsistent_fields)]
pub enum DataColumn {
    U64Column { missing: usize, values: Vec<Option<u64>> },
    I64Column { missing: usize, values: Vec<Option<i64>> },
    F64Column { missing: usize, values: Vec<Option<u64>> },
    StringColumn { missing: usize, values: Vec<Option<String>> },
    BoolColumn { missing: usize, values: Vec<Option<bool>> },
}

pub enum DataColumnModel {
    U64(Seq<Option<u64>>),
    I64(Seq<Option<i64>>),
    F64(Seq<Option<u64>>),
    Str(Seq<Option<Seq<char>>>),
    Bool(Seq<Option<bool>>),
}

/// Number of nulls in a sequence.
pub open spec fn null_count<T>(v: Seq<Option<T>>) -> nat
    decreases v.len(),
{
    if v.len() == 0 {
        0
    } else {
        null_count(v.drop_last()) + if v.last() is None {
            1nat
        } else {
            0nat
        }
    }
}

impl DataColumn {
    pub open spec fn model(&self) -> DataColumnModel {
        match self {
            DataColumn::U64Column { values, .. } => DataColumnModel::U64(values@),
            DataColumn::I64Column { values, .. } => DataColumnModel::I64(values@),
            DataColumn::F64Column { values, .. } => DataColumnModel::F64(values@),
            DataColumn::StringColumn { values, .. } => DataColumnModel::Str(opt_views(values@)),
            DataColumn::BoolColumn { values, .. } => DataColumnModel::Bool(values@),
        }
    }

    /// `missing` counts the nulls.
    pub open spec fn wf(&self) -> bool {
        match self {
            DataColumn::U64Column { missing, values } => *missing == null_count(values@),
            DataColumn::I64Column { missing, values } => *missing == null_count(values@),
            DataColumn::F64Column { missing, values } => *missing == null_count(values@),
            DataColumn::StringColumn { missing, values } => *missing == null_count(values@),
            DataColumn::BoolColumn { missing, values } => *missing == null_count(values@),
        }
    }
}

/// The attribute column of key `k` and type `t` over rows with maps `maps`.
pub open spec fn attribute_column_model(
    maps: Seq<Seq<KeyValue>>,
    k: Seq<char>,
    t: FieldType,
) -> DataColumnModel {
    match t {
        FieldType::U64 => DataColumnModel::U64(
            maps.map_values(|m: Seq<KeyValue>| u64_cell(lookup(m, k))),
        ),
        FieldType::I64 => DataColumnModel::I64(
            maps.map_values(|m: Seq<KeyValue>| i64_cell(lookup(m, k))),
        ),
        FieldType::F64 => DataColumnModel::F64(
            maps.map_values(|m: Seq<KeyValue>| f64_cell(lookup(m, k))),
        ),
        FieldType::String => DataColumnModel::Str(
            maps.map_values(|m: Seq<KeyValue>| string_cell(lookup(m, k))),
        ),
        FieldType::Bool => DataColumnModel::Bool(
            maps.map_values(|m: Seq<KeyValue>| bool_cell(lookup(m, k))),
        ),
    }
}

/// An attribute column with the name of its key.
#[derive(Debug)]
pub struct AttributeColumn {
    pub name: String,
    pub column: DataColumn,
}

/// The attribute columns of a schema over rows with maps `maps`, in schema order.
pub open spec fn attribute_columns_match(
    cols: Seq<AttributeColumn>,
    schema: SchemaModel,
    maps: Seq<Seq<KeyValue>>,
) -> bool {
    &&& cols.len() == schema.len()
    &&& forall|j: int|
        0 <= j < cols.len() ==> {
            &&& (#[trigger] cols[j]).name@ == schema[j].0
            &&& cols[j].column.wf()
            &&& cols[j].column.model() == attribute_column_model(maps, schema[j].0, schema[j].1.ty)
        }
}

/// Finds the first pair with key `key`.
fn find_key(attrs: &Attributes, key: &String) -> (r: Option<usize>)
    ensures
        match r {
            Some(i) => i < attrs@.len() && lookup(attrs@, key@) == Some(attrs@[i as int].value),
            None => lookup(attrs@, key@) is None,
        },
{
    let n = attrs.len();
    let mut i: usize = 0;
    assert(attrs@.skip(0) =~= attrs@);
    while i < n
        invariant
            n == attrs@.len(),
            i <= n,
            lookup(attrs@, key@) == lookup(attrs@.skip(i as int), key@),
        decreases n - i,
    {
        if attrs[i].key == *key {
            assert(attrs@.skip(i as int)[0] == attrs@[i as int]);
            return Some(i);
        }
        assert(attrs@.skip(i as int).drop_first() =~= attrs@.skip(i + 1));
        i += 1;
    }
    None
}

/// The value at `key` in a row's map.
fn row_value<'a>(row: Option<&'a Attributes>, key: &String) -> (r: Option<&'a AttributeValue>)
    ensures
        match r {
            Some(v) => lookup(map_of(row), key@) == Some(*v),
            None => lookup(map_of(row), key@) is None,
        },
{
    match row {
        None => None,
        Some(attrs) => {
            match find_key(attrs, key) {
                Some(i) => Some(&attrs[i].value),
                None => None,
            }
        },
    }
}

/// Builds the attribute column of key `key` and type `t`.
fn attribute_column(maps: &[Option<&Attributes>], key: &String, t: FieldType) -> (r: DataColumn)
    ensures
        r.wf(),
        r.model() == attribute_column_model(
            maps@.map_values(|o: Option<&Attributes>| map_of(o)),
            key@,
            t,
        ),
{
    let ghost ms = maps@.map_values(|o: Option<&Attributes>| map_of(o));
    let n = maps.len();
    let mut missing: usize = 0;
    match t {
        FieldType::U64 => {
            let mut values: Vec<Option<u64>> = Vec::new();
            let mut i: usize = 0;
            while i < n
                invariant
                    n == maps@.len(),
                    i <= n,
                    values@.len() == i,
                    missing == null_count(values@),
                    missing <= i,
                    forall|j: int| 0 <= j < i ==> #[trigger] values@[j] == u64_cell(lookup(ms[j], key@)),
                    ms == maps@.map_values(|o: Option<&Attributes>| map_of(o)),
                decreases n - i,
            {
                let v = row_value(maps[i], key);
                let c = match v {
                    Some(AttributeValue::Number(Number::PosInt(u), _)) => Some(*u),
                    _ => None,
                };
                if c.is_none() {
                    missing += 1;
                }
                let ghost before = values@;
                values.push(c);
                assert(values@.drop_last() == before);
                i += 1;
            }
            assert(values@ =~= ms.map_values(|m: Seq<KeyValue>| u64_cell(lookup(m, key@))));
            DataColumn::U64Column { missing, values }
        },
        FieldType::I64 => {
            let mut values: Vec<Option<i64>> = Vec::new();
            let mut i: usize = 0;
            while i < n
                invariant
                    n == maps@.len(),
                    i <= n,
                    values@.len() == i,
                    missing == null_count(values@),
                    missing <= i,
                    forall|j: int| 0 <= j < i ==> #[trigger] values@[j] == i64_cell(lookup(ms[j], key@)),
                    ms == maps@.map_values(|o: Option<&Attributes>| map_of(o)),
                decreases n - i,
            {
                let v = row_value(maps[i], key);
                let c = match v {
                    Some(AttributeValue::Number(Number::PosInt(u), _)) => if *u <= 0x7fff_ffff_ffff_ffffu64 {
                        Some(*u as i64)
                    } else {
                        None
                    },
                    Some(AttributeValue::Number(Number::NegInt(x), _)) => Some(*x),
                    _ => None,
                };
                if c.is_none() {
                    missing += 1;
                }
                let ghost before = values@;
                values.push(c);
                assert(values@.drop_last() == before);
                i += 1;
            }
            assert(values@ =~= ms.map_values(|m: Seq<KeyValue>| i64_cell(lookup(m, key@))));
            DataColumn::I64Column { missing, values }
        },
        FieldType::F64 => {
            let mut values: Vec<Option<u64>> = Vec::new();
            let mut i: usize = 0;
            while i < n
                invariant
                    n == maps@.len(),
                    i <= n,
                    values@.len() == i,
                    missing == null_count(values@),
                    missing <= i,
                    forall|j: int| 0 <= j < i ==> #[trigger] values@[j] == f64_cell(lookup(ms[j], key@)),
                    ms == maps@.map_values(|o: Option<&Attributes>| map_of(o)),
                decreases n - i,
            {
                let v = row_value(maps[i], key);
                let c = match v {
                    Some(AttributeValue::Number(_, bits)) => Some(*bits),
                    _ => None,
                };
                if c.is_none() {
                    missing += 1;
                }
                let ghost before = values@;
                values.push(c);
                assert(values@.drop_last() == before);
                i += 1;
            }
            assert(values@ =~= ms.map_values(|m: Seq<KeyValue>| f64_cell(lookup(m, key@))));
            DataColumn::F64Column { missing, values }
        },
        FieldType::String => {
            let mut values: Vec<Option<String>> = Vec::new();
            let mut i: usize = 0;
            while i < n
                invariant
                    n == maps@.len(),
                    i <= n,
                    values@.len() == i,
                    missing == null_count(values@),
                    missing <= i,
                    forall|j: int| 0 <= j < i ==> opt_view(#[trigger] values@[j]) == string_cell(lookup(ms[j], key@)),
                    ms == maps@.map_values(|o: Option<&Attributes>| map_of(o)),
                decreases n - i,
            {
                let v = row_value(maps[i], key);
                let c = match v {
                    Some(AttributeValue::String(s)) => Some(s.clone()),
                    _ => None,
                };
                if c.is_none() {
                    missing += 1;
                }
                let ghost before = values@;
                values.push(c);
                assert(values@.drop_last() == before);
                i += 1;
            }
            assert(opt_views(values@) =~= ms.map_values(|m: Seq<KeyValue>| string_cell(lookup(m, key@))));
            DataColumn::StringColumn { missing, values }
        },
        FieldType::Bool => {
            let mut values: Vec<Option<bool>> = Vec::new();
            let mut i: usize = 0;
            while i < n
                invariant
                    n == maps@.len(),
                    i <= n,
                    values@.len() == i,
                    missing == null_count(values@),
                    missing <= i,
                    forall|j: int| 0 <= j < i ==> #[trigger] values@[j] == bool_cell(lookup(ms[j], key@)),
                    ms == maps@.map_values(|o: Option<&Attributes>| map_of(o)),
                decreases n - i,
            {
                let v = row_value(maps[i], key);
                let c = match v {
                    Some(AttributeValue::Bool(b)) => Some(*b),
                    _ => None,
                };
                if c.is_none() {
                    missing += 1;
                }
                let ghost before = values@;
                values.push(c);
                assert(values@.drop_last() == before);
                i += 1;
            }
            assert(values@ =~= ms.map_values(|m: Seq<KeyValue>| bool_cell(lookup(m, key@))));
            DataColumn::BoolColumn { missing, values }
        },
    }
}

/// Builds one attribute column per inferred key, in schema order.
pub fn build_attribute_columns(maps: &[Option<&Attributes>], schema: &[AttributeField]) -> (r: Vec<AttributeColumn>)
    ensures
        attribute_columns_match(r@, schema_model(schema@), maps@.map_values(|o: Option<&Attributes>| map_of(o))),
{
    let ghost ms = maps@.map_values(|o: Option<&Attributes>| map_of(o));
    let mut r: Vec<AttributeColumn> = Vec::new();
    let n = schema.len();
    let mut j: usize = 0;
    while j < n
        invariant
            n == schema@.len(),
            j <= n,
            r@.len() == j,
            attribute_columns_match(r@, schema_model(schema@).take(j as int), ms),
            ms == maps@.map_values(|o: Option<&Attributes>| map_of(o)),
        decreases n - j,
    {
        let column = attribute_column(maps, &schema[j].name, schema[j].info.field_type);
        let ghost before = r@;
        r.push(AttributeColumn { name: schema[j].name.clone(), column });
        let ghost sm = schema_model(schema@);
        assert(attribute_columns_match(r@, sm.take(j + 1), ms)) by {
            assert forall|q: int| 0 <= q < r@.len() implies {
                &&& (#[trigger] r@[q]).name@ == sm.take(j + 1)[q].0
                &&& r@[q].column.wf()
                &&& r@[q].column.model() == attribute_column_model(
                    ms,
                    sm.take(j + 1)[q].0,
                    sm.take(j + 1)[q].1.ty,
                )
            } by {
                if q < j {
                    assert(r@[q] == before[q]);
                    assert(sm.take(j + 1)[q] == sm.take(j as int)[q]);
                }
            }
        }
        j += 1;
    }
    assert(schema_model(schema@).take(n as int) =~= schema_model(schema@));
    r
}

/// The attribute pairs of a span; a span without a map has none.
pub open spec fn span_map(s: Span) -> Seq<KeyValue> {
    match s.attributes {
        Some(a) => a@,
        None => Seq::empty(),
    }
}

/// The `kind` column value: the low byte of the kind (kinds run from 0 to 5).
pub open spec fn kind_cell(k: Option<i32>) -> Option<u8> {
    match k {
        Some(x) => Some(x as u8),
        None => None,
    }
}

/// The event rows of a batch with the index of their parent span: grouped by
/// parent in span order, and in list order within a parent.
pub open spec fn event_rows(spans: Seq<Span>) -> Seq<(int, Event)>
    decreases spans.len(),
{
    if spans.len() == 0 {
        Seq::empty()
    } else {
        event_rows(spans.drop_last()) + events_of(spans.last()).map_values(
            |e: Event| ((spans.len() - 1) as int, e),
        )
    }
}

/// The link rows of a batch with the index of their parent span.
pub open spec fn link_rows(spans: Seq<Span>) -> Seq<(int, Link)>
    decreases spans.len(),
{
    if spans.len() == 0 {
        Seq::empty()
    } else {
        link_rows(spans.drop_last()) + links_of(spans.last()).map_values(
            |l: Link| ((spans.len() - 1) as int, l),
        )
    }
}

/// The spans table, one vector per field.
#[derive(Debug)]
pub struct SpanDataColumns {
    pub trace_id_column: Vec<String>,
    pub span_id_column: Vec<String>,
    pub trace_state_column: Vec<Option<String>>,
    pub parent_span_id_column: Vec<Option<String>>,
    pub name_column: Vec<String>,
    pub kind_column: Vec<Option<u8>>,
    pub start_time_unix_nano_column: Vec<u64>,
    pub end_time_unix_nano_column: Vec<Option<u64>>,
    pub attributes_column: Vec<AttributeColumn>,
    pub dropped_attrs_count_column: Vec<Option<u32>>,
    pub dropped_events_count_column: Vec<Option<u32>>,
    pub dropped_links_count_column: Vec<Option<u32>>,
}

/// The events table, one vector per field.
#[derive(Debug)]
pub struct EventDataColumns {
    pub id_column: Vec<u32>,
    pub time_unix_nano_column: Vec<u64>,
    pub name_column: Vec<String>,
    pub attributes_column: Vec<AttributeColumn>,
    pub dropped_attributes_count_column: Vec<Option<u32>>,
}

/// The links table, one vector per field.
#[derive(Debug)]
pub struct LinkDataColumns {
    pub id_column: Vec<u32>,
    pub trace_id_column: Vec<String>,
    pub span_id_column: Vec<String>,
    pub trace_state_column: Vec<Option<String>>,
    pub attributes_column: Vec<AttributeColumn>,
    pub dropped_attributes_count_column: Vec<Option<u32>>,
}

/// The three tables of a batch, pivoted.
#[derive(Debug)]
pub struct DataColumns {
    pub spans: SpanDataColumns,
    pub events: EventDataColumns,
    pub links: LinkDataColumns,
}

impl SpanDataColumns {
    /// Row `r` of every vector holds the fields of `spans[r]`.
    pub open spec fn matches(&self, spans: Seq<Span>) -> bool {
        let n = spans.len();
        &&& self.trace_id_column@.len() == n
        &&& self.span_id_column@.len() == n
        &&& self.trace_state_column@.len() == n
        &&& self.parent_span_id_column@.len() == n
        &&& self.name_column@.len() == n
        &&& self.kind_column@.len() == n
        &&& self.start_time_unix_nano_column@.len() == n
        &&& self.end_time_unix_nano_column@.len() == n
        &&& self.dropped_attrs_count_column@.len() == n
        &&& self.dropped_events_count_column@.len() == n
        &&& self.dropped_links_count_column@.len() == n
        &&& forall|r: int|
            #![trigger self.trace_id_column@[r]]
            #![trigger self.span_id_column@[r]]
            #![trigger self.trace_state_column@[r]]
            #![trigger self.parent_span_id_column@[r]]
            #![trigger self.name_column@[r]]
            #![trigger self.kind_column@[r]]
            #![trigger self.start_time_unix_nano_column@[r]]
            #![trigger self.end_time_unix_nano_column@[r]]
            #![trigger self.dropped_attrs_count_column@[r]]
            #![trigger self.dropped_events_count_column@[r]]
            #![trigger self.dropped_links_count_column@[r]]
            0 <= r < n ==> {
                &&& self.trace_id_column@[r]@ == spans[r].trace_id@
                &&& self.span_id_column@[r]@ == spans[r].span_id@
                &&& opt_view(self.trace_state_column@[r]) == opt_view(spans[r].trace_state)
                &&& opt_view(self.parent_span_id_column@[r]) == opt_view(spans[r].parent_span_id)
                &&& self.name_column@[r]@ == spans[r].name@
                &&& self.kind_column@[r] == kind_cell(spans[r].kind)
                &&& self.start_time_unix_nano_column@[r] == spans[r].start_time_unix_nano
                &&& self.end_time_unix_nano_column@[r] == spans[r].end_time_unix_nano
                &&& self.dropped_attrs_count_column@[r] == spans[r].dropped_attributes_count
                &&& self.dropped_events_count_column@[r] == spans[r].dropped_events_count
                &&& self.dropped_links_count_column@[r] == spans[r].dropped_links_count
            }
    }
}

impl EventDataColumns {
    /// Row `r` of every vector holds the fields of event row `rows[r]`, its
    /// `id` the index of its parent span.
    pub open spec fn matches(&self, rows: Seq<(int, Event)>) -> bool {
        let n = rows.len();
        &&& self.id_column@.len() == n
        &&& self.time_unix_nano_column@.len() == n
        &&& self.name_column@.len() == n
        &&& self.dropped_attributes_count_column@.len() == n
        &&& forall|r: int|
            #![trigger self.id_column@[r]]
            #![trigger self.time_unix_nano_column@[r]]
            #![trigger self.name_column@[r]]
            #![trigger self.dropped_attributes_count_column@[r]]
            0 <= r < n ==> {
                &&& self.id_column@[r] as int == rows[r].0
                &&& self.time_unix_nano_column@[r] == rows[r].1.time_unix_nano
                &&& self.name_column@[r]@ == rows[r].1.name@
                &&& self.dropped_attributes_count_column@[r] == rows[r].1.dropped_attributes_count
            }
    }
}

impl LinkDataColumns {
    /// Row `r` of every vector holds the fields of link row `rows[r]`, its
    /// `id` the index of its parent span.
    pub open spec fn matches(&self, rows: Seq<(int, Link)>) -> bool {
        let n = rows.len();
        &&& self.id_column@.len() == n
        &&& self.trace_id_column@.len() == n
        &&& self.span_id_column@.len() == n
        &&& self.trace_state_column@.len() == n
        &&& self.dropped_attributes_count_column@.len() == n
        &&& forall|r: int|
            #![trigger self.id_column@[r]]
            #![trigger self.trace_id_column@[r]]
            #![trigger self.span_id_column@[r]]
            #![trigger self.trace_state_column@[r]]
            #![trigger self.dropped_attributes_count_column@[r]]
            0 <= r < n ==> {
                &&& self.id_column@[r] as int == rows[r].0
                &&& self.trace_id_column@[r]@ == rows[r].1.trace_id@
                &&& self.span_id_column@[r]@ == rows[r].1.span_id@
                &&& opt_view(self.trace_state_column@[r]) == opt_view(rows[r].1.trace_state)
                &&& self.dropped_attributes_count_column@[r] == rows[r].1.dropped_attributes_count
            }
    }
}

/// What a batch must fit for the encoder's counters and 32-bit row ids.
pub open spec fn batch_fits(spans: Seq<Span>) -> bool {
    &&& spans.len() <= 0x1_0000_0000
    &&& span_kvs(spans).len() <= usize::MAX
    &&& event_kvs(spans).len() <= usize::MAX
    &&& link_kvs(spans).len() <= usize::MAX
    &&& crate::model::event_count(spans) <= usize::MAX
    &&& crate::model::link_count(spans) <= usize::MAX
}

fn copy_option_string(o: &Option<String>) -> (r: Option<String>)
    ensures
        opt_view(r) == opt_view(*o),
{
    match o {
        Some(s) => Some(s.clone()),
        None => None,
    }
}

/// Pivots the spans' own fields and attribute maps.
pub(crate) fn pivot_spans(spans: &[Span], schema: &[AttributeField]) -> (r: SpanDataColumns)
    ensures
        r.matches(spans@),
        attribute_columns_match(
            r.attributes_column@,
            schema_model(schema@),
            spans@.map_values(|s: Span| span_map(s)),
        ),
{
    let mut c = SpanDataColumns {
        trace_id_column: Vec::new(),
        span_id_column: Vec::new(),
        trace_state_column: Vec::new(),
        parent_span_id_column: Vec::new(),
        name_column: Vec::new(),
        kind_column: Vec::new(),
        start_time_unix_nano_column: Vec::new(),
        end_time_unix_nano_column: Vec::new(),
        attributes_column: Vec::new(),
        dropped_attrs_count_column: Vec::new(),
        dropped_events_count_column: Vec::new(),
        dropped_links_count_column: Vec::new(),
    };
    let mut maps: Vec<Option<&Attributes>> = Vec::new();
    let n = spans.len();
    let mut i: usize = 0;
    while i < n
        invariant
            n == spans@.len(),
            i <= n,
            c.matches(spans@.take(i as int)),
            maps@.len() == i,
            forall|r: int| 0 <= r < i ==> map_of(#[trigger] maps@[r]) == span_map(spans@[r]),
        decreases n - i,
    {
        let s = &spans[i];
        let ghost prev = c;
        c.trace_id_column.push(s.trace_id.clone());
        c.span_id_column.push(s.span_id.clone());
        c.trace_state_column.push(copy_option_string(&s.trace_state));
        c.parent_span_id_column.push(copy_option_string(&s.parent_span_id));
        c.name_column.push(s.name.clone());
        let kind = match s.kind {
            Some(k) => Some(k as u8),
            None => None,
        };
        c.kind_column.push(kind);
        c.start_time_unix_nano_column.push(s.start_time_unix_nano);
        c.end_time_unix_nano_column.push(s.end_time_unix_nano);
        c.dropped_attrs_count_column.push(s.dropped_attributes_count);
        c.dropped_events_count_column.push(s.dropped_events_count);
        c.dropped_links_count_column.push(s.dropped_links_count);
        maps.push(s.attributes.as_ref());
        assert(c.matches(spans@.take(i + 1))) by {
            let t = spans@.take(i + 1);
            assert forall|r: int| 0 <= r < i + 1 implies {
                &&& (#[trigger] c.trace_id_column@[r])@ == t[r].trace_id@
                &&& c.span_id_column@[r]@ == t[r].span_id@
                &&& opt_view(c.trace_state_column@[r]) == opt_view(t[r].trace_state)
                &&& opt_view(c.parent_span_id_column@[r]) == opt_view(t[r].parent_span_id)
                &&& c.name_column@[r]@ == t[r].name@
                &&& c.kind_column@[r] == kind_cell(t[r].kind)
                &&& c.start_time_unix_nano_column@[r] == t[r].start_time_unix_nano
                &&& c.end_time_unix_nano_column@[r] == t[r].end_time_unix_nano
                &&& c.dropped_attrs_count_column@[r] == t[r].dropped_attributes_count
                &&& c.dropped_events_count_column@[r] == t[r].dropped_events_count
                &&& c.dropped_links_count_column@[r] == t[r].dropped_links_count
            } by {
                if r < i {
                    assert(prev.trace_id_column@[r] == c.trace_id_column@[r]);
                    assert(t[r] == spans@.take(i as int)[r]);
                }
            }
        }
        i += 1;
    }
    assert(spans@.take(n as int) =~= spans@);
    let ghost ms = maps@.map_values(|o: Option<&Attributes>| map_of(o));
    assert(ms =~= spans@.map_values(|s: Span| span_map(s)));
    c.attributes_column = build_attribute_columns(maps.as_slice(), schema);
    c
}

/// Pivots the events, each with the index of its parent span.
pub(crate) fn pivot_events(spans: &[Span], schema: &[AttributeField]) -> (r: EventDataColumns)
    requires
        spans@.len() <= 0x1_0000_0000,
    ensures
        r.matches(event_rows(spans@)),
        attribute_columns_match(
            r.attributes_column@,
            schema_model(schema@),
            event_rows(spans@).map_values(|e: (int, Event)| e.1.attributes@),
        ),
{
    let mut c = EventDataColumns {
        id_column: Vec::new(),
        time_unix_nano_column: Vec::new(),
        name_column: Vec::new(),
        attributes_column: Vec::new(),
        dropped_attributes_count_column: Vec::new(),
    };
    let mut maps: Vec<Option<&Attributes>> = Vec::new();
    let ghost mut rows: Seq<(int, Event)> = Seq::empty();
    let n = spans.len();
    let mut i: usize = 0;
    while i < n
        invariant
            n == spans@.len(),
            n <= 0x1_0000_0000,
            i <= n,
            rows == event_rows(spans@.take(i as int)),
            c.matches(rows),
            maps@.len() == rows.len(),
            forall|r: int| 0 <= r < rows.len() ==> map_of(#[trigger] maps@[r]) == rows[r].1.attributes@,
        decreases n - i,
    {
        assert(spans@.take(i + 1).drop_last() =~= spans@.take(i as int));
        match &spans[i].events {
            None => {
                assert(event_rows(spans@.take(i + 1)) =~= rows);
            },
            Some(events) => {
                let ghost base = rows;
                let m = events.len();
                let mut j: usize = 0;
                while j < m
                    invariant
                        i < n,
                        n <= 0x1_0000_0000,
                        m == events@.len(),
                        j <= m,
                        rows == base + events@.take(j as int).map_values(|e: Event| (i as int, e)),
                        c.matches(rows),
                        maps@.len() == rows.len(),
                        forall|r: int| 0 <= r < rows.len() ==> map_of(#[trigger] maps@[r]) == rows[r].1.attributes@,
                    decreases m - j,
                {
                    let e = &events[j];
                    let ghost prev = c;
                    let ghost prev_rows = rows;
                    c.id_column.push(i as u32);
                    c.time_unix_nano_column.push(e.time_unix_nano);
                    c.name_column.push(e.name.clone());
                    c.dropped_attributes_count_column.push(e.dropped_attributes_count);
                    maps.push(Some(&e.attributes));
                    proof {
                        rows = rows.push((i as int, *e));
                        assert(rows =~= base + events@.take(j + 1).map_values(|e: Event| (i as int, e)));
                        assert forall|r: int| 0 <= r < rows.len() implies {
                            &&& (#[trigger] c.id_column@[r]) as int == rows[r].0
                            &&& c.time_unix_nano_column@[r] == rows[r].1.time_unix_nano
                            &&& c.name_column@[r]@ == rows[r].1.name@
                            &&& c.dropped_attributes_count_column@[r] == rows[r].1.dropped_attributes_count
                        } by {
                            if r < prev_rows.len() {
                                assert(prev.id_column@[r] == c.id_column@[r]);
                                assert(rows[r] == prev_rows[r]);
                            }
                        }
                        assert forall|r: int| 0 <= r < rows.len() implies map_of(#[trigger] maps@[r]) == rows[r].1.attributes@ by {
                            if r < prev_rows.len() {
                                assert(rows[r] == prev_rows[r]);
                            }
                        }
                    }
                    j += 1;
                }
                assert(events@.take(m as int) =~= events@);
                assert(event_rows(spans@.take(i + 1)) =~= rows);
            },
        }
        i += 1;
    }
    assert(spans@.take(n as int) =~= spans@);
    let ghost ms = maps@.map_values(|o: Option<&Attributes>| map_of(o));
    assert(ms =~= rows.map_values(|e: (int, Event)| e.1.attributes@));
    c.attributes_column = build_attribute_columns(maps.as_slice(), schema);
    c
}

/// Pivots the links, each with the index of its parent span.
pub(crate) fn pivot_links(spans: &[Span], schema: &[AttributeField]) -> (r: LinkDataColumns)
    requires
        spans@.len() <= 0x1_0000_0000,
    ensures
        r.matches(link_rows(spans@)),
        attribute_columns_match(
            r.attributes_column@,
            schema_model(schema@),
            link_rows(spans@).map_values(|e: (int, Link)| e.1.attributes@),
        ),
{
    let mut c = LinkDataColumns {
        id_column: Vec::new(),
        trace_id_column: Vec::new(),
        span_id_column: Vec::new(),
        trace_state_column: Vec::new(),
        attributes_column: Vec::new(),
        dropped_attributes_count_column: Vec::new(),
    };
    let mut maps: Vec<Option<&Attributes>> = Vec::new();
    let ghost mut rows: Seq<(int, Link)> = Seq::empty();
    let n = spans.len();
    let mut i: usize = 0;
    while i < n
        invariant
            n == spans@.len(),
            n <= 0x1_0000_0000,
            i <= n,
            rows == link_rows(spans@.take(i as int)),
            c.matches(rows),
            maps@.len() == rows.len(),
            forall|r: int| 0 <= r < rows.len() ==> map_of(#[trigger] maps@[r]) == rows[r].1.attributes@,
        decreases n - i,
    {
        assert(spans@.take(i + 1).drop_last() =~= spans@.take(i as int));
        match &spans[i].links {
            None => {
                assert(link_rows(spans@.take(i + 1)) =~= rows);
            },
            Some(links) => {
                let ghost base = rows;
                let m = links.len();
                let mut j: usize = 0;
                while j < m
                    invariant
                        i < n,
                        n <= 0x1_0000_0000,
                        m == links@.len(),
                        j <= m,
                        rows == base + links@.take(j as int).map_values(|l: Link| (i as int, l)),
                        c.matches(rows),
                        maps@.len() == rows.len(),
                        forall|r: int| 0 <= r < rows.len() ==> map_of(#[trigger] maps@[r]) == rows[r].1.attributes@,
                    decreases m - j,
                {
                    let l = &links[j];
                    let ghost prev = c;
                    let ghost prev_rows = rows;
                    c.id_column.push(i as u32);
                    c.trace_id_column.push(l.trace_id.clone());
                    c.span_id_column.push(l.span_id.clone());
                    c.trace_state_column.push(copy_option_string(&l.trace_state));
                    c.dropped_attributes_count_column.push(l.dropped_attributes_count);
                    maps.push(Some(&l.attributes));
                    proof {
                        rows = rows.push((i as int, *l));
                        assert(rows =~= base + links@.take(j + 1).map_values(|l: Link| (i as int, l)));
                        assert forall|r: int| 0 <= r < rows.len() implies {
                            &&& (#[trigger] c.id_column@[r]) as int == rows[r].0
                            &&& c.trace_id_column@[r]@ == rows[r].1.trace_id@
                            &&& c.span_id_column@[r]@ == rows[r].1.span_id@
                            &&& opt_view(c.trace_state_column@[r]) == opt_view(rows[r].1.trace_state)
                            &&& c.dropped_attributes_count_column@[r] == rows[r].1.dropped_attributes_count
                        } by {
                            if r < prev_rows.len() {
                                assert(prev.id_column@[r] == c.id_column@[r]);
                                assert(rows[r] == prev_rows[r]);
                            }
                        }
                        assert forall|r: int| 0 <= r < rows.len() implies map_of(#[trigger] maps@[r]) == rows[r].1.attributes@ by {
                            if r < prev_rows.len() {
                                assert(rows[r] == prev_rows[r]);
                            }
                        }
                    }
                    j += 1;
                }
                assert(links@.take(m as int) =~= links@);
                assert(link_rows(spans@.take(i + 1)) =~= rows);
            },
        }
        i += 1;
    }
    assert(spans@.take(n as int) =~= spans@);
    let ghost ms = maps@.map_values(|o: Option<&Attributes>| map_of(o));
    assert(ms =~= rows.map_values(|e: (int, Link)| e.1.attributes@));
    c.attributes_column = build_attribute_columns(maps.as_slice(), schema);
    c
}

impl DataColumnModel {
    pub open spec fn rows(self) -> nat {
        match self {
            DataColumnModel::U64(v) => v.len(),
            DataColumnModel::I64(v) => v.len(),
            DataColumnModel::F64(v) => v.len(),
            DataColumnModel::Str(v) => v.len(),
            DataColumnModel::Bool(v) => v.len(),
        }
    }
}

/// Every attribute column is well formed and has `n` rows.
pub open spec fn attribute_columns_aligned(cols: Seq<AttributeColumn>, n: nat) -> bool {
    forall|j: int|
        0 <= j < cols.len() ==> (#[trigger] cols[j]).column.wf() && cols[j].column.model().rows() == n
}

pub proof fn lemma_match_aligned(cols: Seq<AttributeColumn>, schema: SchemaModel, maps: Seq<Seq<KeyValue>>)
    requires
        attribute_columns_match(cols, schema, maps),
    ensures
        attribute_columns_aligned(cols, maps.len()),
{
    assert forall|j: int| 0 <= j < cols.len() implies (#[trigger] cols[j]).column.wf()
        && cols[j].column.model().rows() == maps.len() by {
        assert(cols[j].name@ == schema[j].0);
    }
}

impl SpanDataColumns {
    /// Every vector has `n` rows.
    pub open spec fn aligned(&self, n: nat) -> bool {
        &&& self.trace_id_column@.len() == n
        &&& self.span_id_column@.len() == n
        &&& self.trace_state_column@.len() == n
        &&& self.parent_span_id_column@.len() == n
        &&& self.name_column@.len() == n
        &&& self.kind_column@.len() == n
        &&& self.start_time_unix_nano_column@.len() == n
        &&& self.end_time_unix_nano_column@.len() == n
        &&& self.dropped_attrs_count_column@.len() == n
        &&& self.dropped_events_count_column@.len() == n
        &&& self.dropped_links_count_column@.len() == n
        &&& attribute_columns_aligned(self.attributes_column@, n)
    }
}

impl EventDataColumns {
    /// Every vector has `n` rows.
    pub open spec fn aligned(&self, n: nat) -> bool {
        &&& self.id_column@.len() == n
        &&& self.time_unix_nano_column@.len() == n
        &&& self.name_column@.len() == n
        &&& self.dropped_attributes_count_column@.len() == n
        &&& attribute_columns_aligned(self.attributes_column@, n)
    }
}

impl LinkDataColumns {
    /// Every vector has `n` rows.
    pub open spec fn aligned(&self, n: nat) -> bool {
        &&& self.id_column@.len() == n
        &&& self.trace_id_column@.len() == n
        &&& self.span_id_column@.len() == n
        &&& self.trace_state_column@.len() == n
        &&& self.dropped_attributes_count_column@.len() == n
        &&& attribute_columns_aligned(self.attributes_column@, n)
    }
}

/// `d` is the pivot of `spans`: the fixed vectors of each table hold its rows'
/// fields, and its attribute columns are those of the inferred schema, one
/// value or null per row.
pub open spec fn pivots(d: DataColumns, spans: Seq<Span>) -> bool {
    &&& d.spans.matches(spans)
    &&& attribute_columns_match(
        d.spans.attributes_column@,
        apply_all(Seq::empty(), span_kvs(spans)),
        spans.map_values(|s: Span| span_map(s)),
    )
    &&& d.spans.aligned(spans.len())
    &&& d.events.matches(event_rows(spans))
    &&& attribute_columns_match(
        d.events.attributes_column@,
        apply_all(Seq::empty(), event_kvs(spans)),
        event_rows(spans).map_values(|e: (int, Event)| e.1.attributes@),
    )
    &&& d.events.aligned(event_rows(spans).len())
    &&& d.links.matches(link_rows(spans))
    &&& attribute_columns_match(
        d.links.attributes_column@,
        apply_all(Seq::empty(), link_kvs(spans)),
        link_rows(spans).map_values(|e: (int, Link)| e.1.attributes@),
    )
    &&& d.links.aligned(link_rows(spans).len())
}

/// Pivots a batch: inference fixes the attribute columns of each table, then
/// every row appends one value or null to each column of its table.
pub fn to_data_columns(spans: &[Span]) -> (r: DataColumns)
    requires
        batch_fits(spans@),
    ensures
        pivots(r, spans@),
{
    let span_schema = infer_span_attribute_schema(spans);
    let (_, event_schema) = infer_event_attribute_schema(spans);
    let (_, link_schema) = infer_link_attribute_schema(spans);
    let s = pivot_spans(spans, span_schema.as_slice());
    let e = pivot_events(spans, event_schema.as_slice());
    let l = pivot_links(spans, link_schema.as_slice());
    proof {
        lemma_match_aligned(s.attributes_column@, schema_model(span_schema@), spans@.map_values(|s: Span| span_map(s)));
        lemma_match_aligned(e.attributes_column@, schema_model(event_schema@), event_rows(spans@).map_values(|e: (int, Event)| e.1.attributes@));
        lemma_match_aligned(l.attributes_column@, schema_model(link_schema@), link_rows(spans@).map_values(|e: (int, Link)| e.1.attributes@));
    }
    DataColumns { spans: s, events: e, links: l }
}

/// There is one event row per event of the batch.
pub proof fn lemma_event_rows_len(spans: Seq<Span>)
    ensures
        event_rows(spans).len() == crate::model::event_count(spans),
    decreases spans.len(),
{
    if spans.len() > 0 {
        lemma_event_rows_len(spans.drop_last());
    }
}

/// There is one link row per link of the batch.
pub proof fn lemma_link_rows_len(spans: Seq<Span>)
    ensures
        link_rows(spans).len() == crate::model::link_count(spans),
    decreases spans.len(),
{
    if spans.len() > 0 {
        lemma_link_rows_len(spans.drop_last());
    }
}

/// Each event row carries the index of the span that holds its event.
pub proof fn lemma_event_rows_parent(spans: Seq<Span>)
    ensures
        forall|r: int|
            0 <= r < event_rows(spans).len() ==> {
                let (i, e) = #[trigger] event_rows(spans)[r];
                &&& 0 <= i < spans.len()
                &&& events_of(spans[i]).contains(e)
            },
    decreases spans.len(),
{
    if spans.len() > 0 {
        let rest = spans.drop_last();
        lemma_event_rows_parent(rest);
        let rows = event_rows(spans);
        let prev = event_rows(rest);
        assert forall|r: int| 0 <= r < rows.len() implies {
            let (i, e) = #[trigger] rows[r];
            &&& 0 <= i < spans.len()
            &&& events_of(spans[i]).contains(e)
        } by {
            if r < prev.len() {
                assert(rows[r] == prev[r]);
                assert(spans[prev[r].0] == rest[prev[r].0]);
            } else {
                let evs = events_of(spans.last());
                let q = r - prev.len();
                assert(rows[r] == ((spans.len() - 1) as int, evs[q]));
            }
        }
    }
}

/// Each link row carries the index of the span that holds its link.
pub proof fn lemma_link_rows_parent(spans: Seq<Span>)
    ensures
        forall|r: int|
            0 <= r < link_rows(spans).len() ==> {
                let (i, l) = #[trigger] link_rows(spans)[r];
                &&& 0 <= i < spans.len()
                &&& links_of(spans[i]).contains(l)
            },
    decreases spans.len(),
{
    if spans.len() > 0 {
        let rest = spans.drop_last();
        lemma_link_rows_parent(rest);
        let rows = link_rows(spans);
        let prev = link_rows(rest);
        assert forall|r: int| 0 <= r < rows.len() implies {
            let (i, l) = #[trigger] rows[r];
            &&& 0 <= i < spans.len()
            &&& links_of(spans[i]).contains(l)
        } by {
            if r < prev.len() {
                assert(rows[r] == prev[r]);
                assert(spans[prev[r].0] == rest[prev[r].0]);
            } else {
                let ls = links_of(spans.last());
                let q = r - prev.len();
                assert(rows[r] == ((spans.len() - 1) as int, ls[q]));
            }
        }
    }
}

/// Every string in a key's column over `maps` is one that inference recorded
/// for that key.
pub open spec fn strings_inferred(schema: SchemaModel, maps: Seq<Seq<KeyValue>>) -> bool {
    forall|j: int, r: int|
        0 <= j < schema.len() && 0 <= r < maps.len() && (#[trigger] string_cell(
            lookup(maps[r], schema[j].0),
        )) is Some ==> schema[j].1.strings.contains(
            string_cell(lookup(maps[r], schema[j].0))->Some_0,
        )
}

/// Every pair of every map in `maps` occurs in `kvs`.
pub open spec fn pairs_within(kvs: Seq<KeyValue>, maps: Seq<Seq<KeyValue>>) -> bool {
    forall|r: int, q: int|
        0 <= r < maps.len() && 0 <= q < maps[r].len() ==> kvs.contains(#[trigger] maps[r][q])
}

proof fn lemma_lookup_found(m: Seq<KeyValue>, k: Seq<char>)
    requires
        lookup(m, k) is Some,
    ensures
        exists|q: int| 0 <= q < m.len() && m[q].key@ == k && Some(m[q].value) == lookup(m, k),
    decreases m.len(),
{
    if m[0].key@ != k {
        lemma_lookup_found(m.drop_first(), k);
        let q = choose|q: int|
            0 <= q < m.drop_first().len() && m.drop_first()[q].key@ == k && Some(
                m.drop_first()[q].value,
            ) == lookup(m.drop_first(), k);
        assert(m[q + 1] == m.drop_first()[q]);
    }
}

/// What inference folds over `kvs` records every string that the columns over
/// `maps` hold, when the maps' pairs are among `kvs`.
pub proof fn lemma_strings_inferred(kvs: Seq<KeyValue>, maps: Seq<Seq<KeyValue>>)
    requires
        pairs_within(kvs, maps),
    ensures
        strings_inferred(apply_all(Seq::empty(), kvs), maps),
{
    let schema = apply_all(Seq::empty(), kvs);
    lemma_apply_all_invariants(Seq::empty(), kvs, 0);
    assert forall|j: int, r: int|
        0 <= j < schema.len() && 0 <= r < maps.len() && (#[trigger] string_cell(
            lookup(maps[r], schema[j].0),
        )) is Some implies schema[j].1.strings.contains(
        string_cell(lookup(maps[r], schema[j].0))->Some_0,
    ) by {
        let k = schema[j].0;
        let m = maps[r];
        lemma_lookup_found(m, k);
        let q = choose|q: int| 0 <= q < m.len() && m[q].key@ == k && Some(m[q].value) == lookup(m, k);
        assert(0 <= q < maps[r].len());
        let _ = maps[r][q];
        assert(kvs.contains(maps[r][q]));
                let p = choose|p: int| 0 <= p < kvs.len() && kvs[p] == maps[r][q];
        let x = string_cell(lookup(m, k))->Some_0;
        lemma_string_recorded(Seq::empty(), kvs, p, x);
        let j2 = choose|j2: int|
            0 <= j2 < schema.len() && schema[j2].0 == kvs[p].key@ && schema[j2].1.strings.contains(x);
        if j2 != j {
            if j2 < j {
                assert(schema[j2].0 != schema[j].0);
            } else {
                assert(schema[j].0 != schema[j2].0);
            }
        }
    }
}

/// The attribute maps of the spans, row by row.
pub open spec fn span_maps(spans: Seq<Span>) -> Seq<Seq<KeyValue>> {
    spans.map_values(|s: Span| span_map(s))
}

pub open spec fn event_maps(events: Seq<Event>) -> Seq<Seq<KeyValue>> {
    events.map_values(|e: Event| e.attributes@)
}

pub open spec fn link_maps(links: Seq<Link>) -> Seq<Seq<KeyValue>> {
    links.map_values(|l: Link| l.attributes@)
}

/// The attribute maps of event rows, row by row.
pub open spec fn event_row_maps(rows: Seq<(int, Event)>) -> Seq<Seq<KeyValue>> {
    rows.map_values(|e: (int, Event)| e.1.attributes@)
}

/// The attribute maps of link rows, row by row.
pub open spec fn link_row_maps(rows: Seq<(int, Link)>) -> Seq<Seq<KeyValue>> {
    rows.map_values(|e: (int, Link)| e.1.attributes@)
}

/// The spans' attribute pairs are among `span_kvs`.
pub proof fn lemma_span_pairs(spans: Seq<Span>)
    ensures
        pairs_within(span_kvs(spans), span_maps(spans)),
    decreases spans.len(),
{
    let maps = span_maps(spans);
    if spans.len() > 0 {
        let rest = spans.drop_last();
        lemma_span_pairs(rest);
        let kvs = span_kvs(spans);
        let pre = span_kvs(rest);
        let rm = span_maps(rest);
        assert(kvs == pre + span_map(spans.last()));
        assert forall|r: int, q: int| #![trigger maps[r][q]] 0 <= r < maps.len() && 0 <= q < maps[r].len() implies kvs.contains(maps[r][q]) by {
            if r < rest.len() {
                assert(maps[r] == rm[r]);
                assert(pre.contains(rm[r][q]));
                assert(pre.contains(rm[r][q]));
                let p = choose|p: int| 0 <= p < pre.len() && pre[p] == rm[r][q];
                assert(kvs[p] == pre[p]);
            } else {
                assert(kvs[pre.len() + q] == maps[r][q]);
            }
        }
    }
}

proof fn lemma_event_list_pairs(events: Seq<Event>)
    ensures
        pairs_within(event_list_kvs(events), event_maps(events)),
    decreases events.len(),
{
    let maps = event_maps(events);
    if events.len() > 0 {
        let rest = events.drop_last();
        lemma_event_list_pairs(rest);
        let kvs = event_list_kvs(events);
        let pre = event_list_kvs(rest);
        let rm = event_maps(rest);
        assert forall|r: int, q: int| #![trigger maps[r][q]] 0 <= r < maps.len() && 0 <= q < maps[r].len() implies kvs.contains(maps[r][q]) by {
            if r < rest.len() {
                assert(rest[r] == events[r]);
                assert(maps[r] == rm[r]);
                assert(0 <= q < rm[r].len());
                assert(pre.contains(rm[r][q]));
                let p = choose|p: int| 0 <= p < pre.len() && pre[p] == rm[r][q];
                assert(kvs[p] == pre[p]);
            } else {
                assert(kvs[pre.len() + q] == maps[r][q]);
            }
        }
    }
}

/// The events' attribute pairs are among `event_kvs`.
pub proof fn lemma_event_pairs(spans: Seq<Span>)
    ensures
        pairs_within(event_kvs(spans), event_row_maps(event_rows(spans))),
    decreases spans.len(),
{
    let maps = event_row_maps(event_rows(spans));
    if spans.len() > 0 {
        let rest = spans.drop_last();
        let i = (spans.len() - 1) as int;
        lemma_event_pairs(rest);
        lemma_event_list_pairs(events_of(spans.last()));
        let kvs = event_kvs(spans);
        let pre = event_kvs(rest);
        let rm = event_row_maps(event_rows(rest));
        let lm = events_of(spans.last()).map_values(|e: Event| (i, e)).map_values(|e: (int, Event)| e.1.attributes@);
        let lk = event_list_kvs(events_of(spans.last()));
        let lm0 = event_maps(events_of(spans.last()));
        assert(lm =~= lm0);
        assert(maps =~= rm + lm);
        assert forall|r: int, q: int| #![trigger maps[r][q]] 0 <= r < maps.len() && 0 <= q < maps[r].len() implies kvs.contains(maps[r][q]) by {
            if r < rm.len() {
                assert(maps[r] == rm[r]);
                assert(pre.contains(rm[r][q]));
                let p = choose|p: int| 0 <= p < pre.len() && pre[p] == rm[r][q];
                assert(kvs[p] == pre[p]);
            } else {
                let r2 = r - rm.len();
                assert(maps[r] == lm[r2]);
                assert(lm[r2] == lm0[r2]);
                assert(lk.contains(lm0[r2][q]));
                let p = choose|p: int| 0 <= p < lk.len() && lk[p] == lm0[r2][q];
                assert(kvs[pre.len() + p] == lk[p]);
            }
        }
    }
}

proof fn lemma_link_list_pairs(links: Seq<Link>)
    ensures
        pairs_within(link_list_kvs(links), link_maps(links)),
    decreases links.len(),
{
    let maps = link_maps(links);
    if links.len() > 0 {
        let rest = links.drop_last();
        lemma_link_list_pairs(rest);
        let kvs = link_list_kvs(links);
        let pre = link_list_kvs(rest);
        let rm = link_maps(rest);
        assert forall|r: int, q: int| #![trigger maps[r][q]] 0 <= r < maps.len() && 0 <= q < maps[r].len() implies kvs.contains(maps[r][q]) by {
            if r < rest.len() {
                assert(rest[r] == links[r]);
                assert(maps[r] == rm[r]);
                assert(0 <= q < rm[r].len());
                assert(pre.contains(rm[r][q]));
                let p = choose|p: int| 0 <= p < pre.len() && pre[p] == rm[r][q];
                assert(kvs[p] == pre[p]);
            } else {
                assert(kvs[pre.len() + q] == maps[r][q]);
            }
        }
    }
}

/// The links' attribute pairs are among `link_kvs`.
pub proof fn lemma_link_pairs(spans: Seq<Span>)
    ensures
        pairs_within(link_kvs(spans), link_row_maps(link_rows(spans))),
    decreases spans.len(),
{
    let maps = link_row_maps(link_rows(spans));
    if spans.len() > 0 {
        let rest = spans.drop_last();
        let i = (spans.len() - 1) as int;
        lemma_link_pairs(rest);
        lemma_link_list_pairs(links_of(spans.last()));
        let kvs = link_kvs(spans);
        let pre = link_kvs(rest);
        let rm = link_row_maps(link_rows(rest));
        let lm = links_of(spans.last()).map_values(|l: Link| (i, l)).map_values(|e: (int, Link)| e.1.attributes@);
        let lk = link_list_kvs(links_of(spans.last()));
        let lm0 = link_maps(links_of(spans.last()));
        assert(lm =~= lm0);
        assert(maps =~= rm + lm);
        assert forall|r: int, q: int| #![trigger maps[r][q]] 0 <= r < maps.len() && 0 <= q < maps[r].len() implies kvs.contains(maps[r][q]) by {
            if r < rm.len() {
                assert(maps[r] == rm[r]);
                assert(pre.contains(rm[r][q]));
                let p = choose|p: int| 0 <= p < pre.len() && pre[p] == rm[r][q];
                assert(kvs[p] == pre[p]);
            } else {
                let r2 = r - rm.len();
                assert(maps[r] == lm[r2]);
                assert(lm[r2] == lm0[r2]);
                assert(lk.contains(lm0[r2][q]));
                let p = choose|p: int| 0 <= p < lk.len() && lk[p] == lm0[r2][q];
                assert(kvs[pre.len() + p] == lk[p]);
            }
        }
    }
}

} // verus!
