//! The three tables of a batch, built from rows (schema inference first) or
//! from pivoted columns (field-emission helpers, which leave empty fields out).
use vstd::prelude::*;
use vstd::string::StringExecFns;
use crate::model::Span;
use crate::schema::{FieldInfo, FieldType};
use crate::attribute::{AttributeField, SchemaModel, schema_model};
use crate::column::{
    Column, ColumnModel, DataType, Field, FieldModel, appended, present, string_column,
    string_type, encode_strings, key_width, lemma_any_null_views, opt_views, any_null,
};
use crate::columnar::{
    AttributeColumn, DataColumn, DataColumnModel, null_count, attribute_columns_match,
    attribute_column_model, span_map, kind_cell, pivot_spans, pivot_events, pivot_links,
    event_rows, link_rows,
};
use crate::model::{Event, KeyValue, Link};
use crate::column::{opt_view, all_some, all_null, wrap_values, copy_options, wrap_strings, copy_strings, u64_non_nullable_field, u64_nullable_field, u32_non_nullable_field, u32_nullable_field, u8_nullable_field, binary_non_nullable_field, binary_nullable_field, string_non_nullable_field, string_nullable_field};
use crate::columnar::{DataColumns, SpanDataColumns, EventDataColumns, LinkDataColumns, attribute_columns_aligned, strings_inferred, span_maps, event_row_maps, link_row_maps, lemma_span_pairs, lemma_event_pairs, lemma_link_pairs, lemma_strings_inferred, string_cell, lookup};
use crate::column::{dictionary_encode, lemma_key_width_indexes, key_width_for};
use crate::schema::string_views;
use crate::schema::FieldInfoModel;
use crate::attribute::{infer_span_attribute_schema, infer_event_attribute_schema, infer_link_attribute_schema, apply_all, span_kvs, event_kvs, link_kvs};

verus! {

/// A schema field with its column.
pub type Entry = (FieldModel, ColumnModel);

/// `new_*` are `old_*` followed by `entries`, every new column well-formed.
pub open spec fn extends(
    old_fields: Seq<Field>,
    new_fields: Seq<Field>,
    old_columns: Seq<Column>,
    new_columns: Seq<Column>,
    entries: Seq<Entry>,
) -> bool {
    &&& new_fields.len() == old_fields.len() + entries.len()
    &&& new_columns.len() == old_columns.len() + entries.len()
    &&& new_fields.take(old_fields.len() as int) == old_fields
    &&& new_columns.take(old_columns.len() as int) == old_columns
    &&& forall|k: int|
        0 <= k < entries.len() ==> {
            &&& (#[trigger] new_fields[old_fields.len() + k]).model() == entries[k].0
            &&& new_columns[old_columns.len() + k].model() == entries[k].1
            &&& new_columns[old_columns.len() + k].wf()
        }
}

pub proof fn lemma_extends_none(fields: Seq<Field>, columns: Seq<Column>)
    ensures
        extends(fields, fields, columns, columns, Seq::empty()),
{
    assert(fields.take(fields.len() as int) =~= fields);
    assert(columns.take(columns.len() as int) =~= columns);
}

pub proof fn lemma_extends_one(
    f0: Seq<Field>,
    f1: Seq<Field>,
    c0: Seq<Column>,
    c1: Seq<Column>,
    f: FieldModel,
    c: ColumnModel,
)
    requires
        appended(f0, f1, c0, c1, f, c),
    ensures
        extends(f0, f1, c0, c1, seq![(f, c)]),
{
    assert(f1.take(f0.len() as int) =~= f1.drop_last());
    assert(c1.take(c0.len() as int) =~= c1.drop_last());
}

pub proof fn lemma_extends_trans(
    f0: Seq<Field>,
    f1: Seq<Field>,
    f2: Seq<Field>,
    c0: Seq<Column>,
    c1: Seq<Column>,
    c2: Seq<Column>,
    e1: Seq<Entry>,
    e2: Seq<Entry>,
)
    requires
        extends(f0, f1, c0, c1, e1),
        extends(f1, f2, c1, c2, e2),
    ensures
        extends(f0, f2, c0, c2, e1 + e2),
{
    assert(f2.take(f0.len() as int) =~= f1.take(f0.len() as int));
    assert(c2.take(c0.len() as int) =~= c1.take(c0.len() as int));
    let e = e1 + e2;
    assert forall|k: int| 0 <= k < e.len() implies {
        &&& (#[trigger] f2[f0.len() + k]).model() == e[k].0
        &&& c2[c0.len() + k].model() == e[k].1
        &&& c2[c0.len() + k].wf()
    } by {
        if k < e1.len() {
            assert(f2[f0.len() + k] == f2.take(f1.len() as int)[f0.len() + k]);
            assert(c2[c0.len() + k] == c2.take(c1.len() as int)[c0.len() + k]);
        } else {
            let q = k - e1.len();
            assert(f2[f1.len() + q] == f2[f0.len() + k]);
        }
    }
}

/// The inferred schema of one table: its fields, and the record of each
/// attribute key.
#[derive(Debug)]
pub struct EntitySchema {
    pub fields: Vec<Field>,
    pub attribute_fields: Vec<AttributeField>,
}

/// An encoded table: schema fields and their columns, position by position.
#[derive(Debug)]
pub struct Table {
    pub fields: Vec<Field>,
    pub columns: Vec<Column>,
}

impl Table {
    /// The table as its field-column pairs.
    pub open spec fn entries(&self) -> Seq<Entry> {
        Seq::new(
            self.fields@.len(),
            |i: int| (self.fields@[i].model(), self.columns@[i].model()),
        )
    }

    /// Field and column vectors are aligned, every column has `rows` rows and
    /// the type its field declares, and a non-nullable field has no null.
    pub open spec fn well_formed(&self, rows: nat) -> bool {
        &&& self.fields@.len() == self.columns@.len()
        &&& forall|i: int|
            0 <= i < self.columns@.len() ==> {
                &&& (#[trigger] self.columns@[i]).model().rows() == rows
                &&& self.columns@[i].wf()
                &&& self.fields@[i].data_type == self.columns@[i].model().data_type()
                &&& !self.fields@[i].nullable ==> !self.columns@[i].model().has_null()
            }
    }

    /// Number of fields.
    pub fn num_columns(&self) -> (r: usize)
        ensures
            r == self.fields@.len(),
    {
        self.fields.len()
    }
}

/// The entries `e` describe columns of `rows` rows, typed as their fields say.
pub open spec fn entries_well_formed(e: Seq<Entry>, rows: nat) -> bool {
    forall|i: int|
        0 <= i < e.len() ==> {
            &&& (#[trigger] e[i]).1.rows() == rows
            &&& e[i].0.data_type == e[i].1.data_type()
            &&& !e[i].0.nullable ==> !e[i].1.has_null()
        }
}

/// A table built from nothing by `entries` is well formed when they are.
pub proof fn lemma_table_well_formed(t: Table, e: Seq<Entry>, rows: nat)
    requires
        extends(Seq::empty(), t.fields@, Seq::empty(), t.columns@, e),
        entries_well_formed(e, rows),
    ensures
        t.well_formed(rows),
        t.entries() == e,
{
    assert forall|i: int| 0 <= i < t.columns@.len() implies {
        &&& (#[trigger] t.columns@[i]).model().rows() == rows
        &&& t.columns@[i].wf()
        &&& t.fields@[i].data_type == t.columns@[i].model().data_type()
        &&& !t.fields@[i].nullable ==> !t.columns@[i].model().has_null()
    } by {
        assert(t.fields@[0 + i] == t.fields@[i]);
        assert(e[i] == e[i]);
    }
    assert(t.entries() =~= e) by {
        assert forall|i: int| 0 <= i < e.len() implies t.entries()[i] == e[i] by {
            assert(t.fields@[0 + i] == t.fields@[i]);
        }
    }
}

/// The table column of an attribute column: strings are dictionary-encoded
/// by `string_type` with keys of up to 32 bits.
pub open spec fn attribute_table_column(d: DataColumnModel) -> ColumnModel {
    match d {
        DataColumnModel::U64(v) => ColumnModel::UInt64(v),
        DataColumnModel::I64(v) => ColumnModel::Int64(v),
        DataColumnModel::F64(v) => ColumnModel::Float64(v),
        DataColumnModel::Bool(v) => ColumnModel::Boolean(v),
        DataColumnModel::Str(v) => string_column(
            string_type(present(v).to_set().len(), present(v).len(), 32),
            v,
        ),
    }
}

/// The name of the column of attribute key `k`.
pub open spec fn attribute_column_name(k: Seq<char>) -> Seq<char> {
    "attributes_"@ + k
}

/// The entries of attribute columns, in order: every column is emitted, all
/// null or not; nullable always when `always_nullable`, else when it holds a null.
pub open spec fn attribute_entries(cols: Seq<AttributeColumn>, always_nullable: bool) -> Seq<Entry> {
    Seq::new(
        cols.len(),
        |j: int|
            {
                let c = attribute_table_column(cols[j].column.model());
                (
                    FieldModel {
                        name: attribute_column_name(cols[j].name@),
                        data_type: c.data_type(),
                        nullable: always_nullable || c.has_null(),
                    },
                    c,
                )
            },
    )
}

fn attribute_name(key: &String) -> (r: String)
    ensures
        r@ == attribute_column_name(key@),
{
    let prefix = String::from_str("attributes_");
    prefix.concat(key.as_str())
}

pub proof fn lemma_null_count_any<T>(v: Seq<Option<T>>)
    ensures
        (null_count(v) > 0) == any_null(v),
    decreases v.len(),
{
    if v.len() > 0 {
        lemma_null_count_any(v.drop_last());
        if any_null(v.drop_last()) {
            let i = choose|i: int| 0 <= i < v.drop_last().len() && v.drop_last()[i] is None;
            assert(v[i] is None);
        }
        if any_null(v) && v.last() is Some {
            let i = choose|i: int| 0 <= i < v.len() && v[i] is None;
            assert(v.drop_last()[i] is None);
        }
    }
}

/// Turns one attribute column into a field and a table column.
fn attribute_entry(col: &AttributeColumn, always_nullable: bool) -> (r: (Field, Column))
    requires
        col.column.wf(),
    ensures
        r.0.model() == attribute_entries(seq![*col], always_nullable)[0].0,
        r.1.model() == attribute_entries(seq![*col], always_nullable)[0].1,
        r.1.wf(),
{
    let name = attribute_name(&col.name);
    match &col.column {
        DataColumn::U64Column { missing, values } => {
            proof {
                lemma_null_count_any(values@);
            }
            let c = Column::UInt64(copy_options(values.as_slice()));
            (Field { name, data_type: DataType::UInt64, nullable: always_nullable || *missing > 0 }, c)
        },
        DataColumn::I64Column { missing, values } => {
            proof {
                lemma_null_count_any(values@);
            }
            let c = Column::Int64(copy_options(values.as_slice()));
            (Field { name, data_type: DataType::Int64, nullable: always_nullable || *missing > 0 }, c)
        },
        DataColumn::F64Column { missing, values } => {
            proof {
                lemma_null_count_any(values@);
            }
            let c = Column::Float64(copy_options(values.as_slice()));
            (Field { name, data_type: DataType::Float64, nullable: always_nullable || *missing > 0 }, c)
        },
        DataColumn::BoolColumn { missing, values } => {
            proof {
                lemma_null_count_any(values@);
            }
            let c = Column::Boolean(copy_options(values.as_slice()));
            (Field { name, data_type: DataType::Boolean, nullable: always_nullable || *missing > 0 }, c)
        },
        DataColumn::StringColumn { missing, values } => {
            proof {
                lemma_null_count_any(values@);
                lemma_any_null_views(values@);
            }
            let (c, _) = encode_strings(values.as_slice(), 32);
            let t = match &c {
                Column::Dictionary(w, _, _) => DataType::Dictionary(*w),
                _ => DataType::Utf8,
            };
            (Field { name, data_type: t, nullable: always_nullable || *missing > 0 }, c)
        },
    }
}

/// Appends one field and one column per attribute column, in order.
fn emit_attribute_columns(
    cols: &Vec<AttributeColumn>,
    always_nullable: bool,
    fields: &mut Vec<Field>,
    columns: &mut Vec<Column>,
)
    requires
        forall|j: int| 0 <= j < cols@.len() ==> (#[trigger] cols@[j]).column.wf(),
    ensures
        extends(
            old(fields)@,
            final(fields)@,
            old(columns)@,
            final(columns)@,
            attribute_entries(cols@, always_nullable),
        ),
{
    let ghost f0 = fields@;
    let ghost c0 = columns@;
    proof {
        lemma_extends_none(f0, c0);
    }
    let n = cols.len();
    let mut j: usize = 0;
    while j < n
        invariant
            n == cols@.len(),
            j <= n,
            forall|q: int| 0 <= q < cols@.len() ==> (#[trigger] cols@[q]).column.wf(),
            extends(f0, fields@, c0, columns@, attribute_entries(cols@.take(j as int), always_nullable)),
        decreases n - j,
    {
        let ghost f1 = fields@;
        let ghost c1 = columns@;
        let (f, c) = attribute_entry(&cols[j], always_nullable);
        fields.push(f);
        columns.push(c);
        proof {
            let one = attribute_entries(seq![cols@[j as int]], always_nullable);
            assert(appended(f1, fields@, c1, columns@, one[0].0, one[0].1)) by {
                assert(fields@.drop_last() =~= f1);
                assert(columns@.drop_last() =~= c1);
            }
            lemma_extends_one(f1, fields@, c1, columns@, one[0].0, one[0].1);
            lemma_extends_trans(
                f0,
                f1,
                fields@,
                c0,
                c1,
                columns@,
                attribute_entries(cols@.take(j as int), always_nullable),
                seq![(one[0].0, one[0].1)],
            );
            assert(attribute_entries(cols@.take(j as int), always_nullable) + seq![(one[0].0, one[0].1)]
                =~= attribute_entries(cols@.take(j + 1), always_nullable));
        }
        j += 1;
    }
    assert(cols@.take(n as int) =~= cols@);
}

/// The entry of attribute key `k` in a table built from rows: a string
/// column takes the type that inference gave the key (`inferred_type`), the
/// same type as the key's schema field; every attribute field is nullable.
pub open spec fn row_attribute_entry(k: Seq<char>, info: FieldInfoModel, d: DataColumnModel) -> Entry {
    let c = match d {
        DataColumnModel::Str(v) => string_column(inferred_type(info), v),
        _ => attribute_table_column(d),
    };
    (fm(attribute_column_name(k), c.data_type(), true), c)
}

/// The attribute entries of a table built from rows, one per inferred key.
pub open spec fn row_attribute_entries(schema: SchemaModel, maps: Seq<Seq<KeyValue>>) -> Seq<Entry> {
    Seq::new(
        schema.len(),
        |j: int|
            row_attribute_entry(
                schema[j].0,
                schema[j].1,
                attribute_column_model(maps, schema[j].0, schema[j].1.ty),
            ),
    )
}

pub proof fn lemma_row_attribute_entries_well_formed(schema: SchemaModel, maps: Seq<Seq<KeyValue>>)
    ensures
        entries_well_formed(row_attribute_entries(schema, maps), maps.len()),
{
    let e = row_attribute_entries(schema, maps);
    assert forall|i: int| 0 <= i < e.len() implies {
        &&& (#[trigger] e[i]).1.rows() == maps.len()
        &&& e[i].0.data_type == e[i].1.data_type()
        &&& !e[i].0.nullable ==> !e[i].1.has_null()
    } by {
        let d = attribute_column_model(maps, schema[i].0, schema[i].1.ty);
        match d {
            DataColumnModel::Str(v) => {
                match inferred_type(schema[i].1) {
                    DataType::Dictionary(w) => {},
                    _ => {},
                }
            },
            _ => {},
        }
    }
}

/// Turns one attribute column into a field and a table column, typed by the
/// key's inferred record.
fn row_attribute_entry_exec(col: &AttributeColumn, info: &FieldInfo) -> (r: (Field, Column))
    requires
        col.column.wf(),
        match col.column.model() {
            DataColumnModel::Str(v) => forall|i: int|
                0 <= i < v.len() && (#[trigger] v[i]) is Some ==> info.model().strings.contains(
                    v[i]->Some_0,
                ),
            _ => true,
        },
    ensures
        r.0.model() == row_attribute_entry(col.name@, info.model(), col.column.model()).0,
        r.1.model() == row_attribute_entry(col.name@, info.model(), col.column.model()).1,
        r.1.wf(),
{
    match &col.column {
        DataColumn::StringColumn { missing, values } => {
            let name = attribute_name(&col.name);
            let t = inferred_data_type(info);
            let ghost m = info.model();
            let ghost d = m.strings.to_set().len();
            match t {
                DataType::Dictionary(w) => {
                    let ghost allowed = m.strings.to_set();
                    proof {
                        assert(key_width_for(d) is Some);
                        lemma_key_width_indexes(d);
                        let v = opt_views(values@);
                        assert forall|i: int|
                            0 <= i < values@.len() && (#[trigger] values@[i]) is Some implies allowed.contains(
                            values@[i]->Some_0@,
                        ) by {
                            assert(v[i] == Some(values@[i]->Some_0@));
                        }
                    }
                    let (keys, dict) = dictionary_encode(values.as_slice(), Ghost(allowed));
                    (Field { name, data_type: t, nullable: true }, Column::Dictionary(w, keys, dict))
                },
                _ => {
                    let c = Column::Utf8(copy_strings(values.as_slice()));
                    (Field { name, data_type: DataType::Utf8, nullable: true }, c)
                },
            }
        },
        _ => attribute_entry(col, true),
    }
}

/// Appends one field and one column per attribute column of a table built
/// from rows, typed by the inferred schema `attribute_fields`.
fn emit_row_attribute_columns(
    cols: &Vec<AttributeColumn>,
    attribute_fields: &[AttributeField],
    maps: Ghost<Seq<Seq<KeyValue>>>,
    fields: &mut Vec<Field>,
    columns: &mut Vec<Column>,
)
    requires
        attribute_columns_match(cols@, schema_model(attribute_fields@), maps@),
        strings_inferred(schema_model(attribute_fields@), maps@),
    ensures
        extends(
            old(fields)@,
            final(fields)@,
            old(columns)@,
            final(columns)@,
            row_attribute_entries(schema_model(attribute_fields@), maps@),
        ),
{
    let ghost f0 = fields@;
    let ghost c0 = columns@;
    let ghost sm = schema_model(attribute_fields@);
    proof {
        lemma_extends_none(f0, c0);
    }
    let n = cols.len();
    let mut j: usize = 0;
    while j < n
        invariant
            n == cols@.len(),
            j <= n,
            sm == schema_model(attribute_fields@),
            attribute_columns_match(cols@, sm, maps@),
            strings_inferred(sm, maps@),
            extends(f0, fields@, c0, columns@, row_attribute_entries(sm, maps@).take(j as int)),
        decreases n - j,
    {
        let ghost f1 = fields@;
        let ghost c1 = columns@;
        proof {
            assert(cols@[j as int].name@ == sm[j as int].0);
            match cols@[j as int].column.model() {
                DataColumnModel::Str(v) => {
                    assert forall|i: int| 0 <= i < v.len() && (#[trigger] v[i]) is Some implies sm[j as int].1.strings.contains(
                        v[i]->Some_0,
                    ) by {
                        assert(v[i] == string_cell(lookup(maps@[i], sm[j as int].0)));
                    }
                },
                _ => {},
            }
        }
        let (f, c) = row_attribute_entry_exec(&cols[j], &attribute_fields[j].info);
        fields.push(f);
        columns.push(c);
        proof {
            let e = row_attribute_entries(sm, maps@)[j as int];
            assert(appended(f1, fields@, c1, columns@, e.0, e.1)) by {
                assert(fields@.drop_last() =~= f1);
                assert(columns@.drop_last() =~= c1);
            }
            lemma_extends_one(f1, fields@, c1, columns@, e.0, e.1);
            lemma_extends_trans(f0, f1, fields@, c0, c1, columns@, row_attribute_entries(sm, maps@).take(j as int), seq![(e.0, e.1)]);
            assert(row_attribute_entries(sm, maps@).take(j as int) + seq![(e.0, e.1)] =~= row_attribute_entries(sm, maps@).take(j + 1));
        }
        j += 1;
    }
    assert(row_attribute_entries(sm, maps@).take(n as int) =~= row_attribute_entries(sm, maps@));
}

/// The attribute entries of a schema over rows with maps `maps`.
pub open spec fn attribute_entries_of(
    schema: SchemaModel,
    maps: Seq<Seq<KeyValue>>,
    always_nullable: bool,
) -> Seq<Entry> {
    Seq::new(
        schema.len(),
        |j: int|
            {
                let c = attribute_table_column(attribute_column_model(maps, schema[j].0, schema[j].1.ty));
                (
                    FieldModel {
                        name: attribute_column_name(schema[j].0),
                        data_type: c.data_type(),
                        nullable: always_nullable || c.has_null(),
                    },
                    c,
                )
            },
    )
}

pub proof fn lemma_attribute_entries_of(
    cols: Seq<AttributeColumn>,
    schema: SchemaModel,
    maps: Seq<Seq<KeyValue>>,
    always_nullable: bool,
)
    requires
        attribute_columns_match(cols, schema, maps),
    ensures
        attribute_entries(cols, always_nullable) == attribute_entries_of(schema, maps, always_nullable),
        forall|j: int| 0 <= j < cols.len() ==> (#[trigger] cols[j]).column.wf(),
{
    assert forall|j: int| 0 <= j < cols.len() implies (#[trigger] cols[j]).column.wf() by {
        assert(cols[j].name@ == schema[j].0);
    }
    assert(attribute_entries(cols, always_nullable) =~= attribute_entries_of(schema, maps, always_nullable)) by {
        assert forall|j: int| 0 <= j < cols.len() implies attribute_entries(cols, always_nullable)[j]
            == attribute_entries_of(schema, maps, always_nullable)[j] by {
            assert(cols[j].name@ == schema[j].0);
        }
    }
}

pub proof fn lemma_attribute_entries_well_formed(
    schema: SchemaModel,
    maps: Seq<Seq<KeyValue>>,
    always_nullable: bool,
)
    ensures
        entries_well_formed(attribute_entries_of(schema, maps, always_nullable), maps.len()),
{
    let e = attribute_entries_of(schema, maps, always_nullable);
    assert forall|i: int| 0 <= i < e.len() implies {
        &&& (#[trigger] e[i]).1.rows() == maps.len()
        &&& e[i].0.data_type == e[i].1.data_type()
        &&& !e[i].0.nullable ==> !e[i].1.has_null()
    } by {
        let d = attribute_column_model(maps, schema[i].0, schema[i].1.ty);
        match d {
            DataColumnModel::Str(v) => {
                let t = string_type(present(v).to_set().len(), present(v).len(), 32);
                match t {
                    DataType::Dictionary(w) => {},
                    _ => {},
                }
            },
            _ => {},
        }
    }
}

pub open spec fn fm(name: Seq<char>, t: DataType, nullable: bool) -> FieldModel {
    FieldModel { name, data_type: t, nullable }
}

/// The fixed columns of the spans table, all of them, in schema order.
pub open spec fn span_fixed_entries(spans: Seq<Span>) -> Seq<Entry> {
    seq![
        (fm("start_time_unix_nano"@, DataType::UInt64, false), ColumnModel::UInt64(spans.map_values(|s: Span| Some(s.start_time_unix_nano)))),
        (fm("end_time_unix_nano"@, DataType::UInt64, true), ColumnModel::UInt64(spans.map_values(|s: Span| s.end_time_unix_nano))),
        (fm("trace_id"@, DataType::Binary, false), ColumnModel::Binary(spans.map_values(|s: Span| Some(s.trace_id@)))),
        (fm("span_id"@, DataType::Binary, false), ColumnModel::Binary(spans.map_values(|s: Span| Some(s.span_id@)))),
        (fm("trace_state"@, DataType::Utf8, true), ColumnModel::Utf8(spans.map_values(|s: Span| opt_view(s.trace_state)))),
        (fm("parent_span_id"@, DataType::Binary, true), ColumnModel::Binary(spans.map_values(|s: Span| opt_view(s.parent_span_id)))),
        (fm("name"@, DataType::Utf8, false), ColumnModel::Utf8(spans.map_values(|s: Span| Some(s.name@)))),
        (fm("kind"@, DataType::UInt8, true), ColumnModel::UInt8(spans.map_values(|s: Span| kind_cell(s.kind)))),
        (fm("dropped_attributes_count"@, DataType::UInt32, true), ColumnModel::UInt32(spans.map_values(|s: Span| s.dropped_attributes_count))),
        (fm("dropped_events_count"@, DataType::UInt32, true), ColumnModel::UInt32(spans.map_values(|s: Span| s.dropped_events_count))),
        (fm("dropped_links_count"@, DataType::UInt32, true), ColumnModel::UInt32(spans.map_values(|s: Span| s.dropped_links_count))),
    ]
}

/// The row indices `0..n`.
pub open spec fn row_ids(n: nat) -> Seq<Option<u32>> {
    Seq::new(n, |i: int| Some(i as u32))
}

/// The spans' `id` column: the row index of each span.
pub open spec fn id_entry(n: nat) -> Entry {
    (fm("id"@, DataType::UInt32, false), ColumnModel::UInt32(row_ids(n)))
}

/// The spans table built from rows: no column when there is no span; else
/// every fixed column, the `id` column when `gen_id`, then one column per
/// inferred attribute key.
pub open spec fn row_span_entries(spans: Seq<Span>, schema: SchemaModel, gen_id: bool) -> Seq<Entry> {
    if spans.len() == 0 {
        Seq::empty()
    } else {
        span_fixed_entries(spans) + (if gen_id {
            seq![id_entry(spans.len())]
        } else {
            Seq::empty()
        }) + row_attribute_entries(schema, spans.map_values(|s: Span| span_map(s)))
    }
}

fn row_ids_vec(n: usize) -> (r: Vec<u32>)
    requires
        n <= 0x1_0000_0000,
    ensures
        all_some(r@) == row_ids(n as nat),
{
    let mut r: Vec<u32> = Vec::new();
    let mut i: usize = 0;
    while i < n
        invariant
            i <= n,
            n <= 0x1_0000_0000,
            r@.len() == i,
            forall|j: int| 0 <= j < i ==> #[trigger] r@[j] == j as u32,
        decreases n - i,
    {
        r.push(i as u32);
        i += 1;
    }
    assert(all_some(r@) =~= row_ids(n as nat));
    r
}

/// Builds the spans table from rows, the attribute columns those of
/// `span_schema`; the `id` column is there when `gen_id_column`.
pub fn serialize_spans_from_row_oriented_data_source(
    span_schema: &EntitySchema,
    spans: &[Span],
    gen_id_column: bool,
) -> (r: Table)
    requires
        spans@.len() <= 0x1_0000_0000,
        schema_model(span_schema.attribute_fields@) == apply_all(Seq::empty(), span_kvs(spans@)),
    ensures
        r.well_formed(spans@.len()),
        r.entries() == row_span_entries(spans@, schema_model(span_schema.attribute_fields@), gen_id_column),
{
    let mut fields: Vec<Field> = Vec::new();
    let mut columns: Vec<Column> = Vec::new();
    let ghost maps = spans@.map_values(|s: Span| span_map(s));
    if spans.len() == 0 {
        let t = Table { fields, columns };
        proof {
            lemma_extends_none(Seq::empty(), Seq::empty());
            lemma_table_well_formed(t, Seq::empty(), 0);
        }
        return t;
    }
    let c = pivot_spans(spans, span_schema.attribute_fields.as_slice());
    let ghost sp = spans@;
    fields = vec![
        Field { name: String::from_str("start_time_unix_nano"), data_type: DataType::UInt64, nullable: false },
        Field { name: String::from_str("end_time_unix_nano"), data_type: DataType::UInt64, nullable: true },
        Field { name: String::from_str("trace_id"), data_type: DataType::Binary, nullable: false },
        Field { name: String::from_str("span_id"), data_type: DataType::Binary, nullable: false },
        Field { name: String::from_str("trace_state"), data_type: DataType::Utf8, nullable: true },
        Field { name: String::from_str("parent_span_id"), data_type: DataType::Binary, nullable: true },
        Field { name: String::from_str("name"), data_type: DataType::Utf8, nullable: false },
        Field { name: String::from_str("kind"), data_type: DataType::UInt8, nullable: true },
        Field { name: String::from_str("dropped_attributes_count"), data_type: DataType::UInt32, nullable: true },
        Field { name: String::from_str("dropped_events_count"), data_type: DataType::UInt32, nullable: true },
        Field { name: String::from_str("dropped_links_count"), data_type: DataType::UInt32, nullable: true },
    ];
    columns = vec![
        Column::UInt64(wrap_values(c.start_time_unix_nano_column.as_slice())),
        Column::UInt64(copy_options(c.end_time_unix_nano_column.as_slice())),
        Column::Binary(wrap_strings(c.trace_id_column.as_slice())),
        Column::Binary(wrap_strings(c.span_id_column.as_slice())),
        Column::Utf8(copy_strings(c.trace_state_column.as_slice())),
        Column::Binary(copy_strings(c.parent_span_id_column.as_slice())),
        Column::Utf8(wrap_strings(c.name_column.as_slice())),
        Column::UInt8(copy_options(c.kind_column.as_slice())),
        Column::UInt32(copy_options(c.dropped_attrs_count_column.as_slice())),
        Column::UInt32(copy_options(c.dropped_events_count_column.as_slice())),
        Column::UInt32(copy_options(c.dropped_links_count_column.as_slice())),
    ];
    let ghost fixed = span_fixed_entries(sp);
    proof {
        assert(all_some(c.start_time_unix_nano_column@) =~= sp.map_values(|s: Span| Some(s.start_time_unix_nano)));
        assert(c.end_time_unix_nano_column@ =~= sp.map_values(|s: Span| s.end_time_unix_nano));
        assert(all_some(crate::schema::string_views(c.trace_id_column@)) =~= sp.map_values(|s: Span| Some(s.trace_id@)));
        assert(all_some(crate::schema::string_views(c.span_id_column@)) =~= sp.map_values(|s: Span| Some(s.span_id@)));
        assert(opt_views(c.trace_state_column@) =~= sp.map_values(|s: Span| opt_view(s.trace_state)));
        assert(opt_views(c.parent_span_id_column@) =~= sp.map_values(|s: Span| opt_view(s.parent_span_id)));
        assert(all_some(crate::schema::string_views(c.name_column@)) =~= sp.map_values(|s: Span| Some(s.name@)));
        assert(c.kind_column@ =~= sp.map_values(|s: Span| kind_cell(s.kind)));
        assert(c.dropped_attrs_count_column@ =~= sp.map_values(|s: Span| s.dropped_attributes_count));
        assert(c.dropped_events_count_column@ =~= sp.map_values(|s: Span| s.dropped_events_count));
        assert(c.dropped_links_count_column@ =~= sp.map_values(|s: Span| s.dropped_links_count));
        assert(extends(Seq::empty(), fields@, Seq::empty(), columns@, fixed)) by {
            assert(fields@.take(0) =~= Seq::<Field>::empty());
            assert(columns@.take(0) =~= Seq::<Column>::empty());
        }
        assert(entries_well_formed(fixed, sp.len())) by {
            assert(!any_null(sp.map_values(|s: Span| Some(s.start_time_unix_nano))));
            assert(!any_null(sp.map_values(|s: Span| Some(s.trace_id@))));
            assert(!any_null(sp.map_values(|s: Span| Some(s.span_id@))));
            assert(!any_null(sp.map_values(|s: Span| Some(s.name@))));
        }
    }
    let ghost f1 = fields@;
    let ghost c1 = columns@;
    let ghost id_part: Seq<Entry> = if gen_id_column {
        seq![id_entry(sp.len())]
    } else {
        Seq::empty()
    };
    if gen_id_column {
        let ids = row_ids_vec(spans.len());
        fields.push(Field { name: String::from_str("id"), data_type: DataType::UInt32, nullable: false });
        columns.push(Column::UInt32(wrap_values(ids.as_slice())));
        proof {
            assert(appended(f1, fields@, c1, columns@, id_entry(sp.len()).0, id_entry(sp.len()).1)) by {
                assert(fields@.drop_last() =~= f1);
                assert(columns@.drop_last() =~= c1);
            }
            lemma_extends_one(f1, fields@, c1, columns@, id_entry(sp.len()).0, id_entry(sp.len()).1);
        }
    } else {
        proof {
            lemma_extends_none(f1, c1);
        }
    }
    proof {
        lemma_extends_trans(Seq::empty(), f1, fields@, Seq::empty(), c1, columns@, fixed, id_part);
        assert(!any_null(row_ids(sp.len())));
        assert(entries_well_formed(id_part, sp.len()));
    }
    let ghost f2 = fields@;
    let ghost c2 = columns@;
    proof {
        lemma_span_pairs(spans@);
        lemma_strings_inferred(span_kvs(spans@), span_maps(spans@));
        assert(maps =~= span_maps(spans@));
    }
    emit_row_attribute_columns(&c.attributes_column, span_schema.attribute_fields.as_slice(), Ghost(maps), &mut fields, &mut columns);
    let ghost attrs = row_attribute_entries(schema_model(span_schema.attribute_fields@), maps);
    let t = Table { fields, columns };
    proof {
        lemma_extends_trans(Seq::empty(), f2, t.fields@, Seq::empty(), c2, t.columns@, fixed + id_part, attrs);
        lemma_row_attribute_entries_well_formed(schema_model(span_schema.attribute_fields@), maps);
        assert(maps.len() == sp.len());
        let all = fixed + id_part + attrs;
        assert(entries_well_formed(all, sp.len())) by {
            assert forall|i: int| 0 <= i < all.len() implies {
                &&& (#[trigger] all[i]).1.rows() == sp.len()
                &&& all[i].0.data_type == all[i].1.data_type()
                &&& !all[i].0.nullable ==> !all[i].1.has_null()
            } by {
                if i < fixed.len() {
                    assert(all[i] == fixed[i]);
                } else if i < fixed.len() + id_part.len() {
                    assert(all[i] == id_part[i - fixed.len()]);
                } else {
                    assert(all[i] == attrs[i - fixed.len() - id_part.len()]);
                }
            }
        }
        lemma_table_well_formed(t, all, sp.len() as nat);
    }
    t
}

/// The fixed columns of the events table, in schema order.
pub open spec fn event_fixed_entries(rows: Seq<(int, Event)>) -> Seq<Entry> {
    seq![
        (fm("id"@, DataType::UInt32, false), ColumnModel::UInt32(rows.map_values(|r: (int, Event)| Some(r.0 as u32)))),
        (fm("time_unix_nano"@, DataType::UInt64, false), ColumnModel::UInt64(rows.map_values(|r: (int, Event)| Some(r.1.time_unix_nano)))),
        (fm("name"@, DataType::Utf8, false), ColumnModel::Utf8(rows.map_values(|r: (int, Event)| Some(r.1.name@)))),
        (fm("dropped_attributes_count"@, DataType::UInt32, true), ColumnModel::UInt32(rows.map_values(|r: (int, Event)| r.1.dropped_attributes_count))),
    ]
}

/// The events table built from rows: no column when there is no event; else
/// the fixed columns then one column per inferred attribute key.
pub open spec fn row_event_entries(spans: Seq<Span>, schema: SchemaModel) -> Seq<Entry> {
    let rows = event_rows(spans);
    if rows.len() == 0 {
        Seq::empty()
    } else {
        event_fixed_entries(rows) + row_attribute_entries(
            schema,
            rows.map_values(|r: (int, Event)| r.1.attributes@),
        )
    }
}

/// The fixed columns of the links table, in schema order.
pub open spec fn link_fixed_entries(rows: Seq<(int, Link)>) -> Seq<Entry> {
    seq![
        (fm("id"@, DataType::UInt32, false), ColumnModel::UInt32(rows.map_values(|r: (int, Link)| Some(r.0 as u32)))),
        (fm("trace_id"@, DataType::Binary, false), ColumnModel::Binary(rows.map_values(|r: (int, Link)| Some(r.1.trace_id@)))),
        (fm("span_id"@, DataType::Binary, false), ColumnModel::Binary(rows.map_values(|r: (int, Link)| Some(r.1.span_id@)))),
        (fm("trace_state"@, DataType::Utf8, true), ColumnModel::Utf8(rows.map_values(|r: (int, Link)| opt_view(r.1.trace_state)))),
        (fm("dropped_attributes_count"@, DataType::UInt32, true), ColumnModel::UInt32(rows.map_values(|r: (int, Link)| r.1.dropped_attributes_count))),
    ]
}

/// The links table built from rows: no column when there is no link; else
/// the fixed columns then one column per inferred attribute key.
pub open spec fn row_link_entries(spans: Seq<Span>, schema: SchemaModel) -> Seq<Entry> {
    let rows = link_rows(spans);
    if rows.len() == 0 {
        Seq::empty()
    } else {
        link_fixed_entries(rows) + row_attribute_entries(
            schema,
            rows.map_values(|r: (int, Link)| r.1.attributes@),
        )
    }
}

/// Builds the events table from rows, the attribute columns those of `event_schema`.
pub fn serialize_events_from_row_oriented_data_source(event_schema: &EntitySchema, spans: &[Span]) -> (r: Table)
    requires
        spans@.len() <= 0x1_0000_0000,
        schema_model(event_schema.attribute_fields@) == apply_all(Seq::empty(), event_kvs(spans@)),
    ensures
        r.well_formed(event_rows(spans@).len()),
        r.entries() == row_event_entries(spans@, schema_model(event_schema.attribute_fields@)),
{
    let mut fields: Vec<Field> = Vec::new();
    let mut columns: Vec<Column> = Vec::new();
    let ghost rows = event_rows(spans@);
    let ghost maps = rows.map_values(|r: (int, Event)| r.1.attributes@);
    let c = pivot_events(spans, event_schema.attribute_fields.as_slice());
    if c.id_column.len() == 0 {
        let t = Table { fields, columns };
        proof {
            lemma_extends_none(Seq::empty(), Seq::empty());
            lemma_table_well_formed(t, Seq::empty(), 0);
        }
        return t;
    }
    fields = vec![
        Field { name: String::from_str("id"), data_type: DataType::UInt32, nullable: false },
        Field { name: String::from_str("time_unix_nano"), data_type: DataType::UInt64, nullable: false },
        Field { name: String::from_str("name"), data_type: DataType::Utf8, nullable: false },
        Field { name: String::from_str("dropped_attributes_count"), data_type: DataType::UInt32, nullable: true },
    ];
    columns = vec![
        Column::UInt32(wrap_values(c.id_column.as_slice())),
        Column::UInt64(wrap_values(c.time_unix_nano_column.as_slice())),
        Column::Utf8(wrap_strings(c.name_column.as_slice())),
        Column::UInt32(copy_options(c.dropped_attributes_count_column.as_slice())),
    ];
    let ghost fixed = event_fixed_entries(rows);
    proof {
        assert(all_some(c.id_column@) =~= rows.map_values(|r: (int, Event)| Some(r.0 as u32)));
        assert(all_some(c.time_unix_nano_column@) =~= rows.map_values(|r: (int, Event)| Some(r.1.time_unix_nano)));
        assert(all_some(crate::schema::string_views(c.name_column@)) =~= rows.map_values(|r: (int, Event)| Some(r.1.name@)));
        assert(c.dropped_attributes_count_column@ =~= rows.map_values(|r: (int, Event)| r.1.dropped_attributes_count));
        assert(extends(Seq::empty(), fields@, Seq::empty(), columns@, fixed)) by {
            assert(fields@.take(0) =~= Seq::<Field>::empty());
            assert(columns@.take(0) =~= Seq::<Column>::empty());
        }
        assert(entries_well_formed(fixed, rows.len())) by {
            assert(!any_null(rows.map_values(|r: (int, Event)| Some(r.0 as u32))));
            assert(!any_null(rows.map_values(|r: (int, Event)| Some(r.1.time_unix_nano))));
            assert(!any_null(rows.map_values(|r: (int, Event)| Some(r.1.name@))));
        }
    }

    let ghost f2 = fields@;
    let ghost c2 = columns@;
    proof {
        lemma_event_pairs(spans@);
        lemma_strings_inferred(event_kvs(spans@), event_row_maps(event_rows(spans@)));
        assert(maps =~= event_row_maps(event_rows(spans@)));
    }
    emit_row_attribute_columns(&c.attributes_column, event_schema.attribute_fields.as_slice(), Ghost(maps), &mut fields, &mut columns);
    let ghost attrs = row_attribute_entries(schema_model(event_schema.attribute_fields@), maps);
    let t = Table { fields, columns };
    proof {
        lemma_extends_trans(Seq::empty(), f2, t.fields@, Seq::empty(), c2, t.columns@, fixed, attrs);
        lemma_row_attribute_entries_well_formed(schema_model(event_schema.attribute_fields@), maps);
        assert(maps.len() == rows.len());
        let all = fixed + attrs;
        assert(entries_well_formed(all, rows.len())) by {
            assert forall|i: int| 0 <= i < all.len() implies {
                &&& (#[trigger] all[i]).1.rows() == rows.len()
                &&& all[i].0.data_type == all[i].1.data_type()
                &&& !all[i].0.nullable ==> !all[i].1.has_null()
            } by {
                if i < fixed.len() {
                    assert(all[i] == fixed[i]);
                } else {
                    assert(all[i] == attrs[i - fixed.len()]);
                }
            }
        }
        lemma_table_well_formed(t, all, rows.len());
    }
    t
}

/// Builds the links table from rows, the attribute columns those of `link_schema`.
pub fn serialize_links_from_row_oriented_data_source(link_schema: &EntitySchema, spans: &[Span]) -> (r: Table)
    requires
        spans@.len() <= 0x1_0000_0000,
        schema_model(link_schema.attribute_fields@) == apply_all(Seq::empty(), link_kvs(spans@)),
    ensures
        r.well_formed(link_rows(spans@).len()),
        r.entries() == row_link_entries(spans@, schema_model(link_schema.attribute_fields@)),
{
    let mut fields: Vec<Field> = Vec::new();
    let mut columns: Vec<Column> = Vec::new();
    let ghost rows = link_rows(spans@);
    let ghost maps = rows.map_values(|r: (int, Link)| r.1.attributes@);
    let c = pivot_links(spans, link_schema.attribute_fields.as_slice());
    if c.id_column.len() == 0 {
        let t = Table { fields, columns };
        proof {
            lemma_extends_none(Seq::empty(), Seq::empty());
            lemma_table_well_formed(t, Seq::empty(), 0);
        }
        return t;
    }
    fields = vec![
        Field { name: String::from_str("id"), data_type: DataType::UInt32, nullable: false },
        Field { name: String::from_str("trace_id"), data_type: DataType::Binary, nullable: false },
        Field { name: String::from_str("span_id"), data_type: DataType::Binary, nullable: false },
        Field { name: String::from_str("trace_state"), data_type: DataType::Utf8, nullable: true },
        Field { name: String::from_str("dropped_attributes_count"), data_type: DataType::UInt32, nullable: true },
    ];
    columns = vec![
        Column::UInt32(wrap_values(c.id_column.as_slice())),
        Column::Binary(wrap_strings(c.trace_id_column.as_slice())),
        Column::Binary(wrap_strings(c.span_id_column.as_slice())),
        Column::Utf8(copy_strings(c.trace_state_column.as_slice())),
        Column::UInt32(copy_options(c.dropped_attributes_count_column.as_slice())),
    ];
    let ghost fixed = link_fixed_entries(rows);
    proof {
        assert(all_some(c.id_column@) =~= rows.map_values(|r: (int, Link)| Some(r.0 as u32)));
        assert(all_some(crate::schema::string_views(c.trace_id_column@)) =~= rows.map_values(|r: (int, Link)| Some(r.1.trace_id@)));
        assert(all_some(crate::schema::string_views(c.span_id_column@)) =~= rows.map_values(|r: (int, Link)| Some(r.1.span_id@)));
        assert(opt_views(c.trace_state_column@) =~= rows.map_values(|r: (int, Link)| opt_view(r.1.trace_state)));
        assert(c.dropped_attributes_count_column@ =~= rows.map_values(|r: (int, Link)| r.1.dropped_attributes_count));
        assert(extends(Seq::empty(), fields@, Seq::empty(), columns@, fixed)) by {
            assert(fields@.take(0) =~= Seq::<Field>::empty());
            assert(columns@.take(0) =~= Seq::<Column>::empty());
        }
        assert(entries_well_formed(fixed, rows.len())) by {
            assert(!any_null(rows.map_values(|r: (int, Link)| Some(r.0 as u32))));
            assert(!any_null(rows.map_values(|r: (int, Link)| Some(r.1.trace_id@))));
            assert(!any_null(rows.map_values(|r: (int, Link)| Some(r.1.span_id@))));
        }
    }

    let ghost f2 = fields@;
    let ghost c2 = columns@;
    proof {
        lemma_link_pairs(spans@);
        lemma_strings_inferred(link_kvs(spans@), link_row_maps(link_rows(spans@)));
        assert(maps =~= link_row_maps(link_rows(spans@)));
    }
    emit_row_attribute_columns(&c.attributes_column, link_schema.attribute_fields.as_slice(), Ghost(maps), &mut fields, &mut columns);
    let ghost attrs = row_attribute_entries(schema_model(link_schema.attribute_fields@), maps);
    let t = Table { fields, columns };
    proof {
        lemma_extends_trans(Seq::empty(), f2, t.fields@, Seq::empty(), c2, t.columns@, fixed, attrs);
        lemma_row_attribute_entries_well_formed(schema_model(link_schema.attribute_fields@), maps);
        assert(maps.len() == rows.len());
        let all = fixed + attrs;
        assert(entries_well_formed(all, rows.len())) by {
            assert forall|i: int| 0 <= i < all.len() implies {
                &&& (#[trigger] all[i]).1.rows() == rows.len()
                &&& all[i].0.data_type == all[i].1.data_type()
                &&& !all[i].0.nullable ==> !all[i].1.has_null()
            } by {
                if i < fixed.len() {
                    assert(all[i] == fixed[i]);
                } else {
                    assert(all[i] == attrs[i - fixed.len()]);
                }
            }
        }
        lemma_table_well_formed(t, all, rows.len());
    }
    t
}

/// The column type that inference predicts for a key: strings dictionary-
/// encoded by `string_type` over every string the key took, keys of up to 32 bits.
pub open spec fn inferred_type(m: FieldInfoModel) -> DataType {
    match m.ty {
        FieldType::U64 => DataType::UInt64,
        FieldType::I64 => DataType::Int64,
        FieldType::F64 => DataType::Float64,
        FieldType::Bool => DataType::Boolean,
        FieldType::String => string_type(m.strings.to_set().len(), m.non_null, 32),
    }
}

/// The nullable fields that inference predicts, one per key, in order.
pub open spec fn inferred_fields(attribute_types: Seq<AttributeField>) -> Seq<FieldModel> {
    Seq::new(
        attribute_types.len(),
        |j: int|
            fm(
                attribute_column_name(attribute_types[j].name@),
                inferred_type(attribute_types[j].info.model()),
                true,
            ),
    )
}

fn inferred_data_type(info: &FieldInfo) -> (r: DataType)
    ensures
        r == inferred_type(info.model()),
{
    match info.field_type {
        FieldType::U64 => DataType::UInt64,
        FieldType::I64 => DataType::Int64,
        FieldType::F64 => DataType::Float64,
        FieldType::Bool => DataType::Boolean,
        FieldType::String => {
            let d = crate::schema::count_distinct(info.dictionary_values.as_slice());
            if info.is_dictionary() {
                match key_width(d) {
                    Some(w) => DataType::Dictionary(w),
                    None => DataType::Utf8,
                }
            } else {
                DataType::Utf8
            }
        },
    }
}

/// Appends the predicted field of every inferred key, in order.
pub fn add_attribute_fields(attribute_types: &[AttributeField], fields: &mut Vec<Field>)
    ensures
        final(fields)@.len() == old(fields)@.len() + attribute_types@.len(),
        final(fields)@.take(old(fields)@.len() as int) == old(fields)@,
        forall|j: int|
            0 <= j < attribute_types@.len() ==> (#[trigger] final(fields)@[old(fields)@.len() + j]).model()
                == inferred_fields(attribute_types@)[j],
{
    let ghost f0 = fields@;
    let n = attribute_types.len();
    let mut j: usize = 0;
    assert(fields@.take(f0.len() as int) =~= f0);
    while j < n
        invariant
            n == attribute_types@.len(),
            j <= n,
            fields@.len() == f0.len() + j,
            fields@.take(f0.len() as int) == f0,
            forall|q: int|
                0 <= q < j ==> (#[trigger] fields@[f0.len() + q]).model() == inferred_fields(
                    attribute_types@,
                )[q],
        decreases n - j,
    {
        let a = &attribute_types[j];
        let t = inferred_data_type(&a.info);
        let ghost before = fields@;
        fields.push(Field { name: attribute_name(&a.name), data_type: t, nullable: true });
        assert(fields@.take(f0.len() as int) =~= before.take(f0.len() as int));
        assert forall|q: int| 0 <= q < j + 1 implies (#[trigger] fields@[f0.len() + q]).model()
            == inferred_fields(attribute_types@)[q] by {
            if q < j {
                assert(fields@[f0.len() + q] == before[f0.len() + q]);
            }
        }
        j += 1;
    }
}

/// The fields of the spans table that do not depend on attributes.
pub open spec fn span_schema_fields(gen_id: bool) -> Seq<FieldModel> {
    seq![
        fm("start_time_unix_nano"@, DataType::UInt64, false),
        fm("end_time_unix_nano"@, DataType::UInt64, true),
        fm("trace_id"@, DataType::Binary, false),
        fm("span_id"@, DataType::Binary, false),
        fm("trace_state"@, DataType::Utf8, true),
        fm("parent_span_id"@, DataType::Binary, true),
        fm("name"@, DataType::Utf8, false),
        fm("kind"@, DataType::UInt8, true),
        fm("dropped_attributes_count"@, DataType::UInt32, true),
        fm("dropped_events_count"@, DataType::UInt32, true),
        fm("dropped_links_count"@, DataType::UInt32, true),
    ] + if gen_id {
        seq![fm("id"@, DataType::UInt32, false)]
    } else {
        Seq::empty()
    }
}

/// The fields of the events table that do not depend on attributes.
pub open spec fn event_schema_fields() -> Seq<FieldModel> {
    seq![
        fm("id"@, DataType::UInt32, false),
        fm("time_unix_nano"@, DataType::UInt64, false),
        fm("name"@, DataType::Utf8, false),
        fm("dropped_attributes_count"@, DataType::UInt32, true),
    ]
}

/// The fields of the links table that do not depend on attributes.
pub open spec fn link_schema_fields() -> Seq<FieldModel> {
    seq![
        fm("id"@, DataType::UInt32, false),
        fm("trace_id"@, DataType::Binary, false),
        fm("span_id"@, DataType::Binary, false),
        fm("trace_state"@, DataType::Utf8, true),
        fm("dropped_attributes_count"@, DataType::UInt32, true),
    ]
}

pub open spec fn field_models(fields: Seq<Field>) -> Seq<FieldModel> {
    fields.map_values(|f: Field| f.model())
}

proof fn lemma_fields_then_attributes(
    f0: Seq<Field>,
    f1: Seq<Field>,
    fixed: Seq<FieldModel>,
    attribute_types: Seq<AttributeField>,
)
    requires
        field_models(f0) == fixed,
        f1.len() == f0.len() + attribute_types.len(),
        f1.take(f0.len() as int) == f0,
        forall|j: int|
            0 <= j < attribute_types.len() ==> (#[trigger] f1[f0.len() + j]).model()
                == inferred_fields(attribute_types)[j],
    ensures
        field_models(f1) == fixed + inferred_fields(attribute_types),
{
    assert forall|i: int| 0 <= i < f1.len() implies field_models(f1)[i] == (fixed + inferred_fields(
        attribute_types,
    ))[i] by {
        if i < f0.len() {
            assert(f1[i] == f1.take(f0.len() as int)[i]);
        } else {
            assert(f1[f0.len() + (i - f0.len())] == f1[i]);
        }
    }
    assert(field_models(f1) =~= fixed + inferred_fields(attribute_types));
}

/// Infers the schema of the spans table; `gen_id_column` adds the `id` field.
pub fn infer_span_schema(spans: &[Span], gen_id_column: bool) -> (r: EntitySchema)
    requires
        span_kvs(spans@).len() <= usize::MAX,
    ensures
        schema_model(r.attribute_fields@) == apply_all(Seq::empty(), span_kvs(spans@)),
        field_models(r.fields@) == span_schema_fields(gen_id_column) + inferred_fields(r.attribute_fields@),
{
    let mut fields: Vec<Field> = vec![
        Field { name: String::from_str("start_time_unix_nano"), data_type: DataType::UInt64, nullable: false },
        Field { name: String::from_str("end_time_unix_nano"), data_type: DataType::UInt64, nullable: true },
        Field { name: String::from_str("trace_id"), data_type: DataType::Binary, nullable: false },
        Field { name: String::from_str("span_id"), data_type: DataType::Binary, nullable: false },
        Field { name: String::from_str("trace_state"), data_type: DataType::Utf8, nullable: true },
        Field { name: String::from_str("parent_span_id"), data_type: DataType::Binary, nullable: true },
        Field { name: String::from_str("name"), data_type: DataType::Utf8, nullable: false },
        Field { name: String::from_str("kind"), data_type: DataType::UInt8, nullable: true },
        Field { name: String::from_str("dropped_attributes_count"), data_type: DataType::UInt32, nullable: true },
        Field { name: String::from_str("dropped_events_count"), data_type: DataType::UInt32, nullable: true },
        Field { name: String::from_str("dropped_links_count"), data_type: DataType::UInt32, nullable: true },
    ];
    if gen_id_column {
        fields.push(Field { name: String::from_str("id"), data_type: DataType::UInt32, nullable: false });
    }
    assert(field_models(fields@) =~= span_schema_fields(gen_id_column));
    let ghost f0 = fields@;
    let attribute_types = infer_span_attribute_schema(spans);
    add_attribute_fields(attribute_types.as_slice(), &mut fields);
    proof {
        lemma_fields_then_attributes(f0, fields@, span_schema_fields(gen_id_column), attribute_types@);
    }
    EntitySchema { fields, attribute_fields: attribute_types }
}

/// Infers the schema of the events table, and counts the events.
pub fn infer_event_schema(spans: &[Span]) -> (r: (EntitySchema, usize))
    requires
        event_kvs(spans@).len() <= usize::MAX,
        crate::model::event_count(spans@) <= usize::MAX,
    ensures
        r.1 == crate::model::event_count(spans@),
        schema_model(r.0.attribute_fields@) == apply_all(Seq::empty(), event_kvs(spans@)),
        field_models(r.0.fields@) == event_schema_fields() + inferred_fields(r.0.attribute_fields@),
{
    let mut fields: Vec<Field> = vec![
        Field { name: String::from_str("id"), data_type: DataType::UInt32, nullable: false },
        Field { name: String::from_str("time_unix_nano"), data_type: DataType::UInt64, nullable: false },
        Field { name: String::from_str("name"), data_type: DataType::Utf8, nullable: false },
        Field { name: String::from_str("dropped_attributes_count"), data_type: DataType::UInt32, nullable: true },
    ];
    assert(field_models(fields@) =~= event_schema_fields());
    let ghost f0 = fields@;
    let (event_count, attribute_types) = infer_event_attribute_schema(spans);
    add_attribute_fields(attribute_types.as_slice(), &mut fields);
    proof {
        lemma_fields_then_attributes(f0, fields@, event_schema_fields(), attribute_types@);
    }
    (EntitySchema { fields, attribute_fields: attribute_types }, event_count)
}

/// Infers the schema of the links table, and counts the links.
pub fn infer_link_schema(spans: &[Span]) -> (r: (EntitySchema, usize))
    requires
        link_kvs(spans@).len() <= usize::MAX,
        crate::model::link_count(spans@) <= usize::MAX,
    ensures
        r.1 == crate::model::link_count(spans@),
        schema_model(r.0.attribute_fields@) == apply_all(Seq::empty(), link_kvs(spans@)),
        field_models(r.0.fields@) == link_schema_fields() + inferred_fields(r.0.attribute_fields@),
{
    let mut fields: Vec<Field> = vec![
        Field { name: String::from_str("id"), data_type: DataType::UInt32, nullable: false },
        Field { name: String::from_str("trace_id"), data_type: DataType::Binary, nullable: false },
        Field { name: String::from_str("span_id"), data_type: DataType::Binary, nullable: false },
        Field { name: String::from_str("trace_state"), data_type: DataType::Utf8, nullable: true },
        Field { name: String::from_str("dropped_attributes_count"), data_type: DataType::UInt32, nullable: true },
    ];
    assert(field_models(fields@) =~= link_schema_fields());
    let ghost f0 = fields@;
    let (link_count, attribute_types) = infer_link_attribute_schema(spans);
    add_attribute_fields(attribute_types.as_slice(), &mut fields);
    proof {
        lemma_fields_then_attributes(f0, fields@, link_schema_fields(), attribute_types@);
    }
    (EntitySchema { fields, attribute_fields: attribute_types }, link_count)
}

pub open spec fn emitted_if(b: bool, e: Entry) -> Seq<Entry> {
    if b {
        seq![e]
    } else {
        Seq::empty()
    }
}

/// What `string_nullable_field` emits.
pub open spec fn nullable_string_entries(name: Seq<char>, data: Seq<Option<String>>) -> Seq<Entry> {
    let v = opt_views(data);
    let p = present(v);
    let t = string_type(p.to_set().len(), p.len(), 16);
    emitted_if(!all_null(data), (fm(name, t, any_null(data)), string_column(t, v)))
}

/// What `string_non_nullable_field` emits.
pub open spec fn required_string_entries(name: Seq<char>, data: Seq<String>) -> Seq<Entry> {
    let s = string_views(data);
    let t = string_type(s.to_set().len(), data.len(), 16);
    emitted_if(data.len() > 0, (fm(name, t, false), string_column(t, all_some(s))))
}

proof fn lemma_step(f0: Seq<Field>, f1: Seq<Field>, c0: Seq<Column>, c1: Seq<Column>, e: Seq<Entry>)
    requires
        e.len() == 0 ==> f1 == f0 && c1 == c0,
        e.len() == 1 ==> appended(f0, f1, c0, c1, e[0].0, e[0].1),
        e.len() <= 1,
    ensures
        extends(f0, f1, c0, c1, e),
{
    if e.len() == 0 {
        lemma_extends_none(f0, c0);
        assert(e =~= Seq::<Entry>::empty());
    } else {
        lemma_extends_one(f0, f1, c0, c1, e[0].0, e[0].1);
        assert(e =~= seq![(e[0].0, e[0].1)]);
    }
}

proof fn lemma_entries_wf_concat(a: Seq<Entry>, b: Seq<Entry>, n: nat)
    requires
        entries_well_formed(a, n),
        entries_well_formed(b, n),
    ensures
        entries_well_formed(a + b, n),
{
    let e = a + b;
    assert forall|i: int| 0 <= i < e.len() implies {
        &&& (#[trigger] e[i]).1.rows() == n
        &&& e[i].0.data_type == e[i].1.data_type()
        &&& !e[i].0.nullable ==> !e[i].1.has_null()
    } by {
        if i < a.len() {
            assert(e[i] == a[i]);
        } else {
            assert(e[i] == b[i - a.len()]);
        }
    }
}

proof fn lemma_string_column_type(t: DataType, v: Seq<Option<Seq<char>>>, d: nat, m: nat, cap: nat)
    requires
        t == string_type(d, m, cap),
    ensures
        string_column(t, v).data_type() == t,
        string_column(t, v).rows() == v.len(),
        string_column(t, v).has_null() == any_null(v),
{
}

proof fn lemma_nullable_string_entries_wf(name: Seq<char>, data: Seq<Option<String>>, n: nat)
    requires
        data.len() == n,
    ensures
        entries_well_formed(nullable_string_entries(name, data), n),
{
    let v = opt_views(data);
    let p = present(v);
    let t = string_type(p.to_set().len(), p.len(), 16);
    lemma_string_column_type(t, v, p.to_set().len(), p.len(), 16);
    lemma_any_null_views(data);
}

proof fn lemma_required_string_entries_wf(name: Seq<char>, data: Seq<String>, n: nat)
    requires
        data.len() == n,
    ensures
        entries_well_formed(required_string_entries(name, data), n),
{
    let s = string_views(data);
    let t = string_type(s.to_set().len(), data.len(), 16);
    lemma_string_column_type(t, all_some(s), s.to_set().len(), data.len(), 16);
    assert(!any_null(all_some(s)));
}

proof fn lemma_attribute_entries_aligned_wf(cols: Seq<AttributeColumn>, always_nullable: bool, n: nat)
    requires
        attribute_columns_aligned(cols, n),
    ensures
        entries_well_formed(attribute_entries(cols, always_nullable), n),
{
    let e = attribute_entries(cols, always_nullable);
    assert forall|i: int| 0 <= i < e.len() implies {
        &&& (#[trigger] e[i]).1.rows() == n
        &&& e[i].0.data_type == e[i].1.data_type()
        &&& !e[i].0.nullable ==> !e[i].1.has_null()
    } by {
        assert(cols[i].column.wf());
        match cols[i].column.model() {
            DataColumnModel::Str(v) => {
                let t = string_type(present(v).to_set().len(), present(v).len(), 32);
                lemma_string_column_type(t, v, present(v).to_set().len(), present(v).len(), 32);
            },
            _ => {},
        }
    }
}

/// The events table built from pivoted columns: each fixed field through its
/// emission helper, then every attribute column.
pub open spec fn column_event_entries(c: EventDataColumns) -> Seq<Entry> {
    emitted_if(c.id_column@.len() > 0, (fm("id"@, DataType::UInt32, false), ColumnModel::UInt32(all_some(c.id_column@))))
    + emitted_if(c.time_unix_nano_column@.len() > 0, (fm("time_unix_nano"@, DataType::UInt64, false), ColumnModel::UInt64(all_some(c.time_unix_nano_column@))))
    + required_string_entries("name"@, c.name_column@)
    + emitted_if(!all_null(c.dropped_attributes_count_column@), (fm("dropped_attributes_count"@, DataType::UInt32, any_null(c.dropped_attributes_count_column@)), ColumnModel::UInt32(c.dropped_attributes_count_column@)))
    + attribute_entries(c.attributes_column@, false)
}

proof fn lemma_column_event_entries_well_formed(c: EventDataColumns, n: nat)
    requires
        c.aligned(n),
    ensures
        entries_well_formed(column_event_entries(c), n),
{
    let mut acc: Seq<Entry> = Seq::empty();
    assert(entries_well_formed(emitted_if(c.id_column@.len() > 0, (fm("id"@, DataType::UInt32, false), ColumnModel::UInt32(all_some(c.id_column@)))), n)) by { assert(!any_null(all_some(c.id_column@))); }
    lemma_entries_wf_concat(acc, emitted_if(c.id_column@.len() > 0, (fm("id"@, DataType::UInt32, false), ColumnModel::UInt32(all_some(c.id_column@)))), n);
    acc = acc + emitted_if(c.id_column@.len() > 0, (fm("id"@, DataType::UInt32, false), ColumnModel::UInt32(all_some(c.id_column@))));
    assert(entries_well_formed(emitted_if(c.time_unix_nano_column@.len() > 0, (fm("time_unix_nano"@, DataType::UInt64, false), ColumnModel::UInt64(all_some(c.time_unix_nano_column@)))), n)) by { assert(!any_null(all_some(c.time_unix_nano_column@))); }
    lemma_entries_wf_concat(acc, emitted_if(c.time_unix_nano_column@.len() > 0, (fm("time_unix_nano"@, DataType::UInt64, false), ColumnModel::UInt64(all_some(c.time_unix_nano_column@)))), n);
    acc = acc + emitted_if(c.time_unix_nano_column@.len() > 0, (fm("time_unix_nano"@, DataType::UInt64, false), ColumnModel::UInt64(all_some(c.time_unix_nano_column@))));
    lemma_required_string_entries_wf("name"@, c.name_column@, n);
    lemma_entries_wf_concat(acc, required_string_entries("name"@, c.name_column@), n);
    acc = acc + required_string_entries("name"@, c.name_column@);
    assert(entries_well_formed(emitted_if(!all_null(c.dropped_attributes_count_column@), (fm("dropped_attributes_count"@, DataType::UInt32, any_null(c.dropped_attributes_count_column@)), ColumnModel::UInt32(c.dropped_attributes_count_column@))), n));
    lemma_entries_wf_concat(acc, emitted_if(!all_null(c.dropped_attributes_count_column@), (fm("dropped_attributes_count"@, DataType::UInt32, any_null(c.dropped_attributes_count_column@)), ColumnModel::UInt32(c.dropped_attributes_count_column@))), n);
    acc = acc + emitted_if(!all_null(c.dropped_attributes_count_column@), (fm("dropped_attributes_count"@, DataType::UInt32, any_null(c.dropped_attributes_count_column@)), ColumnModel::UInt32(c.dropped_attributes_count_column@)));
    lemma_attribute_entries_aligned_wf(c.attributes_column@, false, n);
    lemma_entries_wf_concat(acc, attribute_entries(c.attributes_column@, false), n);
    assert(acc + attribute_entries(c.attributes_column@, false) =~= column_event_entries(c));
}

/// Builds the events table from pivoted columns.
pub fn serialize_events_from_column_oriented_data_source(data_columns: &DataColumns) -> (r: Table)
    requires
        data_columns.events.aligned(data_columns.events.id_column@.len()),
    ensures
        r.entries() == column_event_entries(data_columns.events),
        r.well_formed(data_columns.events.id_column@.len()),
{
    let c = &data_columns.events;
    let ghost n = c.id_column@.len();
    let mut fields: Vec<Field> = Vec::new();
    let mut columns: Vec<Column> = Vec::new();
    let ghost mut acc: Seq<Entry> = Seq::empty();
    proof {
        lemma_extends_none(Seq::empty(), Seq::empty());
    }    let ghost f1 = fields@;
    let ghost c1 = columns@;
    u32_non_nullable_field("id", c.id_column.as_slice(), &mut fields, &mut columns);
    proof {
        lemma_step(f1, fields@, c1, columns@, emitted_if(c.id_column@.len() > 0, (fm("id"@, DataType::UInt32, false), ColumnModel::UInt32(all_some(c.id_column@)))));
        lemma_extends_trans(Seq::empty(), f1, fields@, Seq::empty(), c1, columns@, acc, emitted_if(c.id_column@.len() > 0, (fm("id"@, DataType::UInt32, false), ColumnModel::UInt32(all_some(c.id_column@)))));
        acc = acc + emitted_if(c.id_column@.len() > 0, (fm("id"@, DataType::UInt32, false), ColumnModel::UInt32(all_some(c.id_column@))));
    }    let ghost f1 = fields@;
    let ghost c1 = columns@;
    u64_non_nullable_field("time_unix_nano", c.time_unix_nano_column.as_slice(), &mut fields, &mut columns);
    proof {
        lemma_step(f1, fields@, c1, columns@, emitted_if(c.time_unix_nano_column@.len() > 0, (fm("time_unix_nano"@, DataType::UInt64, false), ColumnModel::UInt64(all_some(c.time_unix_nano_column@)))));
        lemma_extends_trans(Seq::empty(), f1, fields@, Seq::empty(), c1, columns@, acc, emitted_if(c.time_unix_nano_column@.len() > 0, (fm("time_unix_nano"@, DataType::UInt64, false), ColumnModel::UInt64(all_some(c.time_unix_nano_column@)))));
        acc = acc + emitted_if(c.time_unix_nano_column@.len() > 0, (fm("time_unix_nano"@, DataType::UInt64, false), ColumnModel::UInt64(all_some(c.time_unix_nano_column@))));
    }    let ghost f1 = fields@;
    let ghost c1 = columns@;
    string_non_nullable_field("name", c.name_column.as_slice(), &mut fields, &mut columns);
    proof {
        lemma_step(f1, fields@, c1, columns@, required_string_entries("name"@, c.name_column@));
        lemma_extends_trans(Seq::empty(), f1, fields@, Seq::empty(), c1, columns@, acc, required_string_entries("name"@, c.name_column@));
        acc = acc + required_string_entries("name"@, c.name_column@);
    }    let ghost f1 = fields@;
    let ghost c1 = columns@;
    u32_nullable_field("dropped_attributes_count", c.dropped_attributes_count_column.as_slice(), &mut fields, &mut columns);
    proof {
        lemma_step(f1, fields@, c1, columns@, emitted_if(!all_null(c.dropped_attributes_count_column@), (fm("dropped_attributes_count"@, DataType::UInt32, any_null(c.dropped_attributes_count_column@)), ColumnModel::UInt32(c.dropped_attributes_count_column@))));
        lemma_extends_trans(Seq::empty(), f1, fields@, Seq::empty(), c1, columns@, acc, emitted_if(!all_null(c.dropped_attributes_count_column@), (fm("dropped_attributes_count"@, DataType::UInt32, any_null(c.dropped_attributes_count_column@)), ColumnModel::UInt32(c.dropped_attributes_count_column@))));
        acc = acc + emitted_if(!all_null(c.dropped_attributes_count_column@), (fm("dropped_attributes_count"@, DataType::UInt32, any_null(c.dropped_attributes_count_column@)), ColumnModel::UInt32(c.dropped_attributes_count_column@)));
    }    let ghost f1 = fields@;
    let ghost c1 = columns@;
    emit_attribute_columns(&c.attributes_column, false, &mut fields, &mut columns);
    let t = Table { fields, columns };
    proof {
        let e = attribute_entries(c.attributes_column@, false);
        lemma_extends_trans(Seq::empty(), f1, t.fields@, Seq::empty(), c1, t.columns@, acc, e);
        acc = acc + e;
        assert(acc =~= column_event_entries(*c));
        lemma_column_event_entries_well_formed(*c, n);
        lemma_table_well_formed(t, acc, n);
    }
    t
}

/// The links table built from pivoted columns: each fixed field through its
/// emission helper, then every attribute column.
pub open spec fn column_link_entries(c: LinkDataColumns) -> Seq<Entry> {
    emitted_if(c.id_column@.len() > 0, (fm("id"@, DataType::UInt32, false), ColumnModel::UInt32(all_some(c.id_column@))))
    + emitted_if(c.trace_id_column@.len() > 0, (fm("trace_id"@, DataType::Binary, false), ColumnModel::Binary(all_some(string_views(c.trace_id_column@)))))
    + emitted_if(c.span_id_column@.len() > 0, (fm("span_id"@, DataType::Binary, false), ColumnModel::Binary(all_some(string_views(c.span_id_column@)))))
    + nullable_string_entries("trace_state"@, c.trace_state_column@)
    + emitted_if(!all_null(c.dropped_attributes_count_column@), (fm("dropped_attributes_count"@, DataType::UInt32, any_null(c.dropped_attributes_count_column@)), ColumnModel::UInt32(c.dropped_attributes_count_column@)))
    + attribute_entries(c.attributes_column@, false)
}

proof fn lemma_column_link_entries_well_formed(c: LinkDataColumns, n: nat)
    requires
        c.aligned(n),
    ensures
        entries_well_formed(column_link_entries(c), n),
{
    let mut acc: Seq<Entry> = Seq::empty();
    assert(entries_well_formed(emitted_if(c.id_column@.len() > 0, (fm("id"@, DataType::UInt32, false), ColumnModel::UInt32(all_some(c.id_column@)))), n)) by { assert(!any_null(all_some(c.id_column@))); }
    lemma_entries_wf_concat(acc, emitted_if(c.id_column@.len() > 0, (fm("id"@, DataType::UInt32, false), ColumnModel::UInt32(all_some(c.id_column@)))), n);
    acc = acc + emitted_if(c.id_column@.len() > 0, (fm("id"@, DataType::UInt32, false), ColumnModel::UInt32(all_some(c.id_column@))));
    assert(entries_well_formed(emitted_if(c.trace_id_column@.len() > 0, (fm("trace_id"@, DataType::Binary, false), ColumnModel::Binary(all_some(string_views(c.trace_id_column@))))), n)) by { assert(!any_null(all_some(string_views(c.trace_id_column@)))); }
    lemma_entries_wf_concat(acc, emitted_if(c.trace_id_column@.len() > 0, (fm("trace_id"@, DataType::Binary, false), ColumnModel::Binary(all_some(string_views(c.trace_id_column@))))), n);
    acc = acc + emitted_if(c.trace_id_column@.len() > 0, (fm("trace_id"@, DataType::Binary, false), ColumnModel::Binary(all_some(string_views(c.trace_id_column@)))));
    assert(entries_well_formed(emitted_if(c.span_id_column@.len() > 0, (fm("span_id"@, DataType::Binary, false), ColumnModel::Binary(all_some(string_views(c.span_id_column@))))), n)) by { assert(!any_null(all_some(string_views(c.span_id_column@)))); }
    lemma_entries_wf_concat(acc, emitted_if(c.span_id_column@.len() > 0, (fm("span_id"@, DataType::Binary, false), ColumnModel::Binary(all_some(string_views(c.span_id_column@))))), n);
    acc = acc + emitted_if(c.span_id_column@.len() > 0, (fm("span_id"@, DataType::Binary, false), ColumnModel::Binary(all_some(string_views(c.span_id_column@)))));
    lemma_nullable_string_entries_wf("trace_state"@, c.trace_state_column@, n);
    lemma_entries_wf_concat(acc, nullable_string_entries("trace_state"@, c.trace_state_column@), n);
    acc = acc + nullable_string_entries("trace_state"@, c.trace_state_column@);
    assert(entries_well_formed(emitted_if(!all_null(c.dropped_attributes_count_column@), (fm("dropped_attributes_count"@, DataType::UInt32, any_null(c.dropped_attributes_count_column@)), ColumnModel::UInt32(c.dropped_attributes_count_column@))), n));
    lemma_entries_wf_concat(acc, emitted_if(!all_null(c.dropped_attributes_count_column@), (fm("dropped_attributes_count"@, DataType::UInt32, any_null(c.dropped_attributes_count_column@)), ColumnModel::UInt32(c.dropped_attributes_count_column@))), n);
    acc = acc + emitted_if(!all_null(c.dropped_attributes_count_column@), (fm("dropped_attributes_count"@, DataType::UInt32, any_null(c.dropped_attributes_count_column@)), ColumnModel::UInt32(c.dropped_attributes_count_column@)));
    lemma_attribute_entries_aligned_wf(c.attributes_column@, false, n);
    lemma_entries_wf_concat(acc, attribute_entries(c.attributes_column@, false), n);
    assert(acc + attribute_entries(c.attributes_column@, false) =~= column_link_entries(c));
}

/// Builds the links table from pivoted columns.
pub fn serialize_links_from_column_oriented_data_source(data_columns: &DataColumns) -> (r: Table)
    requires
        data_columns.links.aligned(data_columns.links.id_column@.len()),
    ensures
        r.entries() == column_link_entries(data_columns.links),
        r.well_formed(data_columns.links.id_column@.len()),
{
    let c = &data_columns.links;
    let ghost n = c.id_column@.len();
    let mut fields: Vec<Field> = Vec::new();
    let mut columns: Vec<Column> = Vec::new();
    let ghost mut acc: Seq<Entry> = Seq::empty();
    proof {
        lemma_extends_none(Seq::empty(), Seq::empty());
    }    let ghost f1 = fields@;
    let ghost c1 = columns@;
    u32_non_nullable_field("id", c.id_column.as_slice(), &mut fields, &mut columns);
    proof {
        lemma_step(f1, fields@, c1, columns@, emitted_if(c.id_column@.len() > 0, (fm("id"@, DataType::UInt32, false), ColumnModel::UInt32(all_some(c.id_column@)))));
        lemma_extends_trans(Seq::empty(), f1, fields@, Seq::empty(), c1, columns@, acc, emitted_if(c.id_column@.len() > 0, (fm("id"@, DataType::UInt32, false), ColumnModel::UInt32(all_some(c.id_column@)))));
        acc = acc + emitted_if(c.id_column@.len() > 0, (fm("id"@, DataType::UInt32, false), ColumnModel::UInt32(all_some(c.id_column@))));
    }    let ghost f1 = fields@;
    let ghost c1 = columns@;
    binary_non_nullable_field("trace_id", c.trace_id_column.as_slice(), &mut fields, &mut columns);
    proof {
        lemma_step(f1, fields@, c1, columns@, emitted_if(c.trace_id_column@.len() > 0, (fm("trace_id"@, DataType::Binary, false), ColumnModel::Binary(all_some(string_views(c.trace_id_column@))))));
        lemma_extends_trans(Seq::empty(), f1, fields@, Seq::empty(), c1, columns@, acc, emitted_if(c.trace_id_column@.len() > 0, (fm("trace_id"@, DataType::Binary, false), ColumnModel::Binary(all_some(string_views(c.trace_id_column@))))));
        acc = acc + emitted_if(c.trace_id_column@.len() > 0, (fm("trace_id"@, DataType::Binary, false), ColumnModel::Binary(all_some(string_views(c.trace_id_column@)))));
    }    let ghost f1 = fields@;
    let ghost c1 = columns@;
    binary_non_nullable_field("span_id", c.span_id_column.as_slice(), &mut fields, &mut columns);
    proof {
        lemma_step(f1, fields@, c1, columns@, emitted_if(c.span_id_column@.len() > 0, (fm("span_id"@, DataType::Binary, false), ColumnModel::Binary(all_some(string_views(c.span_id_column@))))));
        lemma_extends_trans(Seq::empty(), f1, fields@, Seq::empty(), c1, columns@, acc, emitted_if(c.span_id_column@.len() > 0, (fm("span_id"@, DataType::Binary, false), ColumnModel::Binary(all_some(string_views(c.span_id_column@))))));
        acc = acc + emitted_if(c.span_id_column@.len() > 0, (fm("span_id"@, DataType::Binary, false), ColumnModel::Binary(all_some(string_views(c.span_id_column@)))));
    }    let ghost f1 = fields@;
    let ghost c1 = columns@;
    string_nullable_field("trace_state", c.trace_state_column.as_slice(), &mut fields, &mut columns);
    proof {
        lemma_step(f1, fields@, c1, columns@, nullable_string_entries("trace_state"@, c.trace_state_column@));
        lemma_extends_trans(Seq::empty(), f1, fields@, Seq::empty(), c1, columns@, acc, nullable_string_entries("trace_state"@, c.trace_state_column@));
        acc = acc + nullable_string_entries("trace_state"@, c.trace_state_column@);
    }    let ghost f1 = fields@;
    let ghost c1 = columns@;
    u32_nullable_field("dropped_attributes_count", c.dropped_attributes_count_column.as_slice(), &mut fields, &mut columns);
    proof {
        lemma_step(f1, fields@, c1, columns@, emitted_if(!all_null(c.dropped_attributes_count_column@), (fm("dropped_attributes_count"@, DataType::UInt32, any_null(c.dropped_attributes_count_column@)), ColumnModel::UInt32(c.dropped_attributes_count_column@))));
        lemma_extends_trans(Seq::empty(), f1, fields@, Seq::empty(), c1, columns@, acc, emitted_if(!all_null(c.dropped_attributes_count_column@), (fm("dropped_attributes_count"@, DataType::UInt32, any_null(c.dropped_attributes_count_column@)), ColumnModel::UInt32(c.dropped_attributes_count_column@))));
        acc = acc + emitted_if(!all_null(c.dropped_attributes_count_column@), (fm("dropped_attributes_count"@, DataType::UInt32, any_null(c.dropped_attributes_count_column@)), ColumnModel::UInt32(c.dropped_attributes_count_column@)));
    }    let ghost f1 = fields@;
    let ghost c1 = columns@;
    emit_attribute_columns(&c.attributes_column, false, &mut fields, &mut columns);
    let t = Table { fields, columns };
    proof {
        let e = attribute_entries(c.attributes_column@, false);
        lemma_extends_trans(Seq::empty(), f1, t.fields@, Seq::empty(), c1, t.columns@, acc, e);
        acc = acc + e;
        assert(acc =~= column_link_entries(*c));
        lemma_column_link_entries_well_formed(*c, n);
        lemma_table_well_formed(t, acc, n);
    }
    t
}

pub open spec fn span_entries_head(c: SpanDataColumns) -> Seq<Entry> {
    emitted_if(c.start_time_unix_nano_column@.len() > 0, (fm("start_time_unix_nano"@, DataType::UInt64, false), ColumnModel::UInt64(all_some(c.start_time_unix_nano_column@))))
    + emitted_if(!all_null(c.end_time_unix_nano_column@), (fm("end_time_unix_nano"@, DataType::UInt64, any_null(c.end_time_unix_nano_column@)), ColumnModel::UInt64(c.end_time_unix_nano_column@)))
    + emitted_if(c.trace_id_column@.len() > 0, (fm("trace_id"@, DataType::Binary, false), ColumnModel::Binary(all_some(string_views(c.trace_id_column@)))))
    + emitted_if(c.span_id_column@.len() > 0, (fm("span_id"@, DataType::Binary, false), ColumnModel::Binary(all_some(string_views(c.span_id_column@)))))
    + nullable_string_entries("trace_state"@, c.trace_state_column@)
    + emitted_if(!all_null(c.parent_span_id_column@), (fm("parent_span_id"@, DataType::Binary, any_null(c.parent_span_id_column@)), ColumnModel::Binary(opt_views(c.parent_span_id_column@))))
}

proof fn lemma_span_entries_head_well_formed(c: SpanDataColumns, n: nat)
    requires
        c.aligned(n),
    ensures
        entries_well_formed(span_entries_head(c), n),
{
    let mut acc: Seq<Entry> = Seq::empty();
    assert(entries_well_formed(emitted_if(c.start_time_unix_nano_column@.len() > 0, (fm("start_time_unix_nano"@, DataType::UInt64, false), ColumnModel::UInt64(all_some(c.start_time_unix_nano_column@)))), n)) by {
        assert(!any_null(all_some(c.start_time_unix_nano_column@)));
    }
    lemma_entries_wf_concat(acc, emitted_if(c.start_time_unix_nano_column@.len() > 0, (fm("start_time_unix_nano"@, DataType::UInt64, false), ColumnModel::UInt64(all_some(c.start_time_unix_nano_column@)))), n);
    acc = acc + emitted_if(c.start_time_unix_nano_column@.len() > 0, (fm("start_time_unix_nano"@, DataType::UInt64, false), ColumnModel::UInt64(all_some(c.start_time_unix_nano_column@))));
    assert(entries_well_formed(emitted_if(!all_null(c.end_time_unix_nano_column@), (fm("end_time_unix_nano"@, DataType::UInt64, any_null(c.end_time_unix_nano_column@)), ColumnModel::UInt64(c.end_time_unix_nano_column@))), n));
    lemma_entries_wf_concat(acc, emitted_if(!all_null(c.end_time_unix_nano_column@), (fm("end_time_unix_nano"@, DataType::UInt64, any_null(c.end_time_unix_nano_column@)), ColumnModel::UInt64(c.end_time_unix_nano_column@))), n);
    acc = acc + emitted_if(!all_null(c.end_time_unix_nano_column@), (fm("end_time_unix_nano"@, DataType::UInt64, any_null(c.end_time_unix_nano_column@)), ColumnModel::UInt64(c.end_time_unix_nano_column@)));
    assert(entries_well_formed(emitted_if(c.trace_id_column@.len() > 0, (fm("trace_id"@, DataType::Binary, false), ColumnModel::Binary(all_some(string_views(c.trace_id_column@))))), n)) by {
        assert(!any_null(all_some(string_views(c.trace_id_column@))));
    }
    lemma_entries_wf_concat(acc, emitted_if(c.trace_id_column@.len() > 0, (fm("trace_id"@, DataType::Binary, false), ColumnModel::Binary(all_some(string_views(c.trace_id_column@))))), n);
    acc = acc + emitted_if(c.trace_id_column@.len() > 0, (fm("trace_id"@, DataType::Binary, false), ColumnModel::Binary(all_some(string_views(c.trace_id_column@)))));
    assert(entries_well_formed(emitted_if(c.span_id_column@.len() > 0, (fm("span_id"@, DataType::Binary, false), ColumnModel::Binary(all_some(string_views(c.span_id_column@))))), n)) by {
        assert(!any_null(all_some(string_views(c.span_id_column@))));
    }
    lemma_entries_wf_concat(acc, emitted_if(c.span_id_column@.len() > 0, (fm("span_id"@, DataType::Binary, false), ColumnModel::Binary(all_some(string_views(c.span_id_column@))))), n);
    acc = acc + emitted_if(c.span_id_column@.len() > 0, (fm("span_id"@, DataType::Binary, false), ColumnModel::Binary(all_some(string_views(c.span_id_column@)))));
    lemma_nullable_string_entries_wf("trace_state"@, c.trace_state_column@, n);
    lemma_entries_wf_concat(acc, nullable_string_entries("trace_state"@, c.trace_state_column@), n);
    acc = acc + nullable_string_entries("trace_state"@, c.trace_state_column@);
    assert(entries_well_formed(emitted_if(!all_null(c.parent_span_id_column@), (fm("parent_span_id"@, DataType::Binary, any_null(c.parent_span_id_column@)), ColumnModel::Binary(opt_views(c.parent_span_id_column@)))), n));
    lemma_entries_wf_concat(acc, emitted_if(!all_null(c.parent_span_id_column@), (fm("parent_span_id"@, DataType::Binary, any_null(c.parent_span_id_column@)), ColumnModel::Binary(opt_views(c.parent_span_id_column@)))), n);
    acc = acc + emitted_if(!all_null(c.parent_span_id_column@), (fm("parent_span_id"@, DataType::Binary, any_null(c.parent_span_id_column@)), ColumnModel::Binary(opt_views(c.parent_span_id_column@))));
    assert(acc =~= span_entries_head(c));
}

fn emit_span_entries_head(c: &SpanDataColumns, fields: &mut Vec<Field>, columns: &mut Vec<Column>)
    ensures
        extends(old(fields)@, final(fields)@, old(columns)@, final(columns)@, span_entries_head(*c)),
{
    let ghost f0 = fields@;
    let ghost c0 = columns@;
    let ghost mut acc: Seq<Entry> = Seq::empty();
    proof {
        lemma_extends_none(f0, c0);
    }
    let ghost f1 = fields@;
    let ghost c1 = columns@;
    u64_non_nullable_field("start_time_unix_nano", c.start_time_unix_nano_column.as_slice(), fields, columns);
    proof {
        lemma_step(f1, fields@, c1, columns@, emitted_if(c.start_time_unix_nano_column@.len() > 0, (fm("start_time_unix_nano"@, DataType::UInt64, false), ColumnModel::UInt64(all_some(c.start_time_unix_nano_column@)))));
        lemma_extends_trans(f0, f1, fields@, c0, c1, columns@, acc, emitted_if(c.start_time_unix_nano_column@.len() > 0, (fm("start_time_unix_nano"@, DataType::UInt64, false), ColumnModel::UInt64(all_some(c.start_time_unix_nano_column@)))));
        acc = acc + emitted_if(c.start_time_unix_nano_column@.len() > 0, (fm("start_time_unix_nano"@, DataType::UInt64, false), ColumnModel::UInt64(all_some(c.start_time_unix_nano_column@))));
    }
    let ghost f1 = fields@;
    let ghost c1 = columns@;
    u64_nullable_field("end_time_unix_nano", c.end_time_unix_nano_column.as_slice(), fields, columns);
    proof {
        lemma_step(f1, fields@, c1, columns@, emitted_if(!all_null(c.end_time_unix_nano_column@), (fm("end_time_unix_nano"@, DataType::UInt64, any_null(c.end_time_unix_nano_column@)), ColumnModel::UInt64(c.end_time_unix_nano_column@))));
        lemma_extends_trans(f0, f1, fields@, c0, c1, columns@, acc, emitted_if(!all_null(c.end_time_unix_nano_column@), (fm("end_time_unix_nano"@, DataType::UInt64, any_null(c.end_time_unix_nano_column@)), ColumnModel::UInt64(c.end_time_unix_nano_column@))));
        acc = acc + emitted_if(!all_null(c.end_time_unix_nano_column@), (fm("end_time_unix_nano"@, DataType::UInt64, any_null(c.end_time_unix_nano_column@)), ColumnModel::UInt64(c.end_time_unix_nano_column@)));
    }
    let ghost f1 = fields@;
    let ghost c1 = columns@;
    binary_non_nullable_field("trace_id", c.trace_id_column.as_slice(), fields, columns);
    proof {
        lemma_step(f1, fields@, c1, columns@, emitted_if(c.trace_id_column@.len() > 0, (fm("trace_id"@, DataType::Binary, false), ColumnModel::Binary(all_some(string_views(c.trace_id_column@))))));
        lemma_extends_trans(f0, f1, fields@, c0, c1, columns@, acc, emitted_if(c.trace_id_column@.len() > 0, (fm("trace_id"@, DataType::Binary, false), ColumnModel::Binary(all_some(string_views(c.trace_id_column@))))));
        acc = acc + emitted_if(c.trace_id_column@.len() > 0, (fm("trace_id"@, DataType::Binary, false), ColumnModel::Binary(all_some(string_views(c.trace_id_column@)))));
    }
    let ghost f1 = fields@;
    let ghost c1 = columns@;
    binary_non_nullable_field("span_id", c.span_id_column.as_slice(), fields, columns);
    proof {
        lemma_step(f1, fields@, c1, columns@, emitted_if(c.span_id_column@.len() > 0, (fm("span_id"@, DataType::Binary, false), ColumnModel::Binary(all_some(string_views(c.span_id_column@))))));
        lemma_extends_trans(f0, f1, fields@, c0, c1, columns@, acc, emitted_if(c.span_id_column@.len() > 0, (fm("span_id"@, DataType::Binary, false), ColumnModel::Binary(all_some(string_views(c.span_id_column@))))));
        acc = acc + emitted_if(c.span_id_column@.len() > 0, (fm("span_id"@, DataType::Binary, false), ColumnModel::Binary(all_some(string_views(c.span_id_column@)))));
    }
    let ghost f1 = fields@;
    let ghost c1 = columns@;
    string_nullable_field("trace_state", c.trace_state_column.as_slice(), fields, columns);
    proof {
        lemma_step(f1, fields@, c1, columns@, nullable_string_entries("trace_state"@, c.trace_state_column@));
        lemma_extends_trans(f0, f1, fields@, c0, c1, columns@, acc, nullable_string_entries("trace_state"@, c.trace_state_column@));
        acc = acc + nullable_string_entries("trace_state"@, c.trace_state_column@);
    }
    let ghost f1 = fields@;
    let ghost c1 = columns@;
    binary_nullable_field("parent_span_id", c.parent_span_id_column.as_slice(), fields, columns);
    proof {
        lemma_step(f1, fields@, c1, columns@, emitted_if(!all_null(c.parent_span_id_column@), (fm("parent_span_id"@, DataType::Binary, any_null(c.parent_span_id_column@)), ColumnModel::Binary(opt_views(c.parent_span_id_column@)))));
        lemma_extends_trans(f0, f1, fields@, c0, c1, columns@, acc, emitted_if(!all_null(c.parent_span_id_column@), (fm("parent_span_id"@, DataType::Binary, any_null(c.parent_span_id_column@)), ColumnModel::Binary(opt_views(c.parent_span_id_column@)))));
        acc = acc + emitted_if(!all_null(c.parent_span_id_column@), (fm("parent_span_id"@, DataType::Binary, any_null(c.parent_span_id_column@)), ColumnModel::Binary(opt_views(c.parent_span_id_column@))));
    }
    assert(acc =~= span_entries_head(*c));
}

pub open spec fn span_entries_tail(c: SpanDataColumns) -> Seq<Entry> {
    required_string_entries("name"@, c.name_column@)
    + emitted_if(!all_null(c.kind_column@), (fm("kind"@, DataType::UInt8, any_null(c.kind_column@)), ColumnModel::UInt8(c.kind_column@)))
    + emitted_if(!all_null(c.dropped_attrs_count_column@), (fm("dropped_attributes_count"@, DataType::UInt32, any_null(c.dropped_attrs_count_column@)), ColumnModel::UInt32(c.dropped_attrs_count_column@)))
    + emitted_if(!all_null(c.dropped_events_count_column@), (fm("dropped_events_count"@, DataType::UInt32, any_null(c.dropped_events_count_column@)), ColumnModel::UInt32(c.dropped_events_count_column@)))
    + emitted_if(!all_null(c.dropped_links_count_column@), (fm("dropped_links_count"@, DataType::UInt32, any_null(c.dropped_links_count_column@)), ColumnModel::UInt32(c.dropped_links_count_column@)))
}

proof fn lemma_span_entries_tail_well_formed(c: SpanDataColumns, n: nat)
    requires
        c.aligned(n),
    ensures
        entries_well_formed(span_entries_tail(c), n),
{
    let mut acc: Seq<Entry> = Seq::empty();
    lemma_required_string_entries_wf("name"@, c.name_column@, n);
    lemma_entries_wf_concat(acc, required_string_entries("name"@, c.name_column@), n);
    acc = acc + required_string_entries("name"@, c.name_column@);
    assert(entries_well_formed(emitted_if(!all_null(c.kind_column@), (fm("kind"@, DataType::UInt8, any_null(c.kind_column@)), ColumnModel::UInt8(c.kind_column@))), n));
    lemma_entries_wf_concat(acc, emitted_if(!all_null(c.kind_column@), (fm("kind"@, DataType::UInt8, any_null(c.kind_column@)), ColumnModel::UInt8(c.kind_column@))), n);
    acc = acc + emitted_if(!all_null(c.kind_column@), (fm("kind"@, DataType::UInt8, any_null(c.kind_column@)), ColumnModel::UInt8(c.kind_column@)));
    assert(entries_well_formed(emitted_if(!all_null(c.dropped_attrs_count_column@), (fm("dropped_attributes_count"@, DataType::UInt32, any_null(c.dropped_attrs_count_column@)), ColumnModel::UInt32(c.dropped_attrs_count_column@))), n));
    lemma_entries_wf_concat(acc, emitted_if(!all_null(c.dropped_attrs_count_column@), (fm("dropped_attributes_count"@, DataType::UInt32, any_null(c.dropped_attrs_count_column@)), ColumnModel::UInt32(c.dropped_attrs_count_column@))), n);
    acc = acc + emitted_if(!all_null(c.dropped_attrs_count_column@), (fm("dropped_attributes_count"@, DataType::UInt32, any_null(c.dropped_attrs_count_column@)), ColumnModel::UInt32(c.dropped_attrs_count_column@)));
    assert(entries_well_formed(emitted_if(!all_null(c.dropped_events_count_column@), (fm("dropped_events_count"@, DataType::UInt32, any_null(c.dropped_events_count_column@)), ColumnModel::UInt32(c.dropped_events_count_column@))), n));
    lemma_entries_wf_concat(acc, emitted_if(!all_null(c.dropped_events_count_column@), (fm("dropped_events_count"@, DataType::UInt32, any_null(c.dropped_events_count_column@)), ColumnModel::UInt32(c.dropped_events_count_column@))), n);
    acc = acc + emitted_if(!all_null(c.dropped_events_count_column@), (fm("dropped_events_count"@, DataType::UInt32, any_null(c.dropped_events_count_column@)), ColumnModel::UInt32(c.dropped_events_count_column@)));
    assert(entries_well_formed(emitted_if(!all_null(c.dropped_links_count_column@), (fm("dropped_links_count"@, DataType::UInt32, any_null(c.dropped_links_count_column@)), ColumnModel::UInt32(c.dropped_links_count_column@))), n));
    lemma_entries_wf_concat(acc, emitted_if(!all_null(c.dropped_links_count_column@), (fm("dropped_links_count"@, DataType::UInt32, any_null(c.dropped_links_count_column@)), ColumnModel::UInt32(c.dropped_links_count_column@))), n);
    acc = acc + emitted_if(!all_null(c.dropped_links_count_column@), (fm("dropped_links_count"@, DataType::UInt32, any_null(c.dropped_links_count_column@)), ColumnModel::UInt32(c.dropped_links_count_column@)));
    assert(acc =~= span_entries_tail(c));
}

fn emit_span_entries_tail(c: &SpanDataColumns, fields: &mut Vec<Field>, columns: &mut Vec<Column>)
    ensures
        extends(old(fields)@, final(fields)@, old(columns)@, final(columns)@, span_entries_tail(*c)),
{
    let ghost f0 = fields@;
    let ghost c0 = columns@;
    let ghost mut acc: Seq<Entry> = Seq::empty();
    proof {
        lemma_extends_none(f0, c0);
    }
    let ghost f1 = fields@;
    let ghost c1 = columns@;
    string_non_nullable_field("name", c.name_column.as_slice(), fields, columns);
    proof {
        lemma_step(f1, fields@, c1, columns@, required_string_entries("name"@, c.name_column@));
        lemma_extends_trans(f0, f1, fields@, c0, c1, columns@, acc, required_string_entries("name"@, c.name_column@));
        acc = acc + required_string_entries("name"@, c.name_column@);
    }
    let ghost f1 = fields@;
    let ghost c1 = columns@;
    u8_nullable_field("kind", c.kind_column.as_slice(), fields, columns);
    proof {
        lemma_step(f1, fields@, c1, columns@, emitted_if(!all_null(c.kind_column@), (fm("kind"@, DataType::UInt8, any_null(c.kind_column@)), ColumnModel::UInt8(c.kind_column@))));
        lemma_extends_trans(f0, f1, fields@, c0, c1, columns@, acc, emitted_if(!all_null(c.kind_column@), (fm("kind"@, DataType::UInt8, any_null(c.kind_column@)), ColumnModel::UInt8(c.kind_column@))));
        acc = acc + emitted_if(!all_null(c.kind_column@), (fm("kind"@, DataType::UInt8, any_null(c.kind_column@)), ColumnModel::UInt8(c.kind_column@)));
    }
    let ghost f1 = fields@;
    let ghost c1 = columns@;
    u32_nullable_field("dropped_attributes_count", c.dropped_attrs_count_column.as_slice(), fields, columns);
    proof {
        lemma_step(f1, fields@, c1, columns@, emitted_if(!all_null(c.dropped_attrs_count_column@), (fm("dropped_attributes_count"@, DataType::UInt32, any_null(c.dropped_attrs_count_column@)), ColumnModel::UInt32(c.dropped_attrs_count_column@))));
        lemma_extends_trans(f0, f1, fields@, c0, c1, columns@, acc, emitted_if(!all_null(c.dropped_attrs_count_column@), (fm("dropped_attributes_count"@, DataType::UInt32, any_null(c.dropped_attrs_count_column@)), ColumnModel::UInt32(c.dropped_attrs_count_column@))));
        acc = acc + emitted_if(!all_null(c.dropped_attrs_count_column@), (fm("dropped_attributes_count"@, DataType::UInt32, any_null(c.dropped_attrs_count_column@)), ColumnModel::UInt32(c.dropped_attrs_count_column@)));
    }
    let ghost f1 = fields@;
    let ghost c1 = columns@;
    u32_nullable_field("dropped_events_count", c.dropped_events_count_column.as_slice(), fields, columns);
    proof {
        lemma_step(f1, fields@, c1, columns@, emitted_if(!all_null(c.dropped_events_count_column@), (fm("dropped_events_count"@, DataType::UInt32, any_null(c.dropped_events_count_column@)), ColumnModel::UInt32(c.dropped_events_count_column@))));
        lemma_extends_trans(f0, f1, fields@, c0, c1, columns@, acc, emitted_if(!all_null(c.dropped_events_count_column@), (fm("dropped_events_count"@, DataType::UInt32, any_null(c.dropped_events_count_column@)), ColumnModel::UInt32(c.dropped_events_count_column@))));
        acc = acc + emitted_if(!all_null(c.dropped_events_count_column@), (fm("dropped_events_count"@, DataType::UInt32, any_null(c.dropped_events_count_column@)), ColumnModel::UInt32(c.dropped_events_count_column@)));
    }
    let ghost f1 = fields@;
    let ghost c1 = columns@;
    u32_nullable_field("dropped_links_count", c.dropped_links_count_column.as_slice(), fields, columns);
    proof {
        lemma_step(f1, fields@, c1, columns@, emitted_if(!all_null(c.dropped_links_count_column@), (fm("dropped_links_count"@, DataType::UInt32, any_null(c.dropped_links_count_column@)), ColumnModel::UInt32(c.dropped_links_count_column@))));
        lemma_extends_trans(f0, f1, fields@, c0, c1, columns@, acc, emitted_if(!all_null(c.dropped_links_count_column@), (fm("dropped_links_count"@, DataType::UInt32, any_null(c.dropped_links_count_column@)), ColumnModel::UInt32(c.dropped_links_count_column@))));
        acc = acc + emitted_if(!all_null(c.dropped_links_count_column@), (fm("dropped_links_count"@, DataType::UInt32, any_null(c.dropped_links_count_column@)), ColumnModel::UInt32(c.dropped_links_count_column@)));
    }
    assert(acc =~= span_entries_tail(*c));
}

/// The spans table built from pivoted columns: each fixed field through its
/// emission helper, the `id` column when `gen_id`, then every attribute column.
pub open spec fn column_span_entries(c: SpanDataColumns, gen_id: bool) -> Seq<Entry> {
    span_entries_head(c) + span_entries_tail(c) + emitted_if(
        gen_id && c.start_time_unix_nano_column@.len() > 0,
        id_entry(c.start_time_unix_nano_column@.len()),
    ) + attribute_entries(c.attributes_column@, false)
}

/// Builds the spans table from pivoted columns; `gen_id_column` adds the
/// `id` column of row indices.
pub fn serialize_spans_from_column_oriented_data_source(data_columns: &DataColumns, gen_id_column: bool) -> (r: Table)
    requires
        data_columns.spans.aligned(data_columns.spans.start_time_unix_nano_column@.len()),
        data_columns.spans.start_time_unix_nano_column@.len() <= 0x1_0000_0000,
    ensures
        r.entries() == column_span_entries(data_columns.spans, gen_id_column),
        r.well_formed(data_columns.spans.start_time_unix_nano_column@.len()),
{
    let c = &data_columns.spans;
    let ghost n = c.start_time_unix_nano_column@.len();
    let mut fields: Vec<Field> = Vec::new();
    let mut columns: Vec<Column> = Vec::new();
    emit_span_entries_head(c, &mut fields, &mut columns);
    let ghost f1 = fields@;
    let ghost c1 = columns@;
    emit_span_entries_tail(c, &mut fields, &mut columns);
    proof {
        lemma_extends_trans(Seq::empty(), f1, fields@, Seq::empty(), c1, columns@, span_entries_head(*c), span_entries_tail(*c));
    }
    let ghost acc = span_entries_head(*c) + span_entries_tail(*c);
    let ghost f2 = fields@;
    let ghost c2 = columns@;
    if gen_id_column {
        let ids = row_ids_vec(c.start_time_unix_nano_column.len());
        assert(ids@.len() == n) by {
            assert(all_some(ids@).len() == ids@.len());
        }
        u32_non_nullable_field("id", ids.as_slice(), &mut fields, &mut columns);
    }
    let ghost e = emitted_if(gen_id_column && n > 0, id_entry(n));
    proof {
        if gen_id_column {
            lemma_step(f2, fields@, c2, columns@, e);
        } else {
            lemma_extends_none(f2, c2);
        }
        lemma_extends_trans(Seq::empty(), f2, fields@, Seq::empty(), c2, columns@, acc, e);
    }
    let ghost f3 = fields@;
    let ghost c3 = columns@;
    emit_attribute_columns(&c.attributes_column, false, &mut fields, &mut columns);
    let t = Table { fields, columns };
    proof {
        let a = attribute_entries(c.attributes_column@, false);
        lemma_extends_trans(Seq::empty(), f3, t.fields@, Seq::empty(), c3, t.columns@, acc + e, a);
        lemma_span_entries_head_well_formed(*c, n);
        lemma_span_entries_tail_well_formed(*c, n);
        lemma_entries_wf_concat(span_entries_head(*c), span_entries_tail(*c), n);
        assert(!any_null(row_ids(n)));
        assert(entries_well_formed(e, n));
        lemma_entries_wf_concat(acc, e, n);
        lemma_attribute_entries_aligned_wf(c.attributes_column@, false, n);
        lemma_entries_wf_concat(acc + e, a, n);
        lemma_table_well_formed(t, acc + e + a, n);
    }
    t
}

} // verus!
