//! A whole batch: the spans, events and links tables by either path, and the
//! laws that hold of what is emitted.
use vstd::prelude::*;
use vstd::arithmetic::power2::pow2;
use crate::model::{Span, event_count, link_count, events_of, links_of};
use crate::schema::value_type;
use crate::attribute::{
    SchemaModel, apply_all, apply_kv, span_kvs, event_kvs, link_kvs, has_key, keys_unique,
    lemma_apply_all_invariants,
};
use crate::column::{Column, ColumnModel, DataType, width_bits, index_bits, lemma_bit_length_at_most, all_some, all_null, any_null, opt_views};
use crate::schema::string_views;
use crate::columnar::{
    SpanDataColumns, DataColumns, batch_fits, pivots, event_rows, link_rows, to_data_columns, lemma_event_rows_len,
    lemma_link_rows_len, lemma_event_rows_parent,
};
use crate::encode::{
    Entry, Table, emitted_if, span_entries_head, span_entries_tail, nullable_string_entries,
    required_string_entries, fm, attribute_column_name, attribute_entries_of, column_event_entries,
    column_link_entries, column_span_entries, infer_event_schema, infer_link_schema,
    infer_span_schema, row_event_entries, row_link_entries, row_span_entries,
    serialize_events_from_column_oriented_data_source,
    serialize_events_from_row_oriented_data_source,
    serialize_links_from_column_oriented_data_source,
    serialize_links_from_row_oriented_data_source,
    serialize_spans_from_column_oriented_data_source,
    serialize_spans_from_row_oriented_data_source, span_fixed_entries, id_entry,
};

verus! {

/// The three tables of an encoded batch.
#[derive(Debug)]
pub struct EncodedBatch {
    pub spans: Table,
    pub events: Table,
    pub links: Table,
}

/// Whether the spans table carries an `id` column: the batch has an event or a link.
pub open spec fn gen_id(spans: Seq<Span>) -> bool {
    event_count(spans) + link_count(spans) > 0
}

/// Encodes a batch from rows: inference over every attribute map first, then
/// the three tables.
pub fn encode_row_oriented(spans: &[Span]) -> (r: EncodedBatch)
    requires
        batch_fits(spans@),
    ensures
        r.spans.entries() == row_span_entries(
            spans@,
            apply_all(Seq::empty(), span_kvs(spans@)),
            gen_id(spans@),
        ),
        r.events.entries() == row_event_entries(spans@, apply_all(Seq::empty(), event_kvs(spans@))),
        r.links.entries() == row_link_entries(spans@, apply_all(Seq::empty(), link_kvs(spans@))),
        r.spans.well_formed(spans@.len()),
        r.events.well_formed(event_count(spans@)),
        r.links.well_formed(link_count(spans@)),
{
    let (event_schema, event_count) = infer_event_schema(spans);
    let (link_schema, link_count) = infer_link_schema(spans);
    let gen_id_column = event_count > 0 || link_count > 0;
    let span_schema = infer_span_schema(spans, gen_id_column);
    let events = serialize_events_from_row_oriented_data_source(&event_schema, spans);
    let links = serialize_links_from_row_oriented_data_source(&link_schema, spans);
    let spans_table = serialize_spans_from_row_oriented_data_source(&span_schema, spans, gen_id_column);
    proof {
        lemma_event_rows_len(spans@);
        lemma_link_rows_len(spans@);
    }
    EncodedBatch { spans: spans_table, events, links }
}

/// Encodes pivoted columns; the spans table carries `id` when there is an
/// event or a link row.
pub fn encode_data_columns(data_columns: &DataColumns) -> (r: EncodedBatch)
    requires
        data_columns.spans.aligned(data_columns.spans.start_time_unix_nano_column@.len()),
        data_columns.spans.start_time_unix_nano_column@.len() <= 0x1_0000_0000,
        data_columns.events.aligned(data_columns.events.id_column@.len()),
        data_columns.links.aligned(data_columns.links.id_column@.len()),
    ensures
        r.spans.entries() == column_span_entries(
            data_columns.spans,
            data_columns.events.id_column@.len() + data_columns.links.id_column@.len() > 0,
        ),
        r.events.entries() == column_event_entries(data_columns.events),
        r.links.entries() == column_link_entries(data_columns.links),
        r.spans.well_formed(data_columns.spans.start_time_unix_nano_column@.len()),
        r.events.well_formed(data_columns.events.id_column@.len()),
        r.links.well_formed(data_columns.links.id_column@.len()),
{
    let gen_id_column = data_columns.events.id_column.len() > 0 || data_columns.links.id_column.len() > 0;
    let events = serialize_events_from_column_oriented_data_source(data_columns);
    let links = serialize_links_from_column_oriented_data_source(data_columns);
    let spans = serialize_spans_from_column_oriented_data_source(data_columns, gen_id_column);
    EncodedBatch { spans, events, links }
}

/// Encodes a batch from pre-pivoted columns: the batch is pivoted, then every
/// fixed field goes through its emission helper.
pub fn encode_column_oriented(spans: &[Span]) -> (r: EncodedBatch)
    requires
        batch_fits(spans@),
    ensures
        exists|d: DataColumns|
            #[trigger] pivots(d, spans@) && r.spans.entries() == column_span_entries(d.spans, gen_id(spans@))
                && r.events.entries() == column_event_entries(d.events)
                && r.links.entries() == column_link_entries(d.links),
        r.spans.well_formed(spans@.len()),
        r.events.well_formed(event_count(spans@)),
        r.links.well_formed(link_count(spans@)),
{
    let data_columns = to_data_columns(spans);
    proof {
        lemma_event_rows_len(spans@);
        lemma_link_rows_len(spans@);
    }
    let r = encode_data_columns(&data_columns);
    assert(pivots(data_columns, spans@));
    r
}

/// In a batch from rows the event rows keep their parent's index: the `id`
/// of row `r` is the index of a span that holds that row's event, rows
/// grouped by parent in span order.
pub proof fn lemma_event_ids_are_parent_indices(spans: Seq<Span>)
    requires
        event_rows(spans).len() > 0,
    ensures
        ({
            let e = row_event_entries(spans, apply_all(Seq::empty(), event_kvs(spans)));
            let rows = event_rows(spans);
            &&& e[0].0.name == "id"@
            &&& e[0].1 == crate::column::ColumnModel::UInt32(
                rows.map_values(|r: (int, crate::model::Event)| Some(r.0 as u32)),
            )
            &&& forall|r: int|
                0 <= r < rows.len() ==> 0 <= (#[trigger] rows[r]).0 < spans.len()
                    && events_of(spans[rows[r].0]).contains(rows[r].1)
        }),
{
    lemma_event_rows_parent(spans);
    let rows = event_rows(spans);
    assert forall|r: int| 0 <= r < rows.len() implies 0 <= (#[trigger] rows[r]).0 < spans.len()
        && events_of(spans[rows[r].0]).contains(rows[r].1) by {
        let (i, e) = rows[r];
    }
}

/// In a batch from rows the link rows keep their parent's index: the `id`
/// of row `r` is the index of a span that holds that row's link, rows
/// grouped by parent in span order.
pub proof fn lemma_link_ids_are_parent_indices(spans: Seq<Span>)
    requires
        link_rows(spans).len() > 0,
    ensures
        ({
            let e = row_link_entries(spans, apply_all(Seq::empty(), link_kvs(spans)));
            let rows = link_rows(spans);
            &&& e[0].0.name == "id"@
            &&& e[0].1 == crate::column::ColumnModel::UInt32(
                rows.map_values(|r: (int, crate::model::Link)| Some(r.0 as u32)),
            )
            &&& forall|r: int|
                0 <= r < rows.len() ==> 0 <= (#[trigger] rows[r]).0 < spans.len()
                    && links_of(spans[rows[r].0]).contains(rows[r].1)
        }),
{
    crate::columnar::lemma_link_rows_parent(spans);
    let rows = link_rows(spans);
    assert forall|r: int| 0 <= r < rows.len() implies 0 <= (#[trigger] rows[r]).0 < spans.len()
        && links_of(spans[rows[r].0]).contains(rows[r].1) by {
        let (i, l) = rows[r];
    }
}

/// The names of the fixed columns of the spans table.
proof fn lemma_span_fixed_names(spans: Seq<Span>)
    ensures
        forall|i: int|
            0 <= i < span_fixed_entries(spans).len() ==> {
                let nm = #[trigger] span_fixed_entries(spans)[i].0.name;
                &&& nm.len() > 2
                &&& nm[0] != 'a'
            },
{
    reveal_strlit("start_time_unix_nano");
    reveal_strlit("end_time_unix_nano");
    reveal_strlit("trace_id");
    reveal_strlit("span_id");
    reveal_strlit("trace_state");
    reveal_strlit("parent_span_id");
    reveal_strlit("name");
    reveal_strlit("kind");
    reveal_strlit("dropped_attributes_count");
    reveal_strlit("dropped_events_count");
    reveal_strlit("dropped_links_count");
}

/// A batch with an event or a link has a span.
proof fn lemma_children_need_spans(spans: Seq<Span>)
    requires
        gen_id(spans),
    ensures
        spans.len() > 0,
{
    if spans.len() == 0 {
        assert(event_count(spans) == 0 && link_count(spans) == 0);
    }
}

/// The spans table of a batch encoded from rows has an `id` column exactly
/// when the batch has at least one event or link.
pub proof fn lemma_span_id_column_iff_children(spans: Seq<Span>)
    ensures
        ({
            let e = row_span_entries(spans, apply_all(Seq::empty(), span_kvs(spans)), gen_id(spans));
            (exists|i: int| 0 <= i < e.len() && e[i].0.name == "id"@) <==> gen_id(spans)
        }),
{
    let schema = apply_all(Seq::empty(), span_kvs(spans));
    let e = row_span_entries(spans, schema, gen_id(spans));
    reveal_strlit("id");
    reveal_strlit("attributes_");
    lemma_span_fixed_names(spans);
    if gen_id(spans) {
        lemma_children_need_spans(spans);
        assert(e[11] == id_entry(spans.len()));
    }
    if exists|i: int| 0 <= i < e.len() && e[i].0.name == "id"@ {
        let i = choose|i: int| 0 <= i < e.len() && e[i].0.name == "id"@;
        if !gen_id(spans) {
            let fixed = span_fixed_entries(spans);
            let attrs = crate::encode::row_attribute_entries(schema, spans.map_values(|s: Span| crate::columnar::span_map(s)));
            assert(spans.len() > 0);
            assert(e =~= fixed + Seq::<Entry>::empty() + attrs);
            if i < 11 {
                assert(e[i] == fixed[i]);
                assert(fixed[i].0.name.len() > 2);
            } else {
                assert(e[i] == attrs[i - 11]);
                assert(attrs[i - 11].0.name.len() >= 11);
            }
        }
    }
}

proof fn lemma_apply_kv_keeps_key(s: SchemaModel, kv: crate::model::KeyValue, k: Seq<char>)
    requires
        has_key(s, k),
    ensures
        has_key(apply_kv(s, kv), k),
{
    let j = choose|j: int| 0 <= j < s.len() && s[j].0 == k;
    let r = apply_kv(s, kv);
    if value_type(kv.value) is Some && has_key(s, kv.key@) {
        let q = crate::attribute::key_index(s, kv.key@);
        if q == j {
            assert(r[j].0 == k);
        } else {
            assert(r[j] == s[j]);
        }
    } else if value_type(kv.value) is Some {
        assert(r[j] == s[j]);
    }
}

/// A key seen with a non-null value is in the inferred schema.
pub proof fn lemma_seen_key_inferred(s: SchemaModel, kvs: Seq<crate::model::KeyValue>, q: int)
    requires
        0 <= q < kvs.len(),
        value_type(kvs[q].value) is Some,
    ensures
        has_key(apply_all(s, kvs), kvs[q].key@),
    decreases kvs.len(),
{
    let k = kvs[q].key@;
    let prev = apply_all(s, kvs.drop_last());
    if q == kvs.len() - 1 {
        let r = apply_kv(prev, kvs.last());
        if has_key(prev, k) {
            let j = crate::attribute::key_index(prev, k);
            assert(r[j].0 == k);
        } else {
            assert(r[prev.len() as int].0 == k);
        }
    } else {
        lemma_seen_key_inferred(s, kvs.drop_last(), q);
        lemma_apply_kv_keeps_key(prev, kvs.last(), k);
    }
}

proof fn lemma_prefix_cancel(a: Seq<char>, b: Seq<char>, c: Seq<char>)
    requires
        a + b == a + c,
    ensures
        b == c,
{
    assert((a + b).skip(a.len() as int) =~= b);
    assert((a + c).skip(a.len() as int) =~= c);
}

/// After fixed entries whose names do not start with `a`, the attribute
/// entries of a schema with unique keys name key `k` exactly once.
proof fn lemma_unique_attribute_column(
    prefix: Seq<Entry>,
    schema: SchemaModel,
    attrs: Seq<Entry>,
    k: Seq<char>,
)
    requires
        forall|i: int|
            0 <= i < prefix.len() ==> (#[trigger] prefix[i]).0.name.len() > 0 && prefix[i].0.name[0]
                != 'a',
        attrs.len() == schema.len(),
        forall|j: int| 0 <= j < attrs.len() ==> (#[trigger] attrs[j]).0.name == attribute_column_name(schema[j].0),
        keys_unique(schema),
        has_key(schema, k),
    ensures
        ({
            let e = prefix + attrs;
            let nm = attribute_column_name(k);
            exists|i: int|
                0 <= i < e.len() && e[i].0.name == nm && forall|i2: int|
                    0 <= i2 < e.len() && e[i2].0.name == nm ==> i2 == i
        }),
{
    reveal_strlit("attributes_");
    let nm = attribute_column_name(k);
    let e = prefix + attrs;
    let j = choose|j: int| 0 <= j < schema.len() && schema[j].0 == k;
    let i = prefix.len() + j;
    assert(e[i] == attrs[j]);
    assert forall|i2: int| 0 <= i2 < e.len() && e[i2].0.name == nm implies i2 == i by {
        assert(nm[0] == 'a');
        if i2 < prefix.len() {
            assert(e[i2] == prefix[i2]);
        } else {
            let j2 = i2 - prefix.len();
            assert(e[i2] == attrs[j2]);
            lemma_prefix_cancel("attributes_"@, schema[j2].0, k);
            if j2 != j {
                if j2 < j {
                    assert(schema[j2].0 != schema[j].0);
                } else {
                    assert(schema[j].0 != schema[j2].0);
                }
            }
        }
    }
}

/// Every attribute key that some span carries with a non-null value has
/// exactly one column, `attributes_<key>`, in the spans table encoded from rows.
pub proof fn lemma_one_column_per_span_attribute(spans: Seq<Span>, q: int)
    requires
        0 <= q < span_kvs(spans).len(),
        value_type(span_kvs(spans)[q].value) is Some,
    ensures
        ({
            let e = row_span_entries(spans, apply_all(Seq::empty(), span_kvs(spans)), gen_id(spans));
            let nm = attribute_column_name(span_kvs(spans)[q].key@);
            exists|i: int|
                0 <= i < e.len() && e[i].0.name == nm && forall|i2: int|
                    0 <= i2 < e.len() && e[i2].0.name == nm ==> i2 == i
        }),
{
    let kvs = span_kvs(spans);
    let schema = apply_all(Seq::empty(), kvs);
    if spans.len() == 0 {
        assert(kvs.len() == 0);
    }
    lemma_seen_key_inferred(Seq::empty(), kvs, q);
    lemma_apply_all_invariants(Seq::empty(), kvs, 0);
    reveal_strlit("id");
    lemma_span_fixed_names(spans);
    let fixed = span_fixed_entries(spans);
    let idp: Seq<Entry> = if gen_id(spans) {
        seq![id_entry(spans.len())]
    } else {
        Seq::empty()
    };
    let prefix = fixed + idp;
    assert forall|i: int| 0 <= i < prefix.len() implies (#[trigger] prefix[i]).0.name.len() > 0
        && prefix[i].0.name[0] != 'a' by {
        if i < fixed.len() {
            assert(prefix[i] == fixed[i]);
        } else {
            assert(prefix[i] == idp[i - fixed.len()]);
        }
    }
    let maps = spans.map_values(|s: Span| crate::columnar::span_map(s));
    let attrs = crate::encode::row_attribute_entries(schema, maps);
    lemma_unique_attribute_column(prefix, schema, attrs, kvs[q].key@);
    assert(row_span_entries(spans, schema, gen_id(spans)) == prefix + attrs);
}

proof fn lemma_no_events_no_kvs(spans: Seq<Span>)
    requires
        event_rows(spans).len() == 0,
    ensures
        event_kvs(spans).len() == 0,
    decreases spans.len(),
{
    if spans.len() > 0 {
        lemma_no_events_no_kvs(spans.drop_last());
        assert(events_of(spans.last()).len() == 0);
        assert(crate::attribute::event_list_kvs(events_of(spans.last())) =~= Seq::empty());
    }
}

proof fn lemma_no_links_no_kvs(spans: Seq<Span>)
    requires
        link_rows(spans).len() == 0,
    ensures
        link_kvs(spans).len() == 0,
    decreases spans.len(),
{
    if spans.len() > 0 {
        lemma_no_links_no_kvs(spans.drop_last());
        assert(links_of(spans.last()).len() == 0);
        assert(crate::attribute::link_list_kvs(links_of(spans.last())) =~= Seq::empty());
    }
}

/// Every attribute key that some event carries with a non-null value has
/// exactly one column, `attributes_<key>`, in the events table encoded from rows.
pub proof fn lemma_one_column_per_event_attribute(spans: Seq<Span>, q: int)
    requires
        0 <= q < event_kvs(spans).len(),
        value_type(event_kvs(spans)[q].value) is Some,
    ensures
        ({
            let e = row_event_entries(spans, apply_all(Seq::empty(), event_kvs(spans)));
            let nm = attribute_column_name(event_kvs(spans)[q].key@);
            exists|i: int|
                0 <= i < e.len() && e[i].0.name == nm && forall|i2: int|
                    0 <= i2 < e.len() && e[i2].0.name == nm ==> i2 == i
        }),
{
    let kvs = event_kvs(spans);
    let schema = apply_all(Seq::empty(), kvs);
    let rows = event_rows(spans);
    if rows.len() == 0 {
        lemma_no_events_no_kvs(spans);
    }
    lemma_seen_key_inferred(Seq::empty(), kvs, q);
    lemma_apply_all_invariants(Seq::empty(), kvs, 0);
    reveal_strlit("id");
    reveal_strlit("time_unix_nano");
    reveal_strlit("name");
    reveal_strlit("dropped_attributes_count");
    let prefix = crate::encode::event_fixed_entries(rows);
    let maps = rows.map_values(|r: (int, crate::model::Event)| r.1.attributes@);
    assert forall|i: int| 0 <= i < prefix.len() implies (#[trigger] prefix[i]).0.name.len() > 0
        && prefix[i].0.name[0] != 'a' by {}
    let attrs = crate::encode::row_attribute_entries(schema, maps);
    lemma_unique_attribute_column(prefix, schema, attrs, kvs[q].key@);
    assert(row_event_entries(spans, schema) == prefix + attrs);
}

/// Every attribute key that some link carries with a non-null value has
/// exactly one column, `attributes_<key>`, in the links table encoded from rows.
pub proof fn lemma_one_column_per_link_attribute(spans: Seq<Span>, q: int)
    requires
        0 <= q < link_kvs(spans).len(),
        value_type(link_kvs(spans)[q].value) is Some,
    ensures
        ({
            let e = row_link_entries(spans, apply_all(Seq::empty(), link_kvs(spans)));
            let nm = attribute_column_name(link_kvs(spans)[q].key@);
            exists|i: int|
                0 <= i < e.len() && e[i].0.name == nm && forall|i2: int|
                    0 <= i2 < e.len() && e[i2].0.name == nm ==> i2 == i
        }),
{
    let kvs = link_kvs(spans);
    let schema = apply_all(Seq::empty(), kvs);
    let rows = link_rows(spans);
    if rows.len() == 0 {
        lemma_no_links_no_kvs(spans);
    }
    lemma_seen_key_inferred(Seq::empty(), kvs, q);
    lemma_apply_all_invariants(Seq::empty(), kvs, 0);
    reveal_strlit("id");
    reveal_strlit("trace_id");
    reveal_strlit("span_id");
    reveal_strlit("trace_state");
    reveal_strlit("dropped_attributes_count");
    let prefix = crate::encode::link_fixed_entries(rows);
    let maps = rows.map_values(|r: (int, crate::model::Link)| r.1.attributes@);
    assert forall|i: int| 0 <= i < prefix.len() implies (#[trigger] prefix[i]).0.name.len() > 0
        && prefix[i].0.name[0] != 'a' by {}
    let attrs = crate::encode::row_attribute_entries(schema, maps);
    lemma_unique_attribute_column(prefix, schema, attrs, kvs[q].key@);
    assert(row_link_entries(spans, schema) == prefix + attrs);
}

/// A dictionary column of a well-formed table has keys wide enough for its
/// dictionary: `ceil(log2(|D|))` is at most the key width.
pub proof fn lemma_dictionary_keys_fit(t: Table, rows: nat)
    requires
        t.well_formed(rows),
    ensures
        forall|i: int|
            0 <= i < t.columns@.len() ==> match #[trigger] t.columns@[i] {
                Column::Dictionary(w, keys, dict) => {
                    &&& dict@.len() <= pow2(width_bits(w))
                    &&& index_bits(dict@.len()) <= width_bits(w)
                },
                _ => true,
            },
{
    assert forall|i: int| 0 <= i < t.columns@.len() implies match #[trigger] t.columns@[i] {
        Column::Dictionary(w, keys, dict) => {
            &&& dict@.len() <= pow2(width_bits(w))
            &&& index_bits(dict@.len()) <= width_bits(w)
        },
        _ => true,
    } by {
        assert(t.columns@[i].wf());
        match t.columns@[i] {
            Column::Dictionary(w, keys, dict) => {
                if dict@.len() > 1 {
                    lemma_bit_length_at_most((dict@.len() - 1) as nat, width_bits(w));
                }
            },
            _ => {},
        }
    }
}

/// Every entry is named, neither `id` nor with a name starting with `a`.
pub open spec fn plain_fixed_names(e: Seq<Entry>) -> bool {
    forall|i: int|
        0 <= i < e.len() ==> {
            &&& (#[trigger] e[i]).0.name.len() > 2
            &&& e[i].0.name[0] != 'a'
        }
}

proof fn lemma_plain_concat(a: Seq<Entry>, b: Seq<Entry>)
    requires
        plain_fixed_names(a),
        plain_fixed_names(b),
    ensures
        plain_fixed_names(a + b),
{
    assert forall|i: int| 0 <= i < (a + b).len() implies {
        &&& (#[trigger] (a + b)[i]).0.name.len() > 2
        &&& (a + b)[i].0.name[0] != 'a'
    } by {
        if i < a.len() {
            assert((a + b)[i] == a[i]);
        } else {
            assert((a + b)[i] == b[i - a.len()]);
        }
    }
}

proof fn lemma_plain_when(b: bool, e: Entry)
    requires
        e.0.name.len() > 2,
        e.0.name[0] != 'a',
    ensures
        plain_fixed_names(emitted_if(b, e)),
{
}

/// The fixed columns that the helpers emit for the spans table have plain names.
proof fn lemma_span_column_fixed_names(c: SpanDataColumns)
    ensures
        plain_fixed_names(span_entries_head(c) + span_entries_tail(c)),
{
    reveal_strlit("start_time_unix_nano");
    reveal_strlit("end_time_unix_nano");
    reveal_strlit("trace_id");
    reveal_strlit("span_id");
    reveal_strlit("trace_state");
    reveal_strlit("parent_span_id");
    reveal_strlit("name");
    reveal_strlit("kind");
    reveal_strlit("dropped_attributes_count");
    reveal_strlit("dropped_events_count");
    reveal_strlit("dropped_links_count");
    let mut acc: Seq<Entry> = Seq::empty();
    let e = emitted_if(c.start_time_unix_nano_column@.len() > 0, (fm("start_time_unix_nano"@, DataType::UInt64, false), ColumnModel::UInt64(all_some(c.start_time_unix_nano_column@))));
    assert(plain_fixed_names(e));
    lemma_plain_concat(acc, e);
    acc = acc + e;
    let e = emitted_if(!all_null(c.end_time_unix_nano_column@), (fm("end_time_unix_nano"@, DataType::UInt64, any_null(c.end_time_unix_nano_column@)), ColumnModel::UInt64(c.end_time_unix_nano_column@)));
    assert(plain_fixed_names(e));
    lemma_plain_concat(acc, e);
    acc = acc + e;
    let e = emitted_if(c.trace_id_column@.len() > 0, (fm("trace_id"@, DataType::Binary, false), ColumnModel::Binary(all_some(string_views(c.trace_id_column@)))));
    assert(plain_fixed_names(e));
    lemma_plain_concat(acc, e);
    acc = acc + e;
    let e = emitted_if(c.span_id_column@.len() > 0, (fm("span_id"@, DataType::Binary, false), ColumnModel::Binary(all_some(string_views(c.span_id_column@)))));
    assert(plain_fixed_names(e));
    lemma_plain_concat(acc, e);
    acc = acc + e;
    let e = nullable_string_entries("trace_state"@, c.trace_state_column@);
    assert(plain_fixed_names(e));
    lemma_plain_concat(acc, e);
    acc = acc + e;
    let e = emitted_if(!all_null(c.parent_span_id_column@), (fm("parent_span_id"@, DataType::Binary, any_null(c.parent_span_id_column@)), ColumnModel::Binary(opt_views(c.parent_span_id_column@))));
    assert(plain_fixed_names(e));
    lemma_plain_concat(acc, e);
    acc = acc + e;
    assert(acc =~= span_entries_head(c));
    let head = acc;
    let mut acc: Seq<Entry> = Seq::empty();
    let e = required_string_entries("name"@, c.name_column@);
    assert(plain_fixed_names(e));
    lemma_plain_concat(acc, e);
    acc = acc + e;
    let e = emitted_if(!all_null(c.kind_column@), (fm("kind"@, DataType::UInt8, any_null(c.kind_column@)), ColumnModel::UInt8(c.kind_column@)));
    assert(plain_fixed_names(e));
    lemma_plain_concat(acc, e);
    acc = acc + e;
    let e = emitted_if(!all_null(c.dropped_attrs_count_column@), (fm("dropped_attributes_count"@, DataType::UInt32, any_null(c.dropped_attrs_count_column@)), ColumnModel::UInt32(c.dropped_attrs_count_column@)));
    assert(plain_fixed_names(e));
    lemma_plain_concat(acc, e);
    acc = acc + e;
    let e = emitted_if(!all_null(c.dropped_events_count_column@), (fm("dropped_events_count"@, DataType::UInt32, any_null(c.dropped_events_count_column@)), ColumnModel::UInt32(c.dropped_events_count_column@)));
    assert(plain_fixed_names(e));
    lemma_plain_concat(acc, e);
    acc = acc + e;
    let e = emitted_if(!all_null(c.dropped_links_count_column@), (fm("dropped_links_count"@, DataType::UInt32, any_null(c.dropped_links_count_column@)), ColumnModel::UInt32(c.dropped_links_count_column@)));
    assert(plain_fixed_names(e));
    lemma_plain_concat(acc, e);
    acc = acc + e;
    assert(acc =~= span_entries_tail(c));
    let tail = acc;
    lemma_plain_concat(head, tail);
}

/// The spans table built from pivoted columns has an `id` column exactly
/// when the batch has at least one event or link.
pub proof fn lemma_column_span_id_iff_children(spans: Seq<Span>, d: DataColumns)
    requires
        pivots(d, spans),
    ensures
        ({
            let e = column_span_entries(d.spans, gen_id(spans));
            (exists|i: int| 0 <= i < e.len() && e[i].0.name == "id"@) <==> gen_id(spans)
        }),
{
    reveal_strlit("id");
    reveal_strlit("attributes_");
    let c = d.spans;
    let n = c.start_time_unix_nano_column@.len();
    let fixed = span_entries_head(c) + span_entries_tail(c);
    lemma_span_column_fixed_names(c);
    let idp = emitted_if(gen_id(spans) && n > 0, id_entry(n));
    let attrs = crate::encode::attribute_entries(c.attributes_column@, false);
    let e = column_span_entries(c, gen_id(spans));
    assert(e == fixed + idp + attrs);
    if gen_id(spans) {
        lemma_children_need_spans(spans);
        assert(n == spans.len());
        assert(idp == seq![id_entry(n)]);
        assert(e[fixed.len() as int] == id_entry(n));
        assert(e[fixed.len() as int].0.name == "id"@);
    }
    if exists|i: int| 0 <= i < e.len() && e[i].0.name == "id"@ {
        let i = choose|i: int| 0 <= i < e.len() && e[i].0.name == "id"@;
        if !gen_id(spans) {
            assert(idp.len() == 0);
            assert(e == fixed + attrs);
            if i < fixed.len() {
                assert(e[i] == fixed[i]);
                assert(fixed[i].0.name.len() > 2);
            } else {
                assert(e[i] == attrs[i - fixed.len()]);
                assert(attrs[i - fixed.len()].0.name.len() >= 11);
            }
        }
    }
}

/// Every attribute key that some span carries with a non-null value has
/// exactly one column, `attributes_<key>`, in the spans table built from
/// pivoted columns.
pub proof fn lemma_one_column_per_span_attribute_pivoted(spans: Seq<Span>, d: DataColumns, q: int)
    requires
        pivots(d, spans),
        0 <= q < span_kvs(spans).len(),
        value_type(span_kvs(spans)[q].value) is Some,
    ensures
        ({
            let e = column_span_entries(d.spans, gen_id(spans));
            let nm = attribute_column_name(span_kvs(spans)[q].key@);
            exists|i: int|
                0 <= i < e.len() && e[i].0.name == nm && forall|i2: int|
                    0 <= i2 < e.len() && e[i2].0.name == nm ==> i2 == i
        }),
{
    reveal_strlit("id");
    let kvs = span_kvs(spans);
    let schema = apply_all(Seq::empty(), kvs);
    lemma_seen_key_inferred(Seq::empty(), kvs, q);
    lemma_apply_all_invariants(Seq::empty(), kvs, 0);
    let c = d.spans;
    let n = c.start_time_unix_nano_column@.len();
    let fixed = span_entries_head(c) + span_entries_tail(c);
    lemma_span_column_fixed_names(c);
    let idp = emitted_if(gen_id(spans) && n > 0, id_entry(n));
    let prefix = fixed + idp;
    assert forall|i: int| 0 <= i < prefix.len() implies (#[trigger] prefix[i]).0.name.len() > 0
        && prefix[i].0.name[0] != 'a' by {
        if i < fixed.len() {
            assert(prefix[i] == fixed[i]);
        } else {
            assert(prefix[i] == idp[i - fixed.len()]);
        }
    }
    let maps = spans.map_values(|s: Span| crate::columnar::span_map(s));
    crate::encode::lemma_attribute_entries_of(c.attributes_column@, schema, maps, false);
    lemma_unique_attribute_column(prefix, schema, attribute_entries_of(schema, maps, false), kvs[q].key@);
    assert(column_span_entries(c, gen_id(spans)) == prefix + attribute_entries_of(schema, maps, false));
}

pub open spec fn entry_fields(e: Seq<Entry>) -> Seq<crate::column::FieldModel> {
    e.map_values(|x: Entry| x.0)
}

proof fn lemma_row_attribute_fields(af: Seq<crate::attribute::AttributeField>, maps: Seq<Seq<crate::model::KeyValue>>)
    ensures
        entry_fields(crate::encode::row_attribute_entries(crate::attribute::schema_model(af), maps))
            == crate::encode::inferred_fields(af),
{
    let sm = crate::attribute::schema_model(af);
    let e = crate::encode::row_attribute_entries(sm, maps);
    assert forall|j: int| 0 <= j < e.len() implies entry_fields(e)[j] == crate::encode::inferred_fields(af)[j] by {
        let info = sm[j].1;
        assert(info == af[j].info.model());
        match info.ty {
            crate::schema::FieldType::String => {
                match crate::encode::inferred_type(info) {
                    DataType::Dictionary(w) => {},
                    _ => {},
                }
            },
            _ => {},
        }
    }
    assert(entry_fields(e) =~= crate::encode::inferred_fields(af));
}

/// The spans table encoded from rows has exactly the fields of the inferred
/// spans schema (`infer_span_schema`): the fixed fields, `id` when asked, and
/// per inferred key the field whose type inference gave; columns and schema
/// align.
pub proof fn lemma_row_span_fields_are_inferred(spans: Seq<Span>, af: Seq<crate::attribute::AttributeField>, gen: bool)
    requires
        spans.len() > 0,
    ensures
        entry_fields(row_span_entries(spans, crate::attribute::schema_model(af), gen))
            == crate::encode::span_schema_fields(gen) + crate::encode::inferred_fields(af),
{
    let maps = spans.map_values(|s: Span| crate::columnar::span_map(s));
    lemma_row_attribute_fields(af, maps);
    let idp: Seq<Entry> = if gen { seq![id_entry(spans.len())] } else { Seq::empty() };
    let attrs = crate::encode::row_attribute_entries(crate::attribute::schema_model(af), maps);
    let e = span_fixed_entries(spans) + idp + attrs;
    assert(entry_fields(e) =~= entry_fields(span_fixed_entries(spans) + idp) + entry_fields(attrs));
    assert(entry_fields(span_fixed_entries(spans) + idp) =~= crate::encode::span_schema_fields(gen));
}

/// The events table encoded from rows has exactly the fields of the inferred
/// events schema (`infer_event_schema`), when there is an event.
pub proof fn lemma_row_event_fields_are_inferred(spans: Seq<Span>, af: Seq<crate::attribute::AttributeField>)
    requires
        event_rows(spans).len() > 0,
    ensures
        entry_fields(row_event_entries(spans, crate::attribute::schema_model(af)))
            == crate::encode::event_schema_fields() + crate::encode::inferred_fields(af),
{
    let rows = event_rows(spans);
    let maps = rows.map_values(|r: (int, crate::model::Event)| r.1.attributes@);
    lemma_row_attribute_fields(af, maps);
    let fixed = crate::encode::event_fixed_entries(rows);
    let attrs = crate::encode::row_attribute_entries(crate::attribute::schema_model(af), maps);
    assert(entry_fields(fixed + attrs) =~= entry_fields(fixed) + entry_fields(attrs));
    assert(entry_fields(fixed) =~= crate::encode::event_schema_fields());
}

/// The links table encoded from rows has exactly the fields of the inferred
/// links schema (`infer_link_schema`), when there is a link.
pub proof fn lemma_row_link_fields_are_inferred(spans: Seq<Span>, af: Seq<crate::attribute::AttributeField>)
    requires
        link_rows(spans).len() > 0,
    ensures
        entry_fields(row_link_entries(spans, crate::attribute::schema_model(af)))
            == crate::encode::link_schema_fields() + crate::encode::inferred_fields(af),
{
    let rows = link_rows(spans);
    let maps = rows.map_values(|r: (int, crate::model::Link)| r.1.attributes@);
    lemma_row_attribute_fields(af, maps);
    let fixed = crate::encode::link_fixed_entries(rows);
    let attrs = crate::encode::row_attribute_entries(crate::attribute::schema_model(af), maps);
    assert(entry_fields(fixed + attrs) =~= entry_fields(fixed) + entry_fields(attrs));
    assert(entry_fields(fixed) =~= crate::encode::link_schema_fields());
}

/// Every attribute key that some span carries with a non-null value names
/// exactly one field, `attributes_<key>`, of the inferred spans schema
/// (`infer_span_schema` with the `id` field when the batch has children).
pub proof fn lemma_one_field_per_span_attribute(spans: Seq<Span>, af: Seq<crate::attribute::AttributeField>, q: int)
    requires
        crate::attribute::schema_model(af) == apply_all(Seq::empty(), span_kvs(spans)),
        0 <= q < span_kvs(spans).len(),
        value_type(span_kvs(spans)[q].value) is Some,
    ensures
        ({
            let f = crate::encode::span_schema_fields(gen_id(spans)) + crate::encode::inferred_fields(af);
            let nm = attribute_column_name(span_kvs(spans)[q].key@);
            exists|i: int|
                0 <= i < f.len() && f[i].name == nm && forall|i2: int|
                    0 <= i2 < f.len() && f[i2].name == nm ==> i2 == i
        }),
{
    if spans.len() == 0 {
        assert(span_kvs(spans).len() == 0);
    }
    let schema = apply_all(Seq::empty(), span_kvs(spans));
    let e = row_span_entries(spans, schema, gen_id(spans));
    let f = crate::encode::span_schema_fields(gen_id(spans)) + crate::encode::inferred_fields(af);
    let nm = attribute_column_name(span_kvs(spans)[q].key@);
    lemma_one_column_per_span_attribute(spans, q);
    lemma_row_span_fields_are_inferred(spans, af, gen_id(spans));
    assert(entry_fields(e) == f);
    let i = choose|i: int|
        0 <= i < e.len() && e[i].0.name == nm && forall|i2: int|
            0 <= i2 < e.len() && e[i2].0.name == nm ==> i2 == i;
    assert(f[i] == e[i].0);
    assert forall|i2: int| 0 <= i2 < f.len() && f[i2].name == nm implies i2 == i by {
        assert(f[i2] == e[i2].0);
    }
}

} // verus!
