//! An observer of emitted tables: per column its type, row count, number of
//! distinct non-null values, number of nulls, whether it is
//! dictionary-encoded, and which rows are valid.
use vstd::prelude::*;
use std::collections::HashSet;
use crate::column::{Column, ColumnModel, present, opt_view};
use crate::columnar::null_count;
use crate::encode::Table;
use crate::schema::count_distinct;

verus! {

/// The physical type of a column, as statistics report it.
#[derive(PartialEq, Eq, Structural, Debug, Clone, Copy)]
pub enum ColumnType {
    U8,
    U32,
    U64,
    I8,
    I32,
    I64,
    F64,
    String,
    Boolean,
    Binary,
}

/// What the probe records of one column.
#[derive(Debug, Clone, PartialEq)]
pub struct ColumnStatistics {
    pub name: String,
    pub column_type: ColumnType,
    /// Rows, nulls included.
    pub total_values: usize,
    /// Distinct non-null values.
    pub cardinality: usize,
    /// Null rows.
    pub missing_values: usize,
    pub dictionary: bool,
    /// Whether each row holds a value.
    pub validity_map: Vec<bool>,
}

/// The statistics of the columns of one table, in schema order; nothing is
/// recorded when disabled.
#[derive(Debug)]
pub struct ColumnsStatistics {
    pub stats_enabled: bool,
    pub columns: Vec<ColumnStatistics>,
}

/// The statistics of the three tables of a batch.
#[derive(Debug)]
pub struct BatchStatistics {
    pub stats_enabled: bool,
    pub span_columns: ColumnsStatistics,
    pub event_columns: ColumnsStatistics,
    pub link_columns: ColumnsStatistics,
}

/// The non-null values of a sequence, in order.
pub open spec fn present_values<T>(v: Seq<Option<T>>) -> Seq<T>
    decreases v.len(),
{
    if v.len() == 0 {
        Seq::empty()
    } else {
        present_values(v.drop_last()) + match v.last() {
            Some(x) => seq![x],
            None => Seq::empty(),
        }
    }
}

pub open spec fn validity<T>(v: Seq<Option<T>>) -> Seq<bool> {
    v.map_values(|o: Option<T>| o is Some)
}

/// The keys by which the probe tells a column's values apart: the value
/// itself for integers and booleans, a signed integer by its two's
/// complement bits, a float by its bit pattern; strings count by their characters.
pub open spec fn column_keys(c: ColumnModel) -> Seq<Option<u128>> {
    match c {
        ColumnModel::UInt8(v) => v.map_values(|o: Option<u8>| match o { Some(x) => Some(x as u128), None => None }),
        ColumnModel::UInt32(v) => v.map_values(|o: Option<u32>| match o { Some(x) => Some(x as u128), None => None }),
        ColumnModel::UInt64(v) => v.map_values(|o: Option<u64>| match o { Some(x) => Some(x as u128), None => None }),
        ColumnModel::Int64(v) => v.map_values(|o: Option<i64>| match o { Some(x) => Some((x as u64) as u128), None => None }),
        ColumnModel::Float64(v) => v.map_values(|o: Option<u64>| match o { Some(x) => Some(x as u128), None => None }),
        ColumnModel::Boolean(v) => v.map_values(|o: Option<bool>| match o { Some(x) => Some(if x { 1u128 } else { 0u128 }), None => None }),
        _ => Seq::empty(),
    }
}

pub open spec fn column_type(c: ColumnModel) -> ColumnType {
    match c {
        ColumnModel::UInt8(_) => ColumnType::U8,
        ColumnModel::UInt32(_) => ColumnType::U32,
        ColumnModel::UInt64(_) => ColumnType::U64,
        ColumnModel::Int64(_) => ColumnType::I64,
        ColumnModel::Float64(_) => ColumnType::F64,
        ColumnModel::Boolean(_) => ColumnType::Boolean,
        ColumnModel::Utf8(_) => ColumnType::String,
        ColumnModel::Binary(_) => ColumnType::Binary,
        ColumnModel::Dictionary(_, _) => ColumnType::String,
    }
}

/// The statistics of column `c` named `name`.
pub open spec fn column_statistics_match(s: ColumnStatistics, name: Seq<char>, c: ColumnModel) -> bool {
    &&& s.name@ == name
    &&& s.column_type == column_type(c)
    &&& s.total_values == c.rows()
    &&& s.dictionary == (c is Dictionary)
    &&& match c {
        ColumnModel::Utf8(v) => string_summary(s, v),
        ColumnModel::Binary(v) => string_summary(s, v),
        ColumnModel::Dictionary(_, v) => string_summary(s, v),
        _ => key_summary(s, column_keys(c)),
    }
}

pub open spec fn string_summary(s: ColumnStatistics, v: Seq<Option<Seq<char>>>) -> bool {
    &&& s.cardinality == present(v).to_set().len()
    &&& s.missing_values == null_count(v)
    &&& s.validity_map@ == validity(v)
}

pub open spec fn key_summary(s: ColumnStatistics, k: Seq<Option<u128>>) -> bool {
    &&& s.cardinality == present_values(k).to_set().len()
    &&& s.missing_values == null_count(k)
    &&& s.validity_map@ == validity(k)
}

/// Number of distinct keys, counted in a hash set.
fn count_distinct_keys(keys: &[u128]) -> (r: usize)
    ensures
        r == keys@.to_set().len(),
{
    broadcast use vstd::std_specs::hash::group_hash_axioms;
    let mut seen: HashSet<u128> = HashSet::new();
    let n = keys.len();
    let mut i: usize = 0;
    while i < n
        invariant
            n == keys@.len(),
            i <= n,
            seen@ == keys@.take(i as int).to_set(),
        decreases n - i,
    {
        seen.insert(keys[i]);
        assert(keys@.take(i + 1) =~= keys@.take(i as int).push(keys@[i as int]));
        assert(keys@.take(i + 1).to_set() =~= keys@.take(i as int).to_set().insert(keys@[i as int])) by {
            let t = keys@.take(i as int);
            assert forall|x: u128| keys@.take(i + 1).to_set().contains(x) <==> t.to_set().insert(keys@[i as int]).contains(x) by {
                if keys@.take(i + 1).contains(x) {
                    let j = choose|j: int| 0 <= j < i + 1 && #[trigger] keys@.take(i + 1)[j] == x;
                    if j < i {
                        assert(t[j] == x);
                    }
                }
                if t.contains(x) {
                    let j = choose|j: int| 0 <= j < i && #[trigger] t[j] == x;
                    assert(keys@.take(i + 1)[j] == x);
                }
                if x == keys@[i as int] {
                    assert(keys@.take(i + 1)[i as int] == x);
                }
            }
        }
        i += 1;
    }
    assert(keys@.take(n as int) =~= keys@);
    seen.len()
}

/// Null count, validity map and non-null keys of a key sequence.
fn summarize_keys(k: &Vec<Option<u128>>) -> (r: (usize, Vec<bool>, Vec<u128>))
    ensures
        r.0 == null_count(k@),
        r.1@ == validity(k@),
        r.2@ == present_values(k@),
{
    let mut missing: usize = 0;
    let mut valid: Vec<bool> = Vec::new();
    let mut present_keys: Vec<u128> = Vec::new();
    let n = k.len();
    let mut i: usize = 0;
    while i < n
        invariant
            n == k@.len(),
            i <= n,
            missing == null_count(k@.take(i as int)),
            missing <= i,
            valid@ == validity(k@.take(i as int)),
            present_keys@ == present_values(k@.take(i as int)),
        decreases n - i,
    {
        assert(k@.take(i + 1).drop_last() =~= k@.take(i as int));
        match k[i] {
            Some(x) => {
                valid.push(true);
                present_keys.push(x);
                assert(present_keys@ =~= present_values(k@.take(i + 1)));
            },
            None => {
                valid.push(false);
                missing += 1;
                assert(present_keys@ =~= present_values(k@.take(i + 1)));
            },
        }
        assert(valid@ =~= validity(k@.take(i + 1)));
        i += 1;
    }
    assert(k@.take(n as int) =~= k@);
    (missing, valid, present_keys)
}

/// Null count, validity map and distinct count of a string column.
fn summarize_strings(v: &[Option<String>]) -> (r: (usize, Vec<bool>, usize))
    ensures
        r.0 == null_count(crate::column::opt_views(v@)),
        r.1@ == validity(crate::column::opt_views(v@)),
        r.2 == present(crate::column::opt_views(v@)).to_set().len(),
{
    let ghost w = crate::column::opt_views(v@);
    let mut missing: usize = 0;
    let mut valid: Vec<bool> = Vec::new();
    let mut strings: Vec<String> = Vec::new();
    let n = v.len();
    let mut i: usize = 0;
    while i < n
        invariant
            n == v@.len(),
            w == crate::column::opt_views(v@),
            i <= n,
            missing == null_count(w.take(i as int)),
            missing <= i,
            valid@ == validity(w.take(i as int)),
            crate::schema::string_views(strings@) == present(w.take(i as int)),
        decreases n - i,
    {
        assert(w.take(i + 1).drop_last() =~= w.take(i as int));
        match &v[i] {
            Some(x) => {
                valid.push(true);
                strings.push(x.clone());
                assert(crate::schema::string_views(strings@) =~= present(w.take(i + 1)));
            },
            None => {
                valid.push(false);
                missing += 1;
                assert(crate::schema::string_views(strings@) =~= present(w.take(i + 1)));
            },
        }
        assert(valid@ =~= validity(w.take(i + 1)));
        i += 1;
    }
    assert(w.take(n as int) =~= w);
    let d = count_distinct(strings.as_slice());
    (missing, valid, d)
}

/// The string values behind a dictionary column's keys.
fn decode_dictionary(keys: &Vec<Option<usize>>, dict: &Vec<String>) -> (r: Vec<Option<String>>)
    requires
        forall|i: int| 0 <= i < keys@.len() && (#[trigger] keys@[i]) is Some ==> keys@[i]->Some_0 < dict@.len(),
    ensures
        crate::column::opt_views(r@) == crate::column::decode(keys@, dict@),
{
    let mut r: Vec<Option<String>> = Vec::new();
    let n = keys.len();
    let mut i: usize = 0;
    while i < n
        invariant
            n == keys@.len(),
            i <= n,
            r@.len() == i,
            forall|j: int| 0 <= j < keys@.len() && (#[trigger] keys@[j]) is Some ==> keys@[j]->Some_0 < dict@.len(),
            forall|j: int| 0 <= j < i ==> opt_view(#[trigger] r@[j]) == crate::column::decode(keys@, dict@)[j],
        decreases n - i,
    {
        let v = match keys[i] {
            Some(k) => Some(dict[k].clone()),
            None => None,
        };
        r.push(v);
        i += 1;
    }
    assert(crate::column::opt_views(r@) =~= crate::column::decode(keys@, dict@));
    r
}

/// The keys of a non-string column.
fn keys_of(c: &Column) -> (r: Vec<Option<u128>>)
    ensures
        r@ == column_keys(c.model()),
{
    let mut r: Vec<Option<u128>> = Vec::new();
    match c {
        Column::UInt8(v) => {
            let mut i: usize = 0;
            while i < v.len()
                invariant
                    i <= v@.len(),
                    r@ == column_keys(c.model()).take(i as int),
                    c.model() == ColumnModel::UInt8(v@),
                decreases v@.len() - i,
            {
                r.push(match v[i] { Some(x) => Some(x as u128), None => None });
                assert(r@ =~= column_keys(c.model()).take(i + 1));
                i += 1;
            }
        },
        Column::UInt32(v) => {
            let mut i: usize = 0;
            while i < v.len()
                invariant
                    i <= v@.len(),
                    r@ == column_keys(c.model()).take(i as int),
                    c.model() == ColumnModel::UInt32(v@),
                decreases v@.len() - i,
            {
                r.push(match v[i] { Some(x) => Some(x as u128), None => None });
                assert(r@ =~= column_keys(c.model()).take(i + 1));
                i += 1;
            }
        },
        Column::UInt64(v) => {
            let mut i: usize = 0;
            while i < v.len()
                invariant
                    i <= v@.len(),
                    r@ == column_keys(c.model()).take(i as int),
                    c.model() == ColumnModel::UInt64(v@),
                decreases v@.len() - i,
            {
                r.push(match v[i] { Some(x) => Some(x as u128), None => None });
                assert(r@ =~= column_keys(c.model()).take(i + 1));
                i += 1;
            }
        },
        Column::Int64(v) => {
            let mut i: usize = 0;
            while i < v.len()
                invariant
                    i <= v@.len(),
                    r@ == column_keys(c.model()).take(i as int),
                    c.model() == ColumnModel::Int64(v@),
                decreases v@.len() - i,
            {
                r.push(match v[i] { Some(x) => Some((x as u64) as u128), None => None });
                assert(r@ =~= column_keys(c.model()).take(i + 1));
                i += 1;
            }
        },
        Column::Float64(v) => {
            let mut i: usize = 0;
            while i < v.len()
                invariant
                    i <= v@.len(),
                    r@ == column_keys(c.model()).take(i as int),
                    c.model() == ColumnModel::Float64(v@),
                decreases v@.len() - i,
            {
                r.push(match v[i] { Some(x) => Some(x as u128), None => None });
                assert(r@ =~= column_keys(c.model()).take(i + 1));
                i += 1;
            }
        },
        Column::Boolean(v) => {
            let mut i: usize = 0;
            while i < v.len()
                invariant
                    i <= v@.len(),
                    r@ == column_keys(c.model()).take(i as int),
                    c.model() == ColumnModel::Boolean(v@),
                decreases v@.len() - i,
            {
                r.push(match v[i] { Some(x) => Some(if x { 1u128 } else { 0u128 }), None => None });
                assert(r@ =~= column_keys(c.model()).take(i + 1));
                i += 1;
            }
        },
        _ => {
            assert(r@ =~= column_keys(c.model()));
            return r;
        },
    }
    assert(r@ =~= column_keys(c.model()));
    r
}

/// The statistics of one column.
pub fn column_statistics(name: &String, c: &Column) -> (r: ColumnStatistics)
    requires
        c.wf(),
    ensures
        column_statistics_match(r, name@, c.model()),
{
    let total = match c {
        Column::UInt8(v) => v.len(),
        Column::UInt32(v) => v.len(),
        Column::UInt64(v) => v.len(),
        Column::Int64(v) => v.len(),
        Column::Float64(v) => v.len(),
        Column::Boolean(v) => v.len(),
        Column::Utf8(v) => v.len(),
        Column::Binary(v) => v.len(),
        Column::Dictionary(_, k, _) => k.len(),
    };
    match c {
        Column::Utf8(v) | Column::Binary(v) => {
            let (missing, valid, d) = summarize_strings(v.as_slice());
            let t = match c {
                Column::Binary(_) => ColumnType::Binary,
                _ => ColumnType::String,
            };
            ColumnStatistics { name: name.clone(), column_type: t, total_values: total, cardinality: d, missing_values: missing, dictionary: false, validity_map: valid }
        },
        Column::Dictionary(_, keys, dict) => {
            let values = decode_dictionary(keys, dict);
            let (missing, valid, d) = summarize_strings(values.as_slice());
            ColumnStatistics { name: name.clone(), column_type: ColumnType::String, total_values: total, cardinality: d, missing_values: missing, dictionary: true, validity_map: valid }
        },
        _ => {
            let k = keys_of(c);
            let (missing, valid, present_keys) = summarize_keys(&k);
            let d = count_distinct_keys(present_keys.as_slice());
            let t = match c {
                Column::UInt8(_) => ColumnType::U8,
                Column::UInt32(_) => ColumnType::U32,
                Column::UInt64(_) => ColumnType::U64,
                Column::Int64(_) => ColumnType::I64,
                Column::Float64(_) => ColumnType::F64,
                _ => ColumnType::Boolean,
            };
            ColumnStatistics { name: name.clone(), column_type: t, total_values: total, cardinality: d, missing_values: missing, dictionary: false, validity_map: valid }
        },
    }
}

impl ColumnsStatistics {
    pub fn new(stats_enabled: bool) -> (r: ColumnsStatistics)
        ensures
            r.stats_enabled == stats_enabled,
            r.columns@.len() == 0,
    {
        ColumnsStatistics { stats_enabled, columns: Vec::new() }
    }

    /// Records the statistics of every column of `table`, in schema order,
    /// when enabled; the probe never changes the table.
    pub fn report(&mut self, table: &Table)
        requires
            table.fields@.len() == table.columns@.len(),
            forall|i: int| 0 <= i < table.columns@.len() ==> (#[trigger] table.columns@[i]).wf(),
        ensures
            final(self).stats_enabled == old(self).stats_enabled,
            !old(self).stats_enabled ==> final(self).columns@ == old(self).columns@,
            old(self).stats_enabled ==> {
                &&& final(self).columns@.len() == old(self).columns@.len() + table.columns@.len()
                &&& final(self).columns@.take(old(self).columns@.len() as int) == old(self).columns@
                &&& forall|i: int|
                    0 <= i < table.columns@.len() ==> column_statistics_match(
                        #[trigger] final(self).columns@[old(self).columns@.len() + i],
                        table.fields@[i].name@,
                        table.columns@[i].model(),
                    )
            },
    {
        if !self.stats_enabled {
            return;
        }
        let ghost start = self.columns@;
        let n = table.columns.len();
        let mut i: usize = 0;
        assert(self.columns@.take(start.len() as int) =~= start);
        while i < n
            invariant
                n == table.columns@.len(),
                table.fields@.len() == n,
                forall|q: int| 0 <= q < table.columns@.len() ==> (#[trigger] table.columns@[q]).wf(),
                i <= n,
                self.stats_enabled,
                self.columns@.len() == start.len() + i,
                self.columns@.take(start.len() as int) == start,
                forall|q: int|
                    0 <= q < i ==> column_statistics_match(
                        #[trigger] self.columns@[start.len() + q],
                        table.fields@[q].name@,
                        table.columns@[q].model(),
                    ),
            decreases n - i,
        {
            let s = column_statistics(&table.fields[i].name, &table.columns[i]);
            let ghost before = self.columns@;
            self.columns.push(s);
            assert(self.columns@.take(start.len() as int) =~= before.take(start.len() as int));
            assert forall|q: int| 0 <= q < i + 1 implies column_statistics_match(
                #[trigger] self.columns@[start.len() + q],
                table.fields@[q].name@,
                table.columns@[q].model(),
            ) by {
                if q < i {
                    assert(self.columns@[start.len() + q] == before[start.len() + q]);
                }
            }
            i += 1;
        }
    }
}

impl BatchStatistics {
    pub fn new(stats_enabled: bool) -> (r: BatchStatistics)
        ensures
            r.stats_enabled == stats_enabled,
            r.span_columns.stats_enabled == stats_enabled && r.span_columns.columns@.len() == 0,
            r.event_columns.stats_enabled == stats_enabled && r.event_columns.columns@.len() == 0,
            r.link_columns.stats_enabled == stats_enabled && r.link_columns.columns@.len() == 0,
    {
        BatchStatistics {
            stats_enabled,
            span_columns: ColumnsStatistics::new(stats_enabled),
            event_columns: ColumnsStatistics::new(stats_enabled),
            link_columns: ColumnsStatistics::new(stats_enabled),
        }
    }
}

} // verus!
