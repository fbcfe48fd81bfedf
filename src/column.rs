//! Columns in Arrow's logical layout, the dictionary decision, and the
//! field-emission helpers that turn a source vector into a schema field and
//! its column (or into nothing, when the field is to be left out).
use vstd::prelude::*;
use vstd::arithmetic::power2::{pow2, lemma_pow2_unfold, lemma_pow2_strictly_increases};
use vstd::set_lib::lemma_len_subset;
use crate::schema::{count_distinct, string_views};

verus! {

/// Width of the integer keys of a dictionary-encoded column.
#[derive(PartialEq, Eq, Structural, Debug, Clone, Copy)]
pub enum KeyWidth {
    U8,
    U16,
    U32,
}

pub open spec fn width_bits(w: KeyWidth) -> nat {
    match w {
        KeyWidth::U8 => 8,
        KeyWidth::U16 => 16,
        KeyWidth::U32 => 32,
    }
}

/// Physical type of a column.
#[derive(PartialEq, Eq, Structural, Debug, Clone, Copy)]
pub enum DataType {
    UInt8,
    UInt32,
    UInt64,
    Int64,
    Float64,
    Boolean,
    Utf8,
    Binary,
    /// UTF-8 values behind integer keys of the given width.
    Dictionary(KeyWidth),
}

/// A field of an emitted schema.
#[derive(Debug, Clone, PartialEq)]
pub struct Field {
    pub name: String,
    pub data_type: DataType,
    pub nullable: bool,
}

pub struct FieldModel {
    pub name: Seq<char>,
    pub data_type: DataType,
    pub nullable: bool,
}

impl Field {
    pub open spec fn model(&self) -> FieldModel {
        FieldModel { name: self.name@, data_type: self.data_type, nullable: self.nullable }
    }
}

/// The values of one column, `None` standing for null.
#[derive(Debug, Clone, PartialEq)]
pub enum Column {
    UInt8(Vec<Option<u8>>),
    UInt32(Vec<Option<u32>>),
    UInt64(Vec<Option<u64>>),
    Int64(Vec<Option<i64>>),
    /// 64-bit floats, as their IEEE-754 bits.
    Float64(Vec<Option<u64>>),
    Boolean(Vec<Option<bool>>),
    Utf8(Vec<Option<String>>),
    /// Each value is the UTF-8 bytes of the string.
    Binary(Vec<Option<String>>),
    /// Keys into a dictionary of distinct strings.
    Dictionary(KeyWidth, Vec<Option<usize>>, Vec<String>),
}

/// What a column holds, row by row; a dictionary column is seen through its keys.
pub enum ColumnModel {
    UInt8(Seq<Option<u8>>),
    UInt32(Seq<Option<u32>>),
    UInt64(Seq<Option<u64>>),
    Int64(Seq<Option<i64>>),
    Float64(Seq<Option<u64>>),
    Boolean(Seq<Option<bool>>),
    Utf8(Seq<Option<Seq<char>>>),
    Binary(Seq<Option<Seq<char>>>),
    Dictionary(KeyWidth, Seq<Option<Seq<char>>>),
}

pub open spec fn opt_view(o: Option<String>) -> Option<Seq<char>> {
    match o {
        Some(s) => Some(s@),
        None => None,
    }
}

pub open spec fn opt_views(v: Seq<Option<String>>) -> Seq<Option<Seq<char>>> {
    v.map_values(|o: Option<String>| opt_view(o))
}

/// The strings behind dictionary keys.
pub open spec fn decode(keys: Seq<Option<usize>>, dict: Seq<String>) -> Seq<Option<Seq<char>>> {
    keys.map_values(
        |k: Option<usize>|
            match k {
                Some(i) => Some(dict[i as int]@),
                None => None,
            },
    )
}

pub open spec fn all_some<T>(v: Seq<T>) -> Seq<Option<T>> {
    v.map_values(|x: T| Some(x))
}

pub open spec fn all_null<T>(v: Seq<Option<T>>) -> bool {
    forall|i: int| 0 <= i < v.len() ==> v[i] is None
}

pub open spec fn any_null<T>(v: Seq<Option<T>>) -> bool {
    exists|i: int| 0 <= i < v.len() && v[i] is None
}

impl ColumnModel {
    pub open spec fn rows(self) -> nat {
        match self {
            ColumnModel::UInt8(v) => v.len(),
            ColumnModel::UInt32(v) => v.len(),
            ColumnModel::UInt64(v) => v.len(),
            ColumnModel::Int64(v) => v.len(),
            ColumnModel::Float64(v) => v.len(),
            ColumnModel::Boolean(v) => v.len(),
            ColumnModel::Utf8(v) => v.len(),
            ColumnModel::Binary(v) => v.len(),
            ColumnModel::Dictionary(_, v) => v.len(),
        }
    }

    pub open spec fn data_type(self) -> DataType {
        match self {
            ColumnModel::UInt8(_) => DataType::UInt8,
            ColumnModel::UInt32(_) => DataType::UInt32,
            ColumnModel::UInt64(_) => DataType::UInt64,
            ColumnModel::Int64(_) => DataType::Int64,
            ColumnModel::Float64(_) => DataType::Float64,
            ColumnModel::Boolean(_) => DataType::Boolean,
            ColumnModel::Utf8(_) => DataType::Utf8,
            ColumnModel::Binary(_) => DataType::Binary,
            ColumnModel::Dictionary(w, _) => DataType::Dictionary(w),
        }
    }

    /// Whether some row is null.
    pub open spec fn has_null(self) -> bool {
        match self {
            ColumnModel::UInt8(v) => any_null(v),
            ColumnModel::UInt32(v) => any_null(v),
            ColumnModel::UInt64(v) => any_null(v),
            ColumnModel::Int64(v) => any_null(v),
            ColumnModel::Float64(v) => any_null(v),
            ColumnModel::Boolean(v) => any_null(v),
            ColumnModel::Utf8(v) => any_null(v),
            ColumnModel::Binary(v) => any_null(v),
            ColumnModel::Dictionary(_, v) => any_null(v),
        }
    }
}

impl Column {
    pub open spec fn model(&self) -> ColumnModel {
        match self {
            Column::UInt8(v) => ColumnModel::UInt8(v@),
            Column::UInt32(v) => ColumnModel::UInt32(v@),
            Column::UInt64(v) => ColumnModel::UInt64(v@),
            Column::Int64(v) => ColumnModel::Int64(v@),
            Column::Float64(v) => ColumnModel::Float64(v@),
            Column::Boolean(v) => ColumnModel::Boolean(v@),
            Column::Utf8(v) => ColumnModel::Utf8(opt_views(v@)),
            Column::Binary(v) => ColumnModel::Binary(opt_views(v@)),
            Column::Dictionary(w, keys, dict) => ColumnModel::Dictionary(*w, decode(keys@, dict@)),
        }
    }

    /// A dictionary column's keys point into a duplicate-free dictionary
    /// that keys of its width can index.
    pub open spec fn wf(&self) -> bool {
        match self {
            Column::Dictionary(w, keys, dict) => {
                &&& forall|i: int|
                    0 <= i < keys@.len() && (#[trigger] keys@[i]) is Some ==> keys@[i]->Some_0
                        < dict@.len()
                &&& string_views(dict@).no_duplicates()
                &&& dict@.len() <= pow2(width_bits(*w))
                &&& string_views(dict@).to_set() == present(decode(keys@, dict@)).to_set()
            },
            _ => true,
        }
    }
}

/// Number of binary digits of `x`: the smallest `b` with `x < 2^b`.
pub open spec fn bit_length(x: nat) -> nat
    decreases x,
{
    if x == 0 {
        0
    } else {
        1 + bit_length(x / 2)
    }
}

/// Bits a key needs to tell `d` values apart: `ceil(log2(d))`.
pub open spec fn index_bits(d: nat) -> nat {
    if d <= 1 {
        0
    } else {
        bit_length((d - 1) as nat)
    }
}

/// The narrowest key width that can index `d` distinct values, if any.
pub open spec fn key_width_for(d: nat) -> Option<KeyWidth> {
    if index_bits(d) <= 8 {
        Some(KeyWidth::U8)
    } else if index_bits(d) <= 16 {
        Some(KeyWidth::U16)
    } else if index_bits(d) <= 32 {
        Some(KeyWidth::U32)
    } else {
        None
    }
}

pub proof fn lemma_bit_length_bound(x: nat)
    ensures
        x < pow2(bit_length(x)),
    decreases x,
{
    if x == 0 {
        vstd::arithmetic::power2::lemma_pow2_pos(0);
    } else {
        lemma_bit_length_bound(x / 2);
        lemma_pow2_unfold(bit_length(x));
    }
}

pub proof fn lemma_bit_length_at_most(x: nat, n: nat)
    requires
        x < pow2(n),
    ensures
        bit_length(x) <= n,
    decreases n,
{
    if x > 0 {
        if n == 0 {
            assert(pow2(0) == 1) by {
                vstd::arithmetic::power2::lemma2_to64();
            }
        } else {
            lemma_pow2_unfold(n);
            lemma_bit_length_at_most(x / 2, (n - 1) as nat);
        }
    }
}

/// A key width chosen for `d` values can index all of them.
pub proof fn lemma_key_width_indexes(d: nat)
    requires
        key_width_for(d) is Some,
    ensures
        d <= pow2(width_bits(key_width_for(d)->Some_0)),
{
    let w = width_bits(key_width_for(d)->Some_0);
    if d <= 1 {
        vstd::arithmetic::power2::lemma2_to64();
    } else {
        lemma_bit_length_bound((d - 1) as nat);
        if bit_length((d - 1) as nat) < w {
            lemma_pow2_strictly_increases(bit_length((d - 1) as nat), w);
        }
    }
}

/// Number of binary digits of `x`.
pub fn min_num_bits_to_represent(x: usize) -> (r: u32)
    ensures
        r == bit_length(x as nat),
        r <= 64,
{
    proof {
        vstd::arithmetic::power2::lemma2_to64();
        lemma_bit_length_at_most(x as nat, 64);
    }
    let mut y: usize = x;
    let mut b: u32 = 0;
    while y > 0
        invariant
            bit_length(x as nat) == b + bit_length(y as nat),
            bit_length(x as nat) <= 64,
        decreases y,
    {
        y = y / 2;
        b = b + 1;
    }
    b
}

/// The key width for `d` distinct values, computed.
pub fn key_width(d: usize) -> (r: Option<KeyWidth>)
    ensures
        r == key_width_for(d as nat),
{
    let bits = if d <= 1 {
        0
    } else {
        min_num_bits_to_represent(d - 1)
    };
    if bits <= 8 {
        Some(KeyWidth::U8)
    } else if bits <= 16 {
        Some(KeyWidth::U16)
    } else if bits <= 32 {
        Some(KeyWidth::U32)
    } else {
        None
    }
}

/// Keys that point at the dictionary entry holding each row's string, rows
/// `0..n`.
pub open spec fn keys_match(
    data: Seq<Option<String>>,
    keys: Seq<Option<usize>>,
    dict: Seq<String>,
    n: int,
) -> bool {
    forall|j: int|
        0 <= j < n ==> match #[trigger] data[j] {
            None => keys[j] is None,
            Some(s) => keys[j] is Some && keys[j]->Some_0 < dict.len() && dict[keys[j]->Some_0 as int]@
                == s@,
        }
}

/// A duplicate-free sequence of members of a finite set is no longer than the set.
proof fn lemma_unique_members_len(v: Seq<Seq<char>>, allowed: Set<Seq<char>>)
    requires
        allowed.finite(),
        v.no_duplicates(),
        forall|k: int| 0 <= k < v.len() ==> allowed.contains(#[trigger] v[k]),
    ensures
        v.len() <= allowed.len(),
{
    v.unique_seq_to_set();
    assert(v.to_set().subset_of(allowed));
    lemma_len_subset(v.to_set(), allowed);
}

/// Dictionary-encodes a string column: each distinct string is stored once,
/// in order of first appearance, and each row keeps the index of its string.
pub(crate) fn dictionary_encode(data: &[Option<String>], allowed: Ghost<Set<Seq<char>>>) -> (r: (
    Vec<Option<usize>>,
    Vec<String>,
))
    requires
        allowed@.finite(),
        forall|i: int|
            0 <= i < data@.len() && (#[trigger] data@[i]) is Some ==> allowed@.contains(
                data@[i]->Some_0@,
            ),
    ensures
        decode(r.0@, r.1@) == opt_views(data@),
        string_views(r.1@).no_duplicates(),
        string_views(r.1@).to_set() == present(opt_views(data@)).to_set(),
        r.1@.len() <= allowed@.len(),
        forall|i: int|
            0 <= i < r.0@.len() && (#[trigger] r.0@[i]) is Some ==> r.0@[i]->Some_0 < r.1@.len(),
{
    let mut keys: Vec<Option<usize>> = Vec::new();
    let mut dict: Vec<String> = Vec::new();
    let n = data.len();
    let mut i: usize = 0;
    while i < n
        invariant
            n == data@.len(),
            i <= n,
            keys@.len() == i,
            keys_match(data@, keys@, dict@, i as int),
            string_views(dict@).no_duplicates(),
            forall|k: int| 0 <= k < dict@.len() ==> allowed@.contains(#[trigger] dict@[k]@),
            forall|k: int|
                0 <= k < dict@.len() ==> exists|j: int|
                    0 <= j < i && opt_view(#[trigger] data@[j]) == Some((#[trigger] dict@[k])@),
            allowed@.finite(),
            forall|i: int|
                0 <= i < data@.len() && (#[trigger] data@[i]) is Some ==> allowed@.contains(
                    data@[i]->Some_0@,
                ),
        decreases n - i,
    {
        match &data[i] {
            None => {
                keys.push(None);
                assert(keys_match(data@, keys@, dict@, i + 1)) by {
                    assert forall|j: int| 0 <= j < i + 1 implies match #[trigger] data@[j] {
                        None => keys@[j] is None,
                        Some(s) => keys@[j] is Some && keys@[j]->Some_0 < dict@.len()
                            && dict@[keys@[j]->Some_0 as int]@ == s@,
                    } by {
                        if j < i {
                            assert(keys_match(data@, keys@.drop_last(), dict@, i as int));
                        }
                    }
                }
            },
            Some(s) => {
                let ghost old_dict = dict@;
                let ghost old_keys = keys@;
                let m = dict.len();
                let mut k: usize = 0;
                while k < m
                    invariant
                        m == dict@.len(),
                        k <= m,
                        forall|q: int| 0 <= q < k ==> dict@[q]@ != s@,
                    ensures
                        k <= m,
                        k < m ==> dict@[k as int]@ == s@,
                        forall|q: int| 0 <= q < k ==> dict@[q]@ != s@,
                    decreases m - k,
                {
                    if dict[k] == *s {
                        break;
                    }
                    k += 1;
                }
                if k == m {
                    let c = s.clone();
                    proof {
                        let v = string_views(dict@);
                        assert(!v.contains(s@));
                        lemma_unique_members_len(v, allowed@);
                        assert(allowed@.contains(s@));
                        assert(string_views(dict@.push(c)) =~= v.push(s@));
                        assert(v.push(s@).to_set().len() == v.len() + 1) by {
                            let w = v.push(s@);
                            assert(w.no_duplicates()) by {
                                assert forall|a: int, b: int|
                                    0 <= a < w.len() && 0 <= b < w.len() && a != b implies w[a]
                                    != w[b] by {
                                    if a < v.len() && b < v.len() {
                                    } else if a == v.len() {
                                        assert(w[b] == v[b]);
                                        assert(v.contains(v[b]));
                                    } else {
                                        assert(w[a] == v[a]);
                                        assert(v.contains(v[a]));
                                    }
                                }
                            }
                            w.unique_seq_to_set();
                        }
                    }
                    dict.push(c);
                }
                keys.push(Some(k));
                assert forall|q: int| 0 <= q < dict@.len() implies exists|j: int|
                    0 <= j < i + 1 && opt_view(#[trigger] data@[j]) == Some((#[trigger] dict@[q])@) by {
                    if q < old_dict.len() {
                        assert(dict@[q] == old_dict[q]);
                        let j = choose|j: int| 0 <= j < i && opt_view(#[trigger] data@[j]) == Some((#[trigger] old_dict[q])@);
                        assert(opt_view(data@[j]) == Some(dict@[q]@));
                    } else {
                        assert(opt_view(data@[i as int]) == Some(dict@[q]@));
                    }
                }
                assert(string_views(dict@).no_duplicates()) by {
                    let v = string_views(dict@);
                    v.unique_seq_to_set();
                    v.lemma_no_dup_set_cardinality();
                }
                assert(keys_match(data@, keys@, dict@, i + 1)) by {
                    assert forall|j: int| 0 <= j < i + 1 implies match #[trigger] data@[j] {
                        None => keys@[j] is None,
                        Some(s) => keys@[j] is Some && keys@[j]->Some_0 < dict@.len()
                            && dict@[keys@[j]->Some_0 as int]@ == s@,
                    } by {
                        if j < i {
                            assert(keys_match(data@, old_keys, old_dict, i as int));
                            assert(keys@[j] == old_keys[j]);
                            if data@[j] is Some {
                                assert(dict@[keys@[j]->Some_0 as int] == old_dict[keys@[j]->Some_0 as int]);
                            }
                        }
                    }
                }
            },
        }
        i += 1;
    }
    proof {
        lemma_unique_members_len(string_views(dict@), allowed@);
        let v = opt_views(data@);
        let dv = string_views(dict@);
        assert(dv.to_set() =~= present(v).to_set()) by {
            assert forall|x: Seq<char>| dv.to_set().contains(x) implies present(v).to_set().contains(x) by {
                let k = choose|k: int| 0 <= k < dv.len() && dv[k] == x;
                assert(dict@[k]@ == x);
                let j = choose|j: int| 0 <= j < n && opt_view(#[trigger] data@[j]) == Some((#[trigger] dict@[k])@);
                assert(v[j] == Some(x));
                lemma_present_contains(v, j);
            }
            assert forall|x: Seq<char>| present(v).to_set().contains(x) implies dv.to_set().contains(x) by {
                lemma_present_member(v, x);
                let j = choose|j: int| 0 <= j < v.len() && v[j] == Some(x);
                assert(keys_match(data@, keys@, dict@, n as int));
                assert(data@[j] is Some);
                let k = keys@[j]->Some_0 as int;
                assert(dv[k] == x);
            }
        }
        assert forall|j: int| 0 <= j < keys@.len() && (#[trigger] keys@[j]) is Some implies keys@[j]->Some_0 < dict@.len() by {
            assert(keys_match(data@, keys@, dict@, n as int));
            match data@[j] {
                None => {},
                Some(s) => {},
            }
        }
        assert(decode(keys@, dict@) =~= opt_views(data@)) by {
            assert forall|j: int| 0 <= j < n implies decode(keys@, dict@)[j] == opt_views(data@)[j] by {
                assert(keys_match(data@, keys@, dict@, n as int));
                match data@[j] {
                    None => {},
                    Some(s) => {},
                }
            }
        }
    }
    (keys, dict)
}

/// One field and its column were appended to `fields` and `columns`, the
/// column well-formed.
pub open spec fn appended(
    old_fields: Seq<Field>,
    new_fields: Seq<Field>,
    old_columns: Seq<Column>,
    new_columns: Seq<Column>,
    f: FieldModel,
    c: ColumnModel,
) -> bool {
    &&& new_fields.len() == old_fields.len() + 1
    &&& new_fields.drop_last() == old_fields
    &&& new_fields.last().model() == f
    &&& new_columns.len() == old_columns.len() + 1
    &&& new_columns.drop_last() == old_columns
    &&& new_columns.last().model() == c
    &&& new_columns.last().wf()
}

/// The non-null strings of a column, in row order.
pub open spec fn present(v: Seq<Option<Seq<char>>>) -> Seq<Seq<char>>
    decreases v.len(),
{
    if v.len() == 0 {
        Seq::empty()
    } else {
        present(v.drop_last()) + match v.last() {
            Some(s) => seq![s],
            None => Seq::empty(),
        }
    }
}

/// The type of a string column with `distinct` distinct values among
/// `non_null` non-null ones: dictionary-encoded when there is fewer than one
/// distinct value for each five values and keys of at most `cap` bits can
/// index them, plain UTF-8 otherwise.
pub open spec fn string_type(distinct: nat, non_null: nat, cap: nat) -> DataType {
    if 5 * distinct < non_null && index_bits(distinct) <= cap {
        DataType::Dictionary(key_width_for(distinct)->Some_0)
    } else {
        DataType::Utf8
    }
}

/// A string column of type `t`.
pub open spec fn string_column(t: DataType, v: Seq<Option<Seq<char>>>) -> ColumnModel {
    match t {
        DataType::Dictionary(w) => ColumnModel::Dictionary(w, v),
        _ => ColumnModel::Utf8(v),
    }
}

pub proof fn lemma_present_contains(v: Seq<Option<Seq<char>>>, i: int)
    requires
        0 <= i < v.len(),
        v[i] is Some,
    ensures
        present(v).contains(v[i]->Some_0),
    decreases v.len(),
{
    if i < v.len() - 1 {
        lemma_present_contains(v.drop_last(), i);
        let p = present(v.drop_last());
        let k = choose|k: int| 0 <= k < p.len() && p[k] == v[i]->Some_0;
        assert(present(v)[k] == p[k]);
    } else {
        let p = present(v);
        assert(p[p.len() - 1] == v[i]->Some_0);
    }
}

pub proof fn lemma_present_member(v: Seq<Option<Seq<char>>>, x: Seq<char>)
    requires
        present(v).to_set().contains(x),
    ensures
        exists|i: int| 0 <= i < v.len() && v[i] == Some(x),
    decreases v.len(),
{
    let p = present(v);
    let k = choose|k: int| 0 <= k < p.len() && p[k] == x;
    if v.len() > 0 {
        let q = present(v.drop_last());
        if k < q.len() {
            assert(q[k] == x);
            assert(q.to_set().contains(x));
            lemma_present_member(v.drop_last(), x);
            let i = choose|i: int| 0 <= i < v.drop_last().len() && v.drop_last()[i] == Some(x);
            assert(v[i] == Some(x));
        } else {
            assert(v[v.len() - 1] == Some(x));
        }
    }
}

pub proof fn lemma_present_all_some(v: Seq<Seq<char>>)
    ensures
        present(all_some(v)) == v,
    decreases v.len(),
{
    if v.len() > 0 {
        assert(all_some(v).drop_last() =~= all_some(v.drop_last()));
        lemma_present_all_some(v.drop_last());
        assert(v.drop_last() + seq![v.last()] =~= v);
    } else {
        assert(v =~= Seq::<Seq<char>>::empty());
    }
}

pub proof fn lemma_present_empty(v: Seq<Option<Seq<char>>>)
    requires
        present(v).len() == 0,
    ensures
        all_null(v),
{
    assert forall|i: int| 0 <= i < v.len() implies v[i] is None by {
        if v[i] is Some {
            lemma_present_contains(v, i);
        }
    }
}

pub(crate) fn push_field(
    fields: &mut Vec<Field>,
    columns: &mut Vec<Column>,
    name: &str,
    data_type: DataType,
    nullable: bool,
    column: Column,
)
    requires
        column.wf(),
    ensures
        appended(
            old(fields)@,
            final(fields)@,
            old(columns)@,
            final(columns)@,
            FieldModel { name: name@, data_type, nullable },
            column.model(),
        ),
{
    let f = Field { name: name.to_owned(), data_type, nullable };
    fields.push(f);
    columns.push(column);
    assert(final(fields)@.drop_last() =~= old(fields)@);
    assert(final(columns)@.drop_last() =~= old(columns)@);
}

pub(crate) fn copy_options<T: Copy>(data: &[Option<T>]) -> (r: Vec<Option<T>>)
    ensures
        r@ == data@,
{
    let mut r: Vec<Option<T>> = Vec::new();
    let n = data.len();
    let mut i: usize = 0;
    while i < n
        invariant
            n == data@.len(),
            i <= n,
            r@ == data@.take(i as int),
        decreases n - i,
    {
        r.push(data[i]);
        assert(r@ =~= data@.take(i + 1));
        i += 1;
    }
    assert(data@.take(n as int) =~= data@);
    r
}

pub(crate) fn wrap_values<T: Copy>(data: &[T]) -> (r: Vec<Option<T>>)
    ensures
        r@ == all_some(data@),
{
    let mut r: Vec<Option<T>> = Vec::new();
    let n = data.len();
    let mut i: usize = 0;
    while i < n
        invariant
            n == data@.len(),
            i <= n,
            r@ == all_some(data@.take(i as int)),
        decreases n - i,
    {
        r.push(Some(data[i]));
        assert(r@ =~= all_some(data@.take(i + 1)));
        i += 1;
    }
    assert(data@.take(n as int) =~= data@);
    r
}

/// Whether some value is null, and whether all are.
fn null_census<T>(data: &[Option<T>]) -> (r: (bool, bool))
    ensures
        r.0 == any_null(data@),
        r.1 == all_null(data@),
{
    let mut some_null = false;
    let mut every_null = true;
    let n = data.len();
    let mut i: usize = 0;
    while i < n
        invariant
            n == data@.len(),
            i <= n,
            some_null == any_null(data@.take(i as int)),
            every_null == all_null(data@.take(i as int)),
        decreases n - i,
    {
        let ghost t = data@.take(i + 1);
        assert(t.drop_last() =~= data@.take(i as int));
        if data[i].is_none() {
            some_null = true;
            assert(t[i as int] is None);
        } else {
            every_null = false;
            assert(t[i as int] is Some);
        }
        proof {
            if !some_null {
                assert forall|j: int| 0 <= j < t.len() implies t[j] is Some by {
                    if j < i {
                        assert(t[j] == data@.take(i as int)[j]);
                    }
                }
            }
            if every_null {
                assert forall|j: int| 0 <= j < t.len() implies t[j] is None by {
                    if j < i {
                        assert(t[j] == data@.take(i as int)[j]);
                    }
                }
            }
        }
        i += 1;
    }
    assert(data@.take(n as int) =~= data@);
    (some_null, every_null)
}

pub(crate) fn copy_strings(data: &[Option<String>]) -> (r: Vec<Option<String>>)
    ensures
        opt_views(r@) == opt_views(data@),
{
    let mut r: Vec<Option<String>> = Vec::new();
    let n = data.len();
    let mut i: usize = 0;
    while i < n
        invariant
            n == data@.len(),
            i <= n,
            r@.len() == i,
            forall|j: int| 0 <= j < i ==> opt_view(#[trigger] r@[j]) == opt_view(data@[j]),
        decreases n - i,
    {
        let v = match &data[i] {
            Some(s) => Some(s.clone()),
            None => None,
        };
        r.push(v);
        i += 1;
    }
    assert(opt_views(r@) =~= opt_views(data@));
    r
}

pub(crate) fn wrap_strings(data: &[String]) -> (r: Vec<Option<String>>)
    ensures
        opt_views(r@) == all_some(string_views(data@)),
{
    let mut r: Vec<Option<String>> = Vec::new();
    let n = data.len();
    let mut i: usize = 0;
    while i < n
        invariant
            n == data@.len(),
            i <= n,
            r@.len() == i,
            forall|j: int| 0 <= j < i ==> opt_view(#[trigger] r@[j]) == Some(data@[j]@),
        decreases n - i,
    {
        r.push(Some(data[i].clone()));
        i += 1;
    }
    assert(opt_views(r@) =~= all_some(string_views(data@)));
    r
}

fn present_strings(data: &[Option<String>]) -> (r: Vec<String>)
    ensures
        string_views(r@) == present(opt_views(data@)),
{
    let mut r: Vec<String> = Vec::new();
    let n = data.len();
    let mut i: usize = 0;
    while i < n
        invariant
            n == data@.len(),
            i <= n,
            string_views(r@) == present(opt_views(data@.take(i as int))),
        decreases n - i,
    {
        assert(opt_views(data@.take(i + 1)).drop_last() =~= opt_views(data@.take(i as int)));
        match &data[i] {
            Some(s) => {
                r.push(s.clone());
                assert(string_views(r@) =~= present(opt_views(data@.take(i + 1))));
            },
            None => {
                assert(string_views(r@) =~= present(opt_views(data@.take(i + 1))));
            },
        }
        i += 1;
    }
    assert(data@.take(n as int) =~= data@);
    r
}

/// Encodes a string column, dictionary-encoded or plain by `string_type`
/// with keys of at most `cap` bits; also gives the number of distinct values.
pub(crate) fn encode_strings(values: &[Option<String>], cap: u32) -> (r: (Column, usize))
    requires
        cap == 16 || cap == 32,
    ensures
        ({
            let v = opt_views(values@);
            let p = present(v);
            &&& r.1 == p.to_set().len()
            &&& r.0.wf()
            &&& r.0.model() == string_column(string_type(p.to_set().len(), p.len(), cap as nat), v)
        }),
{
    let ghost v = opt_views(values@);
    let present_values = present_strings(values);
    let d = count_distinct(present_values.as_slice());
    let ghost p = present(v);
    assert(d == p.to_set().len());
    proof {
        p.lemma_cardinality_of_set();
    }
    let non_null = present_values.len();
    let width = key_width(d);
    let fits = match width {
        Some(KeyWidth::U8) => true,
        Some(KeyWidth::U16) => true,
        Some(KeyWidth::U32) => cap == 32,
        None => false,
    };
    if d <= non_null / 5 && d * 5 < non_null && fits {
        let w = width.unwrap();
        let ghost allowed = p.to_set();
        proof {
            assert forall|i: int|
                0 <= i < values@.len() && (#[trigger] values@[i]) is Some implies allowed.contains(
                values@[i]->Some_0@,
            ) by {
                assert(v[i] == Some(values@[i]->Some_0@));
                lemma_present_contains(v, i);
            }
            lemma_key_width_indexes(d as nat);
        }
        let (keys, dict) = dictionary_encode(values, Ghost(allowed));
        (Column::Dictionary(w, keys, dict), d)
    } else {
        let copy = copy_strings(values);
        (Column::Utf8(copy), d)
    }
}

pub proof fn lemma_any_null_views(values: Seq<Option<String>>)
    ensures
        any_null(opt_views(values)) == any_null(values),
{
    let v = opt_views(values);
    if any_null(values) {
        let i = choose|i: int| 0 <= i < values.len() && values[i] is None;
        assert(v[i] is None);
    }
    if any_null(v) {
        let i = choose|i: int| 0 <= i < v.len() && v[i] is None;
        assert(values[i] is None);
    }
}

/// Emits a string column, dictionary-encoded or plain by `string_type`;
/// an all-null column is left out.
fn emit_strings(
    field_name: &str,
    values: &[Option<String>],
    fields: &mut Vec<Field>,
    columns: &mut Vec<Column>,
)
    ensures
        ({
            let v = opt_views(values@);
            let p = present(v);
            let d = p.to_set().len();
            if d == 0 {
                final(fields)@ == old(fields)@ && final(columns)@ == old(columns)@
            } else {
                appended(
                    old(fields)@,
                    final(fields)@,
                    old(columns)@,
                    final(columns)@,
                    FieldModel {
                        name: field_name@,
                        data_type: string_type(d, p.len(), 16),
                        nullable: any_null(v),
                    },
                    string_column(string_type(d, p.len(), 16), v),
                )
            }
        }),
{
    let (column, d) = encode_strings(values, 16);
    if d == 0 {
        return;
    }
    let census = null_census(values);
    proof {
        lemma_any_null_views(values@);
    }
    let t = match &column {
        Column::Dictionary(w, _, _) => DataType::Dictionary(*w),
        _ => DataType::Utf8,
    };
    push_field(fields, columns, field_name, t, census.0, column);
}

/// A required 64-bit unsigned field: left out when there is no row.
pub fn u64_non_nullable_field(field_name: &str, data: &[u64], fields: &mut Vec<Field>, columns: &mut Vec<Column>)
    ensures
        if data@.len() == 0 {
            final(fields)@ == old(fields)@ && final(columns)@ == old(columns)@
        } else {
            appended(old(fields)@, final(fields)@, old(columns)@, final(columns)@,
                FieldModel { name: field_name@, data_type: DataType::UInt64, nullable: false },
                ColumnModel::UInt64(all_some(data@)))
        },
{
    if data.len() == 0 {
        return;
    }
    let v = wrap_values(data);
    push_field(fields, columns, field_name, DataType::UInt64, false, Column::UInt64(v));
}

/// A required 32-bit unsigned field: left out when there is no row.
pub fn u32_non_nullable_field(field_name: &str, data: &[u32], fields: &mut Vec<Field>, columns: &mut Vec<Column>)
    ensures
        if data@.len() == 0 {
            final(fields)@ == old(fields)@ && final(columns)@ == old(columns)@
        } else {
            appended(old(fields)@, final(fields)@, old(columns)@, final(columns)@,
                FieldModel { name: field_name@, data_type: DataType::UInt32, nullable: false },
                ColumnModel::UInt32(all_some(data@)))
        },
{
    if data.len() == 0 {
        return;
    }
    let v = wrap_values(data);
    push_field(fields, columns, field_name, DataType::UInt32, false, Column::UInt32(v));
}

/// An optional 64-bit unsigned field: left out when every value is null,
/// nullable when some value is.
pub fn u64_nullable_field(field_name: &str, data: &[Option<u64>], fields: &mut Vec<Field>, columns: &mut Vec<Column>)
    ensures
        if all_null(data@) {
            final(fields)@ == old(fields)@ && final(columns)@ == old(columns)@
        } else {
            appended(old(fields)@, final(fields)@, old(columns)@, final(columns)@,
                FieldModel { name: field_name@, data_type: DataType::UInt64, nullable: any_null(data@) },
                ColumnModel::UInt64(data@))
        },
{
    let census = null_census(data);
    if census.1 {
        return;
    }
    let v = copy_options(data);
    push_field(fields, columns, field_name, DataType::UInt64, census.0, Column::UInt64(v));
}

/// An optional 64-bit signed field: left out when every value is null,
/// nullable when some value is.
pub fn i64_nullable_field(field_name: &str, data: &[Option<i64>], fields: &mut Vec<Field>, columns: &mut Vec<Column>)
    ensures
        if all_null(data@) {
            final(fields)@ == old(fields)@ && final(columns)@ == old(columns)@
        } else {
            appended(old(fields)@, final(fields)@, old(columns)@, final(columns)@,
                FieldModel { name: field_name@, data_type: DataType::Int64, nullable: any_null(data@) },
                ColumnModel::Int64(data@))
        },
{
    let census = null_census(data);
    if census.1 {
        return;
    }
    let v = copy_options(data);
    push_field(fields, columns, field_name, DataType::Int64, census.0, Column::Int64(v));
}

/// An optional floating-point field, values as IEEE-754 bits: left out when every value is null,
/// nullable when some value is.
pub fn f64_nullable_field(field_name: &str, data: &[Option<u64>], fields: &mut Vec<Field>, columns: &mut Vec<Column>)
    ensures
        if all_null(data@) {
            final(fields)@ == old(fields)@ && final(columns)@ == old(columns)@
        } else {
            appended(old(fields)@, final(fields)@, old(columns)@, final(columns)@,
                FieldModel { name: field_name@, data_type: DataType::Float64, nullable: any_null(data@) },
                ColumnModel::Float64(data@))
        },
{
    let census = null_census(data);
    if census.1 {
        return;
    }
    let v = copy_options(data);
    push_field(fields, columns, field_name, DataType::Float64, census.0, Column::Float64(v));
}

/// An optional boolean field: left out when every value is null, nullable
/// when some value is.
pub fn bool_nullable_field(field_name: &str, data: &[Option<bool>], fields: &mut Vec<Field>, columns: &mut Vec<Column>)
    ensures
        if all_null(data@) {
            final(fields)@ == old(fields)@ && final(columns)@ == old(columns)@
        } else {
            appended(old(fields)@, final(fields)@, old(columns)@, final(columns)@,
                FieldModel { name: field_name@, data_type: DataType::Boolean, nullable: any_null(data@) },
                ColumnModel::Boolean(data@))
        },
{
    let census = null_census(data);
    if census.1 {
        return;
    }
    let v = copy_options(data);
    push_field(fields, columns, field_name, DataType::Boolean, census.0, Column::Boolean(v));
}

/// An optional 8-bit unsigned field: left out when every value is null,
/// nullable when some value is.
pub fn u8_nullable_field(field_name: &str, data: &[Option<u8>], fields: &mut Vec<Field>, columns: &mut Vec<Column>)
    ensures
        if all_null(data@) {
            final(fields)@ == old(fields)@ && final(columns)@ == old(columns)@
        } else {
            appended(old(fields)@, final(fields)@, old(columns)@, final(columns)@,
                FieldModel { name: field_name@, data_type: DataType::UInt8, nullable: any_null(data@) },
                ColumnModel::UInt8(data@))
        },
{
    let census = null_census(data);
    if census.1 {
        return;
    }
    let v = copy_options(data);
    push_field(fields, columns, field_name, DataType::UInt8, census.0, Column::UInt8(v));
}

/// An optional 32-bit unsigned field: left out when every value is null,
/// nullable when some value is.
pub fn u32_nullable_field(field_name: &str, data: &[Option<u32>], fields: &mut Vec<Field>, columns: &mut Vec<Column>)
    ensures
        if all_null(data@) {
            final(fields)@ == old(fields)@ && final(columns)@ == old(columns)@
        } else {
            appended(old(fields)@, final(fields)@, old(columns)@, final(columns)@,
                FieldModel { name: field_name@, data_type: DataType::UInt32, nullable: any_null(data@) },
                ColumnModel::UInt32(data@))
        },
{
    let census = null_census(data);
    if census.1 {
        return;
    }
    let v = copy_options(data);
    push_field(fields, columns, field_name, DataType::UInt32, census.0, Column::UInt32(v));
}

/// A required binary field holding the bytes of each string: left out when
/// there is no row.
pub fn binary_non_nullable_field(field_name: &str, data: &[String], fields: &mut Vec<Field>, columns: &mut Vec<Column>)
    ensures
        if data@.len() == 0 {
            final(fields)@ == old(fields)@ && final(columns)@ == old(columns)@
        } else {
            appended(old(fields)@, final(fields)@, old(columns)@, final(columns)@,
                FieldModel { name: field_name@, data_type: DataType::Binary, nullable: false },
                ColumnModel::Binary(all_some(string_views(data@))))
        },
{
    if data.len() == 0 {
        return;
    }
    let v = wrap_strings(data);
    push_field(fields, columns, field_name, DataType::Binary, false, Column::Binary(v));
}

/// An optional binary field holding the bytes of each string: left out when
/// every value is null, nullable when some value is.
pub fn binary_nullable_field(field_name: &str, data: &[Option<String>], fields: &mut Vec<Field>, columns: &mut Vec<Column>)
    ensures
        if all_null(data@) {
            final(fields)@ == old(fields)@ && final(columns)@ == old(columns)@
        } else {
            appended(old(fields)@, final(fields)@, old(columns)@, final(columns)@,
                FieldModel { name: field_name@, data_type: DataType::Binary, nullable: any_null(data@) },
                ColumnModel::Binary(opt_views(data@)))
        },
{
    let census = null_census(data);
    if census.1 {
        return;
    }
    let v = copy_strings(data);
    push_field(fields, columns, field_name, DataType::Binary, census.0, Column::Binary(v));
}

/// An optional string field: left out when every value is null; otherwise
/// dictionary-encoded or plain by `string_type` over its non-null values.
pub fn string_nullable_field(field_name: &str, data: &[Option<String>], fields: &mut Vec<Field>, columns: &mut Vec<Column>)
    ensures
        ({
            let v = opt_views(data@);
            let p = present(v);
            let d = p.to_set().len();
            if all_null(data@) {
                final(fields)@ == old(fields)@ && final(columns)@ == old(columns)@
            } else {
                appended(
                    old(fields)@,
                    final(fields)@,
                    old(columns)@,
                    final(columns)@,
                    FieldModel {
                        name: field_name@,
                        data_type: string_type(d, p.len(), 16),
                        nullable: any_null(data@),
                    },
                    string_column(string_type(d, p.len(), 16), v),
                )
            }
        }),
{
    emit_strings(field_name, data, fields, columns);
    proof {
        let v = opt_views(data@);
        let p = present(v);
        p.lemma_cardinality_of_empty_set_is_0();
        if p.len() == 0 {
            lemma_present_empty(v);
            assert forall|i: int| 0 <= i < data@.len() implies data@[i] is None by {
                assert(v[i] is None);
            }
        }
        if all_null(data@) {
            assert(p.len() == 0) by {
                if p.len() > 0 {
                    assert(all_null(v)) by {
                        assert forall|i: int| 0 <= i < v.len() implies v[i] is None by {
                            assert(data@[i] is None);
                        }
                    }
                    lemma_present_all_null(v);
                }
            }
        }
        assert(any_null(v) == any_null(data@)) by {
            if any_null(data@) {
                let i = choose|i: int| 0 <= i < data@.len() && data@[i] is None;
                assert(v[i] is None);
            }
            if any_null(v) {
                let i = choose|i: int| 0 <= i < v.len() && v[i] is None;
                assert(data@[i] is None);
            }
        }
    }
}

pub proof fn lemma_present_all_null(v: Seq<Option<Seq<char>>>)
    requires
        all_null(v),
    ensures
        present(v).len() == 0,
    decreases v.len(),
{
    if v.len() > 0 {
        lemma_present_all_null(v.drop_last());
    }
}

/// A required string field: left out when there is no row; otherwise
/// dictionary-encoded or plain by `string_type`.
pub fn string_non_nullable_field(field_name: &str, data: &[String], fields: &mut Vec<Field>, columns: &mut Vec<Column>)
    ensures
        ({
            let s = string_views(data@);
            let d = s.to_set().len();
            if data@.len() == 0 {
                final(fields)@ == old(fields)@ && final(columns)@ == old(columns)@
            } else {
                appended(
                    old(fields)@,
                    final(fields)@,
                    old(columns)@,
                    final(columns)@,
                    FieldModel {
                        name: field_name@,
                        data_type: string_type(d, data@.len(), 16),
                        nullable: false,
                    },
                    string_column(string_type(d, data@.len(), 16), all_some(s)),
                )
            }
        }),
{
    let values = wrap_strings(data);
    emit_strings(field_name, values.as_slice(), fields, columns);
    proof {
        let s = string_views(data@);
        lemma_present_all_some(s);
        s.lemma_cardinality_of_empty_set_is_0();
        let v = all_some(s);
        assert(!any_null(v));
    }
}

/// In a well-formed dictionary column, rows holding equal strings hold the
/// same key: the dictionary stores each string once.
pub proof fn lemma_equal_strings_share_key(c: Column, i: int, j: int)
    requires
        c.wf(),
        c is Dictionary,
        0 <= i < c->Dictionary_1@.len(),
        0 <= j < c->Dictionary_1@.len(),
        c->Dictionary_1@[i] is Some,
        c->Dictionary_1@[j] is Some,
        decode(c->Dictionary_1@, c->Dictionary_2@)[i] == decode(c->Dictionary_1@, c->Dictionary_2@)[j],
    ensures
        c->Dictionary_1@[i] == c->Dictionary_1@[j],
{
    let keys = c->Dictionary_1@;
    let dict = c->Dictionary_2@;
    let a = keys[i]->Some_0 as int;
    let b = keys[j]->Some_0 as int;
    assert(a < dict.len() && b < dict.len());
    assert(string_views(dict)[a] == string_views(dict)[b]);
}

} // verus!
