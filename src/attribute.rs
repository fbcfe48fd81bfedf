//! Attribute schema inference: every attribute map of a table is folded,
//! value by value, into one record per key, keys in order of first appearance.
use vstd::prelude::*;
use crate::model::{Attributes, Event, KeyValue, Link, Span, AttributeValue, events_of, links_of, event_count, link_count};
use crate::schema::{FieldInfo, FieldInfoModel, value_type, value_type_of, promote_type, observe, first_observation, string_views};

verus! {

/// The inferred record of one attribute key.
#[derive(Debug)]
pub struct AttributeField {
    pub name: String,
    pub info: FieldInfo,
}

pub type SchemaModel = Seq<(Seq<char>, FieldInfoModel)>;

pub open spec fn schema_model(v: Seq<AttributeField>) -> SchemaModel {
    v.map_values(|f: AttributeField| (f.name@, f.info.model()))
}

/// No key has two records.
pub open spec fn keys_unique(s: SchemaModel) -> bool {
    forall|i: int, j: int| 0 <= i < j < s.len() ==> s[i].0 != s[j].0
}

/// Every record counts at most `b` values.
pub open spec fn counts_at_most(s: SchemaModel, b: nat) -> bool {
    forall|i: int| 0 <= i < s.len() ==> s[i].1.non_null <= b
}

pub open spec fn has_key(s: SchemaModel, k: Seq<char>) -> bool {
    exists|j: int| 0 <= j < s.len() && s[j].0 == k
}

pub open spec fn key_index(s: SchemaModel, k: Seq<char>) -> int {
    choose|j: int| 0 <= j < s.len() && s[j].0 == k
}

/// The schema after one key-value pair.
pub open spec fn apply_kv(s: SchemaModel, kv: KeyValue) -> SchemaModel {
    if value_type(kv.value) is None {
        s
    } else if has_key(s, kv.key@) {
        let j = key_index(s, kv.key@);
        s.update(j, (kv.key@, observe(s[j].1, kv.value)))
    } else {
        s.push((kv.key@, first_observation(kv.value)))
    }
}

/// The schema after a sequence of key-value pairs, in order.
pub open spec fn apply_all(s: SchemaModel, kvs: Seq<KeyValue>) -> SchemaModel
    decreases kvs.len(),
{
    if kvs.len() == 0 {
        s
    } else {
        apply_kv(apply_all(s, kvs.drop_last()), kvs.last())
    }
}

/// The attribute pairs of all spans, span after span.
pub open spec fn span_kvs(spans: Seq<Span>) -> Seq<KeyValue>
    decreases spans.len(),
{
    if spans.len() == 0 {
        Seq::empty()
    } else {
        span_kvs(spans.drop_last()) + match spans.last().attributes {
            Some(a) => a@,
            None => Seq::empty(),
        }
    }
}

pub open spec fn event_list_kvs(events: Seq<Event>) -> Seq<KeyValue>
    decreases events.len(),
{
    if events.len() == 0 {
        Seq::empty()
    } else {
        event_list_kvs(events.drop_last()) + events.last().attributes@
    }
}

/// The attribute pairs of all events, in row order.
pub open spec fn event_kvs(spans: Seq<Span>) -> Seq<KeyValue>
    decreases spans.len(),
{
    if spans.len() == 0 {
        Seq::empty()
    } else {
        event_kvs(spans.drop_last()) + event_list_kvs(events_of(spans.last()))
    }
}

pub open spec fn link_list_kvs(links: Seq<Link>) -> Seq<KeyValue>
    decreases links.len(),
{
    if links.len() == 0 {
        Seq::empty()
    } else {
        link_list_kvs(links.drop_last()) + links.last().attributes@
    }
}

/// The attribute pairs of all links, in row order.
pub open spec fn link_kvs(spans: Seq<Span>) -> Seq<KeyValue>
    decreases spans.len(),
{
    if spans.len() == 0 {
        Seq::empty()
    } else {
        link_kvs(spans.drop_last()) + link_list_kvs(links_of(spans.last()))
    }
}

pub proof fn lemma_apply_kv_invariants(s: SchemaModel, kv: KeyValue, b: nat)
    requires
        keys_unique(s),
        counts_at_most(s, b),
    ensures
        keys_unique(apply_kv(s, kv)),
        counts_at_most(apply_kv(s, kv), b + 1),
{
    if value_type(kv.value) is None {
    } else if has_key(s, kv.key@) {
        let j = key_index(s, kv.key@);
        let r = apply_kv(s, kv);
        assert forall|i: int| 0 <= i < r.len() implies r[i].1.non_null <= b + 1 by {
            if i != j {
                assert(r[i] == s[i]);
            }
        }
    } else {
    }
}

/// Folding pairs keeps keys unique and counts bounded by the number of pairs.
pub proof fn lemma_apply_all_invariants(s: SchemaModel, kvs: Seq<KeyValue>, b: nat)
    requires
        keys_unique(s),
        counts_at_most(s, b),
    ensures
        keys_unique(apply_all(s, kvs)),
        counts_at_most(apply_all(s, kvs), b + kvs.len()),
    decreases kvs.len(),
{
    if kvs.len() > 0 {
        lemma_apply_all_invariants(s, kvs.drop_last(), b);
        lemma_apply_kv_invariants(apply_all(s, kvs.drop_last()), kvs.last(), (b + kvs.len() - 1) as nat);
    }
}

/// Folding a concatenation is folding one part after the other.
pub proof fn lemma_apply_all_concat(s: SchemaModel, a: Seq<KeyValue>, b: Seq<KeyValue>)
    ensures
        apply_all(s, a + b) == apply_all(apply_all(s, a), b),
    decreases b.len(),
{
    if b.len() == 0 {
        assert(a + b =~= a);
    } else {
        assert((a + b).drop_last() =~= a + b.drop_last());
        lemma_apply_all_concat(s, a, b.drop_last());
    }
}

/// Folds one key-value pair into the schema.
fn observe_attribute(kv: &KeyValue, attribute_types: &mut Vec<AttributeField>)
    requires
        keys_unique(schema_model(old(attribute_types)@)),
        counts_at_most(schema_model(old(attribute_types)@), (usize::MAX - 1) as nat),
    ensures
        schema_model(final(attribute_types)@) == apply_kv(schema_model(old(attribute_types)@), *kv),
{
    let ghost s = schema_model(attribute_types@);
    let t = value_type_of(&kv.value);
    if t.is_none() {
        return;
    }
    let n = attribute_types.len();
    let mut i: usize = 0;
    while i < n
        invariant
            n == attribute_types.len(),
            s == schema_model(attribute_types@),
            i <= n,
            forall|j: int| 0 <= j < i ==> s[j].0 != kv.key@,
        ensures
            i <= n,
            i < n ==> s[i as int].0 == kv.key@,
            forall|j: int| 0 <= j < i ==> s[j].0 != kv.key@,
        decreases n - i,
    {
        if attribute_types[i].name == kv.key {
            break;
        }
        i += 1;
    }
    if i < n {
        assert(s[i as int].0 == kv.key@);
        assert(has_key(s, kv.key@));
        assert(key_index(s, kv.key@) == i);
        let old_type = attribute_types[i].info.field_type;
        let new_type = promote_type(old_type, &kv.value);
        let count = attribute_types[i].info.non_null_count;
        assert(count <= usize::MAX - 1);
        attribute_types[i].info.field_type = new_type;
        attribute_types[i].info.non_null_count = count + 1;
        let ghost before = attribute_types@[i as int].info.dictionary_values@;
        match &kv.value {
            AttributeValue::String(v) => {
                attribute_types[i].info.dictionary_values.push(v.clone());
                assert(string_views(attribute_types@[i as int].info.dictionary_values@)
                    =~= string_views(before).push(v@));
            },
            _ => {},
        }
        assert(attribute_types@[i as int].info.model() == observe(s[i as int].1, kv.value));
        assert(schema_model(attribute_types@) =~= s.update(
            i as int,
            (kv.key@, observe(s[i as int].1, kv.value)),
        ));
    } else {
        assert(!has_key(s, kv.key@));
        let mut strings: Vec<String> = Vec::new();
        match &kv.value {
            AttributeValue::String(v) => {
                strings.push(v.clone());
                assert(string_views(strings@) =~= seq![v@]);
            },
            _ => {
                assert(string_views(strings@) =~= Seq::<Seq<char>>::empty());
            },
        }
        let info = FieldInfo {
            non_null_count: 1,
            field_type: t.unwrap(),
            dictionary_values: strings,
        };
        attribute_types.push(AttributeField { name: kv.key.clone(), info });
        assert(schema_model(attribute_types@) =~= s.push((kv.key@, first_observation(kv.value))));
    }
}

/// Folds every pair of an attribute map into the schema, in order.
pub fn infer_attribute_types(attributes: &Attributes, attribute_types: &mut Vec<AttributeField>)
    requires
        keys_unique(schema_model(old(attribute_types)@)),
        counts_at_most(
            schema_model(old(attribute_types)@),
            (usize::MAX - attributes@.len()) as nat,
        ),
        attributes@.len() <= usize::MAX,
    ensures
        schema_model(final(attribute_types)@) == apply_all(
            schema_model(old(attribute_types)@),
            attributes@,
        ),
{
    let ghost s0 = schema_model(attribute_types@);
    let ghost b: nat = (usize::MAX - attributes@.len()) as nat;
    let n = attributes.len();
    let mut i: usize = 0;
    while i < n
        invariant
            n == attributes@.len(),
            i <= n,
            keys_unique(s0),
            counts_at_most(s0, b),
            b + n <= usize::MAX,
            schema_model(attribute_types@) == apply_all(s0, attributes@.take(i as int)),
        decreases n - i,
    {
        proof {
            lemma_apply_all_invariants(s0, attributes@.take(i as int), b);
        }
        observe_attribute(&attributes[i], attribute_types);
        assert(attributes@.take(i + 1).drop_last() =~= attributes@.take(i as int));
        i += 1;
    }
    assert(attributes@.take(n as int) =~= attributes@);
}

proof fn lemma_span_kvs_prefix(spans: Seq<Span>, i: int)
    requires
        0 <= i <= spans.len(),
    ensures
        span_kvs(spans.take(i)).len() <= span_kvs(spans).len(),
    decreases spans.len(),
{
    if i < spans.len() {
        assert(spans.drop_last().take(i) =~= spans.take(i));
        lemma_span_kvs_prefix(spans.drop_last(), i);
    } else {
        assert(spans.take(i) =~= spans);
    }
}

proof fn lemma_event_list_kvs_prefix(events: Seq<Event>, j: int)
    requires
        0 <= j <= events.len(),
    ensures
        event_list_kvs(events.take(j)).len() <= event_list_kvs(events).len(),
    decreases events.len(),
{
    if j < events.len() {
        assert(events.drop_last().take(j) =~= events.take(j));
        lemma_event_list_kvs_prefix(events.drop_last(), j);
    } else {
        assert(events.take(j) =~= events);
    }
}

proof fn lemma_event_kvs_prefix(spans: Seq<Span>, i: int)
    requires
        0 <= i <= spans.len(),
    ensures
        event_kvs(spans.take(i)).len() <= event_kvs(spans).len(),
        event_count(spans.take(i)) <= event_count(spans),
    decreases spans.len(),
{
    if i < spans.len() {
        assert(spans.drop_last().take(i) =~= spans.take(i));
        lemma_event_kvs_prefix(spans.drop_last(), i);
    } else {
        assert(spans.take(i) =~= spans);
    }
}

proof fn lemma_link_list_kvs_prefix(links: Seq<Link>, j: int)
    requires
        0 <= j <= links.len(),
    ensures
        link_list_kvs(links.take(j)).len() <= link_list_kvs(links).len(),
    decreases links.len(),
{
    if j < links.len() {
        assert(links.drop_last().take(j) =~= links.take(j));
        lemma_link_list_kvs_prefix(links.drop_last(), j);
    } else {
        assert(links.take(j) =~= links);
    }
}

proof fn lemma_link_kvs_prefix(spans: Seq<Span>, i: int)
    requires
        0 <= i <= spans.len(),
    ensures
        link_kvs(spans.take(i)).len() <= link_kvs(spans).len(),
        link_count(spans.take(i)) <= link_count(spans),
    decreases spans.len(),
{
    if i < spans.len() {
        assert(spans.drop_last().take(i) =~= spans.take(i));
        lemma_link_kvs_prefix(spans.drop_last(), i);
    } else {
        assert(spans.take(i) =~= spans);
    }
}

/// Infers the attribute schema of the spans table.
pub fn infer_span_attribute_schema(spans: &[Span]) -> (r: Vec<AttributeField>)
    requires
        span_kvs(spans@).len() <= usize::MAX,
    ensures
        schema_model(r@) == apply_all(Seq::empty(), span_kvs(spans@)),
{
    let mut schema: Vec<AttributeField> = Vec::new();
    let ghost e: SchemaModel = Seq::empty();
    let n = spans.len();
    let mut i: usize = 0;
    while i < n
        invariant
            n == spans@.len(),
            i <= n,
            span_kvs(spans@).len() <= usize::MAX,
            e == Seq::<(Seq<char>, FieldInfoModel)>::empty(),
            schema_model(schema@) == apply_all(e, span_kvs(spans@.take(i as int))),
        decreases n - i,
    {
        let ghost prev = span_kvs(spans@.take(i as int));
        assert(spans@.take(i + 1).drop_last() =~= spans@.take(i as int));
        proof {
            lemma_apply_all_invariants(e, prev, 0);
            lemma_span_kvs_prefix(spans@, i + 1);
        }
        match &spans[i].attributes {
            Some(attributes) => {
                infer_attribute_types(attributes, &mut schema);
                proof {
                    lemma_apply_all_concat(e, prev, attributes@);
                }
            },
            None => {
                assert(prev + Seq::<KeyValue>::empty() =~= prev);
            },
        }
        i += 1;
    }
    assert(spans@.take(n as int) =~= spans@);
    schema
}

/// Infers the attribute schema of the events table, and counts the events.
pub fn infer_event_attribute_schema(spans: &[Span]) -> (r: (usize, Vec<AttributeField>))
    requires
        event_kvs(spans@).len() <= usize::MAX,
        event_count(spans@) <= usize::MAX,
    ensures
        r.0 == event_count(spans@),
        schema_model(r.1@) == apply_all(Seq::empty(), event_kvs(spans@)),
{
    let mut schema: Vec<AttributeField> = Vec::new();
    let mut event_count: usize = 0;
    let ghost e: SchemaModel = Seq::empty();
    let n = spans.len();
    let mut i: usize = 0;
    while i < n
        invariant
            n == spans@.len(),
            i <= n,
            event_kvs(spans@).len() <= usize::MAX,
            crate::model::event_count(spans@) <= usize::MAX,
            event_count == crate::model::event_count(spans@.take(i as int)),
            e == Seq::<(Seq<char>, FieldInfoModel)>::empty(),
            schema_model(schema@) == apply_all(e, event_kvs(spans@.take(i as int))),
        decreases n - i,
    {
        let ghost prev = event_kvs(spans@.take(i as int));
        assert(spans@.take(i + 1).drop_last() =~= spans@.take(i as int));
        proof {
            lemma_event_kvs_prefix(spans@, i + 1);
        }
        match &spans[i].events {
            Some(events) => {
                let m = events.len();
                let mut j: usize = 0;
                while j < m
                    invariant
                        m == events@.len(),
                        j <= m,
                        events_of(spans@[i as int]) == events@,
                        prev.len() + event_list_kvs(events@).len() <= usize::MAX,
                        i < n,
                        n == spans@.len(),
                        e == Seq::<(Seq<char>, FieldInfoModel)>::empty(),
                        crate::model::event_count(spans@.take(i + 1)) <= usize::MAX,
                        crate::model::event_count(spans@.take(i + 1)) == crate::model::event_count(spans@.take(i as int)) + m,
                        event_count == crate::model::event_count(spans@.take(i as int)) + j,
                        schema_model(schema@) == apply_all(
                            e,
                            prev + event_list_kvs(events@.take(j as int)),
                        ),
                    decreases m - j,
                {
                    let ghost cur = prev + event_list_kvs(events@.take(j as int));
                    assert(events@.take(j + 1).drop_last() =~= events@.take(j as int));
                    proof {
                        lemma_event_list_kvs_prefix(events@, j + 1);
                        lemma_apply_all_invariants(e, cur, 0);
                    }
                    infer_attribute_types(&events[j].attributes, &mut schema);
                    proof {
                        lemma_apply_all_concat(e, cur, events@[j as int].attributes@);
                        assert(cur + events@[j as int].attributes@ =~= prev + event_list_kvs(
                            events@.take(j + 1),
                        ));
                    }
                    event_count += 1;
                    j += 1;
                }
                assert(events@.take(m as int) =~= events@);
            },
            None => {
                assert(prev + Seq::<KeyValue>::empty() =~= prev);
            },
        }
        i += 1;
    }
    assert(spans@.take(n as int) =~= spans@);
    (event_count, schema)
}

/// Infers the attribute schema of the links table, and counts the links.
pub fn infer_link_attribute_schema(spans: &[Span]) -> (r: (usize, Vec<AttributeField>))
    requires
        link_kvs(spans@).len() <= usize::MAX,
        link_count(spans@) <= usize::MAX,
    ensures
        r.0 == link_count(spans@),
        schema_model(r.1@) == apply_all(Seq::empty(), link_kvs(spans@)),
{
    let mut schema: Vec<AttributeField> = Vec::new();
    let mut link_count: usize = 0;
    let ghost e: SchemaModel = Seq::empty();
    let n = spans.len();
    let mut i: usize = 0;
    while i < n
        invariant
            n == spans@.len(),
            i <= n,
            link_kvs(spans@).len() <= usize::MAX,
            crate::model::link_count(spans@) <= usize::MAX,
            link_count == crate::model::link_count(spans@.take(i as int)),
            e == Seq::<(Seq<char>, FieldInfoModel)>::empty(),
            schema_model(schema@) == apply_all(e, link_kvs(spans@.take(i as int))),
        decreases n - i,
    {
        let ghost prev = link_kvs(spans@.take(i as int));
        assert(spans@.take(i + 1).drop_last() =~= spans@.take(i as int));
        proof {
            lemma_link_kvs_prefix(spans@, i + 1);
        }
        match &spans[i].links {
            Some(links) => {
                let m = links.len();
                let mut j: usize = 0;
                while j < m
                    invariant
                        m == links@.len(),
                        j <= m,
                        links_of(spans@[i as int]) == links@,
                        prev.len() + link_list_kvs(links@).len() <= usize::MAX,
                        i < n,
                        n == spans@.len(),
                        e == Seq::<(Seq<char>, FieldInfoModel)>::empty(),
                        crate::model::link_count(spans@.take(i + 1)) <= usize::MAX,
                        crate::model::link_count(spans@.take(i + 1)) == crate::model::link_count(spans@.take(i as int)) + m,
                        link_count == crate::model::link_count(spans@.take(i as int)) + j,
                        schema_model(schema@) == apply_all(
                            e,
                            prev + link_list_kvs(links@.take(j as int)),
                        ),
                    decreases m - j,
                {
                    let ghost cur = prev + link_list_kvs(links@.take(j as int));
                    assert(links@.take(j + 1).drop_last() =~= links@.take(j as int));
                    proof {
                        lemma_link_list_kvs_prefix(links@, j + 1);
                        lemma_apply_all_invariants(e, cur, 0);
                    }
                    infer_attribute_types(&links[j].attributes, &mut schema);
                    proof {
                        lemma_apply_all_concat(e, cur, links@[j as int].attributes@);
                        assert(cur + links@[j as int].attributes@ =~= prev + link_list_kvs(
                            links@.take(j + 1),
                        ));
                    }
                    link_count += 1;
                    j += 1;
                }
                assert(links@.take(m as int) =~= links@);
            },
            None => {
                assert(prev + Seq::<KeyValue>::empty() =~= prev);
            },
        }
        i += 1;
    }
    assert(spans@.take(n as int) =~= spans@);
    (link_count, schema)
}

/// Every string that a key takes is recorded in that key's record.
pub proof fn lemma_string_recorded(s: SchemaModel, kvs: Seq<KeyValue>, q: int, x: Seq<char>)
    requires
        0 <= q < kvs.len(),
        kvs[q].value is String,
        kvs[q].value->String_0@ == x,
    ensures
        exists|j: int|
            0 <= j < apply_all(s, kvs).len() && apply_all(s, kvs)[j].0 == kvs[q].key@
                && apply_all(s, kvs)[j].1.strings.contains(x),
    decreases kvs.len(),
{
    let prev = apply_all(s, kvs.drop_last());
    let last = kvs.last();
    let r = apply_kv(prev, last);
    assert(apply_all(s, kvs) == r);
    if q == kvs.len() - 1 {
        if has_key(prev, last.key@) {
            let j = key_index(prev, last.key@);
            let st = r[j].1.strings;
            assert(st == prev[j].1.strings.push(x));
            assert(st[st.len() - 1] == x);
        } else {
            let j = prev.len() as int;
            assert(r[j].1.strings == seq![x]);
            assert(r[j].1.strings[0] == x);
        }
    } else {
        lemma_string_recorded(s, kvs.drop_last(), q, x);
        let j = choose|j: int|
            0 <= j < prev.len() && prev[j].0 == kvs[q].key@ && prev[j].1.strings.contains(x);
        let k = choose|k: int| 0 <= k < prev[j].1.strings.len() && prev[j].1.strings[k] == x;
        if value_type(last.value) is Some && has_key(prev, last.key@) && key_index(prev, last.key@) == j {
            let st = r[j].1.strings;
            assert(st[k] == x);
        } else {
            assert(r[j] == prev[j]);
        }
    }
}

} // verus!
