//! Row-oriented input: spans with their nested events and links.
use vstd::prelude::*;

verus! {

/// A JSON number as the reader delivered it.
#[derive(Debug, Clone, Copy, PartialEq, Eq, Structural)]
pub enum Number {
    /// A non-negative integer.
    PosInt(u64),
    /// A negative integer.
    NegInt(i64),
    /// A number with a fraction or an exponent.
    Float,
}

/// A JSON-like attribute value. Arrays and objects carry nothing: the encoder drops them.
#[derive(Debug, Clone, PartialEq)]
pub enum AttributeValue {
    Null,
    Bool(bool),
    /// A number, and the IEEE-754 bits of its value as a 64-bit float, as
    /// the reader computed it.
    Number(Number, u64),
    String(String),
    Array,
    Object,
}

/// One entry of an attribute map.
#[derive(Debug, Clone, PartialEq)]
pub struct KeyValue {
    pub key: String,
    pub value: AttributeValue,
}

/// An attribute map, in the order in which the reader produced its entries.
pub type Attributes = Vec<KeyValue>;

#[derive(Debug, Clone, PartialEq)]
pub struct Event {
    pub time_unix_nano: u64,
    pub name: String,
    pub attributes: Attributes,
    pub dropped_attributes_count: Option<u32>,
}

#[derive(Debug, Clone, PartialEq)]
pub struct Link {
    pub trace_id: String,
    pub span_id: String,
    pub trace_state: Option<String>,
    pub attributes: Attributes,
    pub dropped_attributes_count: Option<u32>,
}

#[derive(Debug, Clone, PartialEq)]
pub struct Span {
    pub trace_id: String,
    pub span_id: String,
    pub trace_state: Option<String>,
    pub parent_span_id: Option<String>,
    pub name: String,
    pub kind: Option<i32>,
    pub start_time_unix_nano: u64,
    pub end_time_unix_nano: Option<u64>,
    pub attributes: Option<Attributes>,
    pub dropped_attributes_count: Option<u32>,
    pub events: Option<Vec<Event>>,
    pub dropped_events_count: Option<u32>,
    pub links: Option<Vec<Link>>,
    pub dropped_links_count: Option<u32>,
}

/// The events of a span; a span without an events list has none.
pub open spec fn events_of(s: Span) -> Seq<Event> {
    match s.events {
        Some(v) => v@,
        None => Seq::empty(),
    }
}

/// The links of a span; a span without a links list has none.
pub open spec fn links_of(s: Span) -> Seq<Link> {
    match s.links {
        Some(v) => v@,
        None => Seq::empty(),
    }
}

/// Total number of events over a sequence of spans.
pub open spec fn event_count(spans: Seq<Span>) -> nat
    decreases spans.len(),
{
    if spans.len() == 0 {
        0
    } else {
        event_count(spans.drop_last()) + events_of(spans.last()).len()
    }
}

/// Total number of links over a sequence of spans.
pub open spec fn link_count(spans: Seq<Span>) -> nat
    decreases spans.len(),
{
    if spans.len() == 0 {
        0
    } else {
        link_count(spans.drop_last()) + links_of(spans.last()).len()
    }
}

} // verus!
