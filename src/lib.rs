//! A columnar encoder for batches of trace spans: schema inference over open
//! attribute maps, row-to-column pivot of spans, events and links, and the
//! envelope that carries the three encoded tables.
pub mod model;
pub mod schema;
pub mod attribute;
pub mod column;
pub mod columnar;
pub mod encode;
pub mod envelope;
pub mod batch;
pub mod statistics;
