//! A read-only catalog of trading-card records ("cards") grouped into
//! releases ("decks"), filterable and paginated, served by interchangeable
//! storage backends.
//!
//! The library is the data-access core: the record model and filter types,
//! a uniform pagination rule, three query strategies that must honor the
//! same filter semantics (an in-memory snapshot scan, a bound-parameter
//! relational query builder, and a textual embedded-engine query path), and
//! a chunked cache tier that splits an oversized dataset snapshot across
//! bounded-size key-value slots and reassembles it on cold start.

pub mod cache;
pub mod embedded;
pub mod ids;
pub mod images;
pub mod lines;
pub mod model;
pub mod pagination;
pub mod query;
pub mod relational;
pub mod rows;
pub mod service;
pub mod snapshot;
pub mod text;
pub mod to_sql_query;
