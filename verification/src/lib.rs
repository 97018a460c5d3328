//! The verified core of EasyLog, a multi-log analyzer that ingests logs over
//! syslog, writes the parsed events in batches, and serves a dashboard per log
//! type.
//!
//! - [`ingest`] turns a received message into a [`work`] item, with what its
//!   [`envelope`] says, routed by the [`sources`] map, and offers it to the
//!   writer's [`channel`].
//! - [`channel`] fills a batch from the channel, and [`flush`] writes it in one
//!   transaction; [`writer`] says what comes of that over many rounds.
//! - [`recv_buffer`] enlarges the receive buffer of the UDP socket.
//! - [`dashboard`] builds what the Apache dashboard shows, with the [`figures`]
//!   of its KPI cards.
//! - [`double`] and [`decimal`] are the arithmetic and the text of figures.

pub mod channel;
pub mod dashboard;
pub mod decimal;
pub mod double;
pub mod envelope;
pub mod figures;
pub mod flush;
pub mod ingest;
pub mod recv_buffer;
pub mod sources;
pub mod work;
pub mod writer;
