//! A local tool-composition bus: a broker that assigns identities and
//! arranges fan-out relays, the codecs for its control and data wire
//! formats, and the in-memory buffers that consumers present data with.

pub mod adapter;
pub mod buffer;
pub mod frame;
pub mod ids;
pub mod json;
pub mod protocol;
pub mod relay;
pub mod ring;
pub mod rope;
pub mod router;
pub mod textops;
pub mod viewer;
