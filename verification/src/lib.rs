//! Reconstruction of Bluetooth Attribute Protocol (ATT) read/write
//! transactions from a captured host-controller packet trace.
//!
//! The pipeline decodes layered binary framing (link-layer packet
//! classification, connection-scoped fragment reassembly, attribute-protocol
//! PDU decoding) and correlates the resulting operations into paired
//! request/response transactions with resolved attribute names.

pub mod analyzer;
pub mod human;
pub mod parser;
pub mod pipeline;
