//! A protocol-sniffing TCP demultiplexer: identification of the first bytes a
//! client sends, selection of the upstream they belong to, and the bytes that
//! open the upstream stream.
pub mod endpoint;
pub mod identifier;
pub mod ssh;
pub mod strings;
pub mod tls;
pub mod sniff;
pub mod proxy;
pub mod relay;
