//! IPv4 address to autonomous-system resolution: an immutable columnar range
//! table, the record layout of a persisted overflow store, a TTL-aware LRU
//! cache in front of both, and the helpers around them (CIDR blocks, key
//! masking, WHOIS field extraction).
pub mod asn;
pub mod cache;
pub mod cidr;
pub mod client;
pub mod cold;
pub mod dns;
pub mod geoip;
pub mod mcp;
pub mod resolver;
pub mod security;
pub mod table;
pub mod text;
pub mod whois;
