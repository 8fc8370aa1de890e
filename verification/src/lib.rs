//! SAP MCP server: the verified core.

pub mod text;
pub mod numeral;
pub mod strmap;
pub mod table;
pub mod json;
pub mod codec;
pub mod config;
pub mod tenant;
pub mod gated;
pub mod cache;
pub mod field_acl;
pub mod registry;
pub mod edmx;
pub mod odata;
pub mod sap_client;
pub mod exchanges;
pub mod pool;
pub mod entity;
pub mod ops;
pub mod handler;
pub mod guarantees;
pub mod protocol;
pub mod reads;
pub mod writes;
pub mod transport;
pub mod startup;
