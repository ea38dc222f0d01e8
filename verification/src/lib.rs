use vstd::prelude::*;

pub mod text;
pub mod release;
pub mod config;
pub mod limits;
pub mod redact;
pub mod http_meta;
pub mod clock;
pub mod features;
pub mod routes;
pub mod grpc;
pub mod proto;
pub mod preview;
pub mod status;
pub mod traffic;
pub mod container;
pub mod license;
pub mod kube;
pub mod projects;
pub mod mcp;
pub mod audit;
pub mod exchange;
pub mod json;
pub mod kube_read;
pub mod har;
pub mod support;
pub mod polar;
pub mod h2_stream;
