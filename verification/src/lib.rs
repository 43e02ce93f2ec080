//! A portable HTTP routing core: route tables, request metadata, schema
//! decoding, responses, and OpenAPI rendering, with their behaviour stated
//! and proved.

pub mod text;


pub mod route;
pub mod method;
pub mod dispatch;
pub mod headers;
pub mod schemaval;
pub mod values;
pub mod decode;
pub mod cookie;
pub mod error;
pub mod response;
pub mod redirect;
pub mod openapi;
pub mod stream;
pub mod sse;
pub mod extract;
pub mod app;
pub mod multipart;
pub mod websocket;
pub mod request;
pub mod rename;
pub mod schema_derive;
pub mod arities;
