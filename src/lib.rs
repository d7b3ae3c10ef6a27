//! Server-page templates: parsing, source generation, artifact planning,
//! library bookkeeping, and the request/response runtime that compiled pages
//! use.

pub mod compiler;
pub mod config;
pub mod context;
pub mod engine;
pub mod generator;
pub mod loader;
pub mod parser;
pub mod request;
pub mod response;
pub mod runtime;
pub mod serve;
pub mod table;
pub mod text;
pub mod wire;

pub use compiler::{BuildStep, CompileError, CompileOptions, Compiler, Platform};
pub use config::{ConnectionConfig, DatabaseConfig, RspConfig};
pub use context::{clear_context, get_context, set_context, RequestContext};
pub use engine::{include_missing, prepare_render, RenderJob, RenderResult};
pub use generator::{escape_string, GeneratedCode, Generator};
pub use loader::Loader;
pub use parser::{ParseError, ParsedTemplate, Parser, Token};
pub use request::{escape_html, urldecode, Cookies, Headers, Params, Request};
pub use response::{set_cookie_header, ResponseControl};
pub use runtime::{
    clear_request, get_response_control, header, header_url, req, set_request, CleanCookie,
    RuntimeState, SetCookie,
};
pub use wire::{parse_cookies, parse_headers};
