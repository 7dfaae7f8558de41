pub mod endpoint;
pub mod env;
pub mod error;
pub mod headers;
pub mod pairmap;
pub mod text;
pub mod uri;
pub mod store;
pub mod handle;
pub mod config;
pub mod project;
pub mod tree;
pub mod resolve;
pub mod envs;
pub mod history;
pub mod action;
pub mod snippet;
pub mod color;
pub mod request;
pub mod validator;
pub mod editor;
pub mod cookie;
pub mod sync;
