//! Errors of the library.

use vstd::prelude::*;

verus! {

/// Errors about endpoints and their handles.
#[derive(Debug)]
pub enum EndpointError {
    NoHandleInUse,
    AccessHandleBody,
    EmptyHandle,
    EmptyHandleName,
    AlreadyExistingHandle,
    HandleNotFound(String),
    SaveHandle,
    GetHandleChildren,
    ParseHandleSpec,
    ReadHandleSpec,
    SerializeEndpoint,
    SaveEndpoint,
    GetEntryBuilderHandle,
    RemoveChildrenOnNonRecursiveMode,
    RemoveHandleFiles,
    NoHandleParentDir,
    ModifyBody,
    SetRequestBody,
    SerializeUri,
}

/// Errors about environments.
#[derive(Debug)]
pub enum EnvError {
    AlreadyExistingEnv,
    GetEnvs,
    ParseEnvName,
    EnvInUse(String),
    DeleteEnv,
    NotFound,
    CreateEnvDir,
    UpdateVariablesFile,
    UpdateHeadersFile,
}

/// Errors about the stored state (handle and environment in use).
#[derive(Debug)]
pub enum StateError {
    GetState,
    SetState,
}

/// Errors about the request history.
#[derive(Debug)]
pub enum HistoryError {
    ReadEntries,
    Serialize,
    Save,
    GetEntryBuilderHandle,
    Empty,
    ReadEntry,
    ParseEntry,
}

/// Errors about the configuration.
#[derive(Debug)]
pub enum ConfigError {
    SerializeConfig,
    InvalidConfigKey(String),
    SaveConfig,
}

/// Errors while sending a request.
#[derive(Debug)]
pub enum RequestError {
    ParseEndpointURI,
    NoHostInURI,
    NoAuthorityInURI,
    NoSchemeInURI,
    BuildURI,
    ParseLocationHeader,
    ParseCookie,
    RequestFailure,
}

/// Errors about cookies.
#[derive(Debug)]
pub enum CookieError {
    ReadCookies,
    SaveCookie,
    NoNameCookie,
    NoValueCookie,
    NoDomainCookie,
    InvalidFormat,
}

/// Every error of the library.
#[derive(Debug)]
pub enum Error {
    Init,
    AlreadyInitialized,
    Setup,
    /// A `key=value` (or `key: value`) pair could not be read.
    KeymapSet,
    /// No header with the requested name.
    HeaderNotFound,
    /// A variable to remove does not exist.
    RemoveHeader,
    EndpointError(EndpointError),
    HistoryError(HistoryError),
    EnvError(EnvError),
    RequestError(RequestError),
    StateError(StateError),
    ConfigErr(ConfigError),
    CookieErr(CookieError),
}

pub type Result<T = ()> = std::result::Result<T, Error>;

} // verus!
