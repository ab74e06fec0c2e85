//! The coarse categories reported for failures of the store and of the
//! upstream network, and the text each is reported with.

use vstd::prelude::*;

verus! {

/// A failure of the store.
pub enum StoreFault {
    DeserializeFromStr,
    Io,
    RwLockRead,
    RwLockWrite,
    NotAnArray,
    LenNotDefined,
    NotAnObject,
    KeyNotFound,
    IndexOutOfBounds,
    InvalidJsonPath,
    /// A value of another type than asked for, with the store's account of it.
    TypeMismatch(String),
    Other,
}

/// The text reported for a failure of the store.
pub open spec fn store_fault_text(f: StoreFault) -> Seq<char> {
    match f {
        StoreFault::DeserializeFromStr => "Failed to deserialize from string"@,
        StoreFault::Io => "I/O error"@,
        StoreFault::RwLockRead => "Read error on RwLock"@,
        StoreFault::RwLockWrite => "Write error on RwLock"@,
        StoreFault::NotAnArray => "Not an array"@,
        StoreFault::LenNotDefined => "Length not defined"@,
        StoreFault::NotAnObject => "Not an object"@,
        StoreFault::KeyNotFound => "Key not found"@,
        StoreFault::IndexOutOfBounds => "Index out of bounds"@,
        StoreFault::InvalidJsonPath => "Invalid JSON path"@,
        StoreFault::TypeMismatch(s) => "Type mismatch: "@ + s@,
        StoreFault::Other => "Default error"@,
    }
}

impl StoreFault {
    /// The text reported for this failure.
    pub fn message(&self) -> (r: String)
        ensures
            r@ == store_fault_text(*self),
    {
        match self {
            StoreFault::DeserializeFromStr => String::from_str("Failed to deserialize from string"),
            StoreFault::Io => String::from_str("I/O error"),
            StoreFault::RwLockRead => String::from_str("Read error on RwLock"),
            StoreFault::RwLockWrite => String::from_str("Write error on RwLock"),
            StoreFault::NotAnArray => String::from_str("Not an array"),
            StoreFault::LenNotDefined => String::from_str("Length not defined"),
            StoreFault::NotAnObject => String::from_str("Not an object"),
            StoreFault::KeyNotFound => String::from_str("Key not found"),
            StoreFault::IndexOutOfBounds => String::from_str("Index out of bounds"),
            StoreFault::InvalidJsonPath => String::from_str("Invalid JSON path"),
            StoreFault::TypeMismatch(s) => String::from_str("Type mismatch: ").concat(s.as_str()),
            StoreFault::Other => String::from_str("Default error"),
        }
    }
}

/// A failure of a request to the upstream network.
#[derive(Clone, Copy, Debug, PartialEq, Eq, Structural)]
pub enum RpcFault {
    Io,
    Reqwest,
    Middleware,
    Rpc,
    SerdeJson,
    Signing,
    Transaction,
    Custom,
}

/// The text reported for a failure of the upstream network.
pub open spec fn rpc_fault_text(f: RpcFault) -> Seq<char> {
    match f {
        RpcFault::Io => "I/O error"@,
        RpcFault::Reqwest => "Reqwest error"@,
        RpcFault::Middleware => "Middleware error"@,
        RpcFault::Rpc => "RPC error"@,
        RpcFault::SerdeJson => "Serde JSON error"@,
        RpcFault::Signing => "Signing error"@,
        RpcFault::Transaction => "Transaction error"@,
        RpcFault::Custom => "Custom error"@,
    }
}

impl RpcFault {
    /// The text reported for this failure.
    pub fn message(&self) -> (r: String)
        ensures
            r@ == rpc_fault_text(*self),
    {
        match self {
            RpcFault::Io => String::from_str("I/O error"),
            RpcFault::Reqwest => String::from_str("Reqwest error"),
            RpcFault::Middleware => String::from_str("Middleware error"),
            RpcFault::Rpc => String::from_str("RPC error"),
            RpcFault::SerdeJson => String::from_str("Serde JSON error"),
            RpcFault::Signing => String::from_str("Signing error"),
            RpcFault::Transaction => String::from_str("Transaction error"),
            RpcFault::Custom => String::from_str("Custom error"),
        }
    }
}

} // verus!
