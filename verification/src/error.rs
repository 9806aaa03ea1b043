//! Typed errors of the block storage engine and of the surrounding services.
//!
//! Every error is a recoverable value returned to the calling facade. Each
//! error type has an abstract view used by contracts, and a `message` method
//! that renders the human-readable text (the engine itself never needs it).

use crate::decimal::dec_digits;
use crate::decimal::u128_to_dec_string;
use vstd::prelude::*;
use vstd::string::StringExecFns;

verus! {

/// Abstract value of a [`DataNodeError`], used in specifications.
pub enum DataNodeErrorV {
    /// The backing file could not be created after a disk was selected.
    CreateBlockError(Seq<char>),
    /// No disk's working directory holds a block with the given id.
    BlockNotFound(Seq<char>),
    /// The caller-supplied id cannot be parsed as a 128-bit identifier;
    /// carries the raw bytes that were supplied.
    WrongUuid(Seq<u8>),
    /// I/O failure or short read while reading a resolved block.
    ReadBlockError(Seq<char>),
    /// I/O failure while opening or writing a resolved block.
    UpdateBlockError(Seq<char>),
    /// I/O failure while removing a resolved block.
    DeleteBlockError(Seq<char>),
    /// No disk has room for a new block under the first-fit scan.
    NoSpace,
    /// An update payload exceeds the configured block-size ceiling;
    /// carries the configured size and the payload size.
    BlockOverflow(int, int),
}

/// Error taxonomy of the block storage engine.
#[derive(Debug)]
pub enum DataNodeError {
    CreateBlockError(String),
    BlockNotFound(String),
    WrongUuid(Vec<u8>),
    ReadBlockError(String),
    UpdateBlockError(String),
    DeleteBlockError(String),
    NoSpace,
    BlockOverflow(usize, usize),
}

impl View for DataNodeError {
    type V = DataNodeErrorV;

    open spec fn view(&self) -> DataNodeErrorV {
        match self {
            DataNodeError::CreateBlockError(s) => DataNodeErrorV::CreateBlockError(s@),
            DataNodeError::BlockNotFound(s) => DataNodeErrorV::BlockNotFound(s@),
            DataNodeError::WrongUuid(b) => DataNodeErrorV::WrongUuid(b@),
            DataNodeError::ReadBlockError(s) => DataNodeErrorV::ReadBlockError(s@),
            DataNodeError::UpdateBlockError(s) => DataNodeErrorV::UpdateBlockError(s@),
            DataNodeError::DeleteBlockError(s) => DataNodeErrorV::DeleteBlockError(s@),
            DataNodeError::NoSpace => DataNodeErrorV::NoSpace,
            DataNodeError::BlockOverflow(bs, got) => DataNodeErrorV::BlockOverflow(
                *bs as int,
                *got as int,
            ),
        }
    }
}

/// The rendered text of a [`DataNodeError`].
pub open spec fn data_node_error_message(e: DataNodeErrorV) -> Seq<char> {
    match e {
        DataNodeErrorV::CreateBlockError(s) => "Fail to create block "@ + s,
        DataNodeErrorV::BlockNotFound(s) => "Block "@ + s + " was not found"@,
        DataNodeErrorV::WrongUuid(b) => "Got wrong uuid format of "@ + dec_digits(b.len())
            + " bytes"@,
        DataNodeErrorV::ReadBlockError(s) => "Fail to read block "@ + s,
        DataNodeErrorV::UpdateBlockError(s) => "Fail to update block "@ + s,
        DataNodeErrorV::DeleteBlockError(s) => "Fail to delete block "@ + s,
        DataNodeErrorV::NoSpace => "No space"@,
        DataNodeErrorV::BlockOverflow(bs, got) => "Trying to write "@ + dec_digits(got as nat)
            + " bytes in block of "@ + dec_digits(bs as nat) + " bytes size"@,
    }
}

impl DataNodeError {
    /// Renders the error as text.
    pub fn message(&self) -> (r: String)
        ensures
            r@ == data_node_error_message(self@),
    {
        match self {
            DataNodeError::CreateBlockError(s) => String::from_str("Fail to create block ")
                .concat(s.as_str()),
            DataNodeError::BlockNotFound(s) => String::from_str("Block ")
                .concat(s.as_str())
                .concat(" was not found"),
            DataNodeError::WrongUuid(b) => String::from_str("Got wrong uuid format of ")
                .concat(u128_to_dec_string(b.len() as u128).as_str())
                .concat(" bytes"),
            DataNodeError::ReadBlockError(s) => String::from_str("Fail to read block ")
                .concat(s.as_str()),
            DataNodeError::UpdateBlockError(s) => String::from_str("Fail to update block ")
                .concat(s.as_str()),
            DataNodeError::DeleteBlockError(s) => String::from_str("Fail to delete block ")
                .concat(s.as_str()),
            DataNodeError::NoSpace => String::from_str("No space"),
            DataNodeError::BlockOverflow(bs, got) => String::from_str("Trying to write ")
                .concat(u128_to_dec_string(*got as u128).as_str())
                .concat(" bytes in block of ")
                .concat(u128_to_dec_string(*bs as u128).as_str())
                .concat(" bytes size"),
        }
    }
}

/// Abstract value of a [`ConvertError`], used in specifications.
pub enum ConvertErrorV {
    /// A typed error could not be rendered onto the wire.
    TypeToStatus(Seq<char>),
    /// A wire-level failure could not be decoded back into a typed error.
    StatusToType(Seq<char>),
}

/// Failure to carry a typed error across the wire boundary in either
/// direction.
#[derive(Debug)]
pub enum ConvertError {
    TypeToStatus(String),
    StatusToType(String),
}

impl View for ConvertError {
    type V = ConvertErrorV;

    open spec fn view(&self) -> ConvertErrorV {
        match self {
            ConvertError::TypeToStatus(s) => ConvertErrorV::TypeToStatus(s@),
            ConvertError::StatusToType(s) => ConvertErrorV::StatusToType(s@),
        }
    }
}

/// The rendered text of a [`ConvertError`]: the carried detail itself.
pub open spec fn convert_error_message(e: ConvertErrorV) -> Seq<char> {
    match e {
        ConvertErrorV::TypeToStatus(s) => s,
        ConvertErrorV::StatusToType(s) => s,
    }
}

impl ConvertError {
    /// Renders the error as text.
    pub fn message(&self) -> (r: String)
        ensures
            r@ == convert_error_message(self@),
    {
        match self {
            ConvertError::TypeToStatus(s) => String::from_str(s.as_str()),
            ConvertError::StatusToType(s) => String::from_str(s.as_str()),
        }
    }
}

/// Abstract value of a [`RegistryError`], used in specifications.
pub enum RegistryErrorV {
    /// The node registered with a block size the registry does not accept;
    /// carries the offered size and the two sizes the registry handles.
    WrongBlockSize(int, int, int),
}

/// Error returned by the central registry to a registering data node.
#[derive(Debug)]
pub enum RegistryError {
    WrongBlockSize(usize, usize, usize),
}

impl View for RegistryError {
    type V = RegistryErrorV;

    open spec fn view(&self) -> RegistryErrorV {
        match self {
            RegistryError::WrongBlockSize(got, small, large) => RegistryErrorV::WrongBlockSize(
                *got as int,
                *small as int,
                *large as int,
            ),
        }
    }
}

/// The rendered text of a [`RegistryError`].
pub open spec fn registry_error_message(e: RegistryErrorV) -> Seq<char> {
    match e {
        RegistryErrorV::WrongBlockSize(got, small, large) => "Got block size "@ + dec_digits(
            got as nat,
        ) + " bytes, but server can handle in block size with "@ + dec_digits(small as nat)
            + " or "@ + dec_digits(large as nat) + " bytes."@,
    }
}

impl RegistryError {
    /// Renders the error as text.
    pub fn message(&self) -> (r: String)
        ensures
            r@ == registry_error_message(self@),
    {
        match self {
            RegistryError::WrongBlockSize(got, small, large) => String::from_str("Got block size ")
                .concat(u128_to_dec_string(*got as u128).as_str())
                .concat(" bytes, but server can handle in block size with ")
                .concat(u128_to_dec_string(*small as u128).as_str())
                .concat(" or ")
                .concat(u128_to_dec_string(*large as u128).as_str())
                .concat(" bytes."),
        }
    }
}

/// Maps an `Ok`/`Err` pair to the abstract values used in specifications.
pub open spec fn res_view<T: View, E: View>(r: Result<T, E>) -> Result<T::V, E::V> {
    match r {
        Ok(t) => Ok(t@),
        Err(e) => Err(e@),
    }
}

} // verus!
