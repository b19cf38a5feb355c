//! The data items routing carries, and identifiers that name them without
//! their payload.

use vstd::prelude::*;
use crate::id::XorName;

verus! {

/// A mutable data item, named by its owner's choice and a type tag.
pub struct StructuredData {
    pub name: XorName,
    pub type_tag: u64,
    pub version: u64,
    pub data: Vec<u8>,
}

/// An immutable data item; its name is the SHA-256 of its value, computed
/// where the hash is available.
pub struct ImmutableData {
    pub name: XorName,
    pub value: Vec<u8>,
}

/// A data item stored under a name its creator gives.
pub struct PlainData {
    pub name: XorName,
    pub value: Vec<u8>,
}

/// An identifier to address a data chunk.
#[derive(Clone, Copy, Debug, PartialEq, Eq, Structural)]
pub enum DataIdentifier {
    /// Name and type tag of a `StructuredData`.
    Structured(XorName, u64),
    /// Name of an `ImmutableData`.
    Immutable(XorName),
    /// Name of a `PlainData`.
    Plain(XorName),
}

impl DataIdentifier {
    pub open spec fn spec_name(self) -> XorName {
        match self {
            DataIdentifier::Structured(name, _) => name,
            DataIdentifier::Immutable(name) => name,
            DataIdentifier::Plain(name) => name,
        }
    }

    /// The name this identifier addresses.
    pub fn name(&self) -> (r: XorName)
        ensures
            r == self.spec_name(),
    {
        match self {
            DataIdentifier::Structured(name, _) => *name,
            DataIdentifier::Immutable(name) => *name,
            DataIdentifier::Plain(name) => *name,
        }
    }
}

impl StructuredData {
    pub fn new(name: XorName, type_tag: u64, version: u64, data: Vec<u8>) -> (r: Self)
        ensures
            r.name == name,
            r.type_tag == type_tag,
            r.version == version,
            r.data@ == data@,
    {
        StructuredData { name, type_tag, version, data }
    }

    pub fn name(&self) -> (r: XorName)
        ensures
            r == self.name,
    {
        self.name
    }

    pub fn get_type_tag(&self) -> (r: u64)
        ensures
            r == self.type_tag,
    {
        self.type_tag
    }

    /// Name and type tag.
    pub fn identifier(&self) -> (r: DataIdentifier)
        ensures
            r == DataIdentifier::Structured(self.name, self.type_tag),
    {
        DataIdentifier::Structured(self.name, self.type_tag)
    }

    /// Length of the data, in bytes.
    pub fn payload_size(&self) -> (r: usize)
        ensures
            r == self.data@.len(),
    {
        self.data.len()
    }
}

impl ImmutableData {
    /// The item holding `value`, whose SHA-256 is `name`.
    pub fn new(name: XorName, value: Vec<u8>) -> (r: Self)
        ensures
            r.name == name,
            r.value@ == value@,
    {
        ImmutableData { name, value }
    }

    pub fn name(&self) -> (r: XorName)
        ensures
            r == self.name,
    {
        self.name
    }

    pub fn identifier(&self) -> (r: DataIdentifier)
        ensures
            r == DataIdentifier::Immutable(self.name),
    {
        DataIdentifier::Immutable(self.name)
    }

    /// Length of the value, in bytes.
    pub fn payload_size(&self) -> (r: usize)
        ensures
            r == self.value@.len(),
    {
        self.value.len()
    }
}

impl PlainData {
    pub fn new(name: XorName, value: Vec<u8>) -> (r: Self)
        ensures
            r.name == name,
            r.value@ == value@,
    {
        PlainData { name, value }
    }

    pub fn name(&self) -> (r: XorName)
        ensures
            r == self.name,
    {
        self.name
    }

    pub fn identifier(&self) -> (r: DataIdentifier)
        ensures
            r == DataIdentifier::Plain(self.name),
    {
        DataIdentifier::Plain(self.name)
    }

    /// Length of the value, in bytes.
    pub fn payload_size(&self) -> (r: usize)
        ensures
            r == self.value@.len(),
    {
        self.value.len()
    }
}

/// The data types routing handles in its public interface.
pub enum Data {
    Structured(StructuredData),
    Immutable(ImmutableData),
    Plain(PlainData),
}

impl Data {
    pub open spec fn spec_name(&self) -> XorName {
        match self {
            Data::Structured(d) => d.name,
            Data::Immutable(d) => d.name,
            Data::Plain(d) => d.name,
        }
    }

    pub open spec fn spec_identifier(&self) -> DataIdentifier {
        match self {
            Data::Structured(d) => DataIdentifier::Structured(d.name, d.type_tag),
            Data::Immutable(d) => DataIdentifier::Immutable(d.name),
            Data::Plain(d) => DataIdentifier::Plain(d.name),
        }
    }

    pub open spec fn spec_payload_size(&self) -> nat {
        match self {
            Data::Structured(d) => d.data@.len(),
            Data::Immutable(d) => d.value@.len(),
            Data::Plain(d) => d.value@.len(),
        }
    }

    /// The data item's name.
    pub fn name(&self) -> (r: XorName)
        ensures
            r == self.spec_name(),
    {
        match self {
            Data::Structured(d) => d.name(),
            Data::Immutable(d) => d.name(),
            Data::Plain(d) => d.name(),
        }
    }

    /// The data item's identifier.
    pub fn identifier(&self) -> (r: DataIdentifier)
        ensures
            r == self.spec_identifier(),
            r.spec_name() == self.spec_name(),
    {
        match self {
            Data::Structured(d) => d.identifier(),
            Data::Immutable(d) => d.identifier(),
            Data::Plain(d) => d.identifier(),
        }
    }

    /// The payload's length in bytes, metadata excluded.
    pub fn payload_size(&self) -> (r: usize)
        ensures
            r == self.spec_payload_size(),
    {
        match self {
            Data::Structured(d) => d.payload_size(),
            Data::Immutable(d) => d.payload_size(),
            Data::Plain(d) => d.payload_size(),
        }
    }
}

} // verus!
