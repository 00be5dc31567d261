//! The flavor-property query: a 21-case dispatch over property IDs
//! `0..=20`. Cases 0, 4 and 7 return a NUL-terminated string whose length
//! is computed at run time; every other case returns a 32-bit integer of
//! fixed length 4.
use crate::Error;
use vstd::prelude::*;

verus! {

/// RVA of the jump table the flavor-property worker dispatches through.
pub const FLAVOR_PROPERTY_JUMP_TABLE_RVA: u32 = 0x1be8;

/// Number of cases in the jump table.
pub const FLAVOR_PROPERTY_ID_COUNT: u8 = 21;

/// Largest valid flavor-property ID.
pub const MAX_FLAVOR_PROPERTY_ID: u8 = 20;

/// Fixed byte length of an integer property.
pub const FLAVOR_PROPERTY_INTEGER_LEN: u32 = 4;

/// The three string-valued property IDs, ascending.
pub const STRING_PROPERTY_IDS: [u8; 3] = [0, 4, 7];

/// The kind of value a property returns.
#[derive(Debug, Clone, Copy, PartialEq, Eq, Hash)]
pub enum FlavorPropertyKind {
    /// A 32-bit integer, length 4.
    Integer,
    /// A NUL-terminated string whose length is computed at run time.
    String,
}

/// The fixed length of a kind: 4 for integers, none for strings.
pub open spec fn kind_fixed_len(k: FlavorPropertyKind) -> Option<u32> {
    match k {
        FlavorPropertyKind::Integer => Some(FLAVOR_PROPERTY_INTEGER_LEN),
        FlavorPropertyKind::String => None,
    }
}

/// The kind of property `id`: strings for 0, 4, 7, integers otherwise.
pub open spec fn kind_of_id(id: u8) -> FlavorPropertyKind {
    if id == 0 || id == 4 || id == 7 {
        FlavorPropertyKind::String
    } else {
        FlavorPropertyKind::Integer
    }
}

impl FlavorPropertyKind {
    /// The fixed returned length of this kind, if any.
    pub fn fixed_len(self) -> (r: Option<u32>)
        ensures
            r == kind_fixed_len(self),
    {
        match self {
            FlavorPropertyKind::Integer => Some(FLAVOR_PROPERTY_INTEGER_LEN),
            FlavorPropertyKind::String => None,
        }
    }
}

/// A validated flavor-property ID in `0..=20`.
#[derive(Debug, Clone, Copy, PartialEq, Eq, PartialOrd, Ord, Hash)]
pub struct FlavorPropertyId(u8);

impl FlavorPropertyId {
    /// The ID value.
    pub closed spec fn value(&self) -> u8 {
        self.0
    }

    /// The ID is at most 20.
    #[verifier::type_invariant]
    closed spec fn inv(self) -> bool {
        self.0 <= MAX_FLAVOR_PROPERTY_ID
    }

    /// The property ID `id`, or an error above 20.
    pub fn new(id: u8) -> (r: core::result::Result<Self, Error>)
        ensures
            id <= MAX_FLAVOR_PROPERTY_ID ==> (r matches Ok(p) && p.value() == id),
            id > MAX_FLAVOR_PROPERTY_ID ==> r == Err::<Self, Error>(
                Error::FlavorPropertyIdOutOfRange { got: id },
            ),
    {
        if id > MAX_FLAVOR_PROPERTY_ID {
            Err(Error::FlavorPropertyIdOutOfRange { got: id })
        } else {
            Ok(FlavorPropertyId(id))
        }
    }

    /// The ID value.
    pub fn get(self) -> (v: u8)
        ensures
            v == self.value(),
            v <= MAX_FLAVOR_PROPERTY_ID,
    {
        proof {
            use_type_invariant(&self);
        }
        self.0
    }

    /// The kind of value this property returns.
    pub fn kind(self) -> (k: FlavorPropertyKind)
        ensures
            k == kind_of_id(self.value()),
    {
        match self.0 {
            0 | 4 | 7 => FlavorPropertyKind::String,
            _ => FlavorPropertyKind::Integer,
        }
    }

    /// Whether this property returns a string (0, 4, 7).
    pub fn is_string(self) -> (b: bool)
        ensures
            b == (kind_of_id(self.value()) == FlavorPropertyKind::String),
    {
        match self.kind() {
            FlavorPropertyKind::String => true,
            FlavorPropertyKind::Integer => false,
        }
    }

    /// Whether this property returns a 32-bit integer.
    pub fn is_integer(self) -> (b: bool)
        ensures
            b == (kind_of_id(self.value()) == FlavorPropertyKind::Integer),
    {
        match self.kind() {
            FlavorPropertyKind::Integer => true,
            FlavorPropertyKind::String => false,
        }
    }

    /// The fixed returned length: 4 for integers, none for strings.
    pub fn fixed_len(self) -> (r: Option<u32>)
        ensures
            r == kind_fixed_len(kind_of_id(self.value())),
    {
        self.kind().fixed_len()
    }
}

} // verus!
