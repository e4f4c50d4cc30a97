//! Core engine of a DiceMix-style anonymous broadcast mixing protocol.
//!
//! A fixed group of mutually distrusting peers each hold a private value.
//! The protocol reveals the multiset of values to everyone while hiding
//! which peer contributed which value, and it keeps making progress when
//! peers disrupt it, by detecting and excluding them.

use vstd::prelude::*;

pub mod field;
pub mod dc;
pub mod io;
pub mod keys;
pub mod messages;
pub mod peer;
pub mod rng;
pub mod solver;
pub mod state;
pub mod wire;

pub use messages::PublicKey;

verus! {

// These types are sent over the wire, so there may be a need to change them easily.
pub type Commitment = [u8; 32];

pub type SymmetricKey = [u8; 32];

pub type SessionId = [u8; 32];

pub type PeerIndex = u32;

pub type SequenceNum = u32;

/// The variant of an extension, without the data of the extension.
#[derive(Copy, Clone, PartialEq, Eq, Structural, Debug)]
pub enum ExtensionVariant {
    NoExtension,
    DcAddSecp256k1Scalar,
}

/// The identifier of a peer, 64 bytes kept in two halves.
#[derive(Copy, Clone, PartialEq, Eq, Debug)]
pub struct PeerId(pub [u8; 32], pub [u8; 32]);

#[derive(Copy, Clone, PartialEq, Eq, Structural, Debug)]
pub enum Variant {
    PlainEcdsa,
    ValueShuffleElementsEcdsa,
}

#[derive(Copy, Clone, PartialEq, Eq, Structural, Debug)]
pub struct Options {
    variant: Variant,
    extension_variant: ExtensionVariant,
}

impl Options {
    /// The options of a protocol variant: the variant determines the
    /// extension that its messages carry.
    pub fn new_simple(variant: Variant) -> (options: Self)
        ensures
            options.variant_of() == variant,
            options.extension_variant_of() == match variant {
                Variant::PlainEcdsa => ExtensionVariant::NoExtension,
                Variant::ValueShuffleElementsEcdsa => ExtensionVariant::DcAddSecp256k1Scalar,
            },
    {
        match variant {
            Variant::PlainEcdsa => Self {
                variant: Variant::PlainEcdsa,
                extension_variant: ExtensionVariant::NoExtension,
            },
            Variant::ValueShuffleElementsEcdsa => Self {
                variant: Variant::ValueShuffleElementsEcdsa,
                extension_variant: ExtensionVariant::DcAddSecp256k1Scalar,
            },
        }
    }

    /// The protocol variant.
    pub closed spec fn variant_of(&self) -> Variant {
        self.variant
    }

    /// The variant of the extension.
    pub closed spec fn extension_variant_of(&self) -> ExtensionVariant {
        self.extension_variant
    }

    pub fn variant(&self) -> (v: Variant)
        ensures
            v == self.variant_of(),
    {
        self.variant
    }

    pub fn extension_variant(&self) -> (v: ExtensionVariant)
        ensures
            v == self.extension_variant_of(),
    {
        self.extension_variant
    }
}

} // verus!
