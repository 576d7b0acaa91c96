//! The data model: creature records, their derived gender, the error
//! taxonomy, the entries of the ownership index, and the emitted events,
//! each with a ghost view for use in contracts.

use vstd::prelude::*;

verus! {

/// The single derived attribute of a creature, computed deterministically
/// from the parity of the identifier's byte length at registration time.
#[derive(Clone, Copy, Debug, PartialEq, Eq, Structural)]
pub enum Gender {
    Male,
    Female,
}

impl Default for Gender {
    fn default() -> (r: Self)
        ensures
            r == Gender::Male,
    {
        Gender::Male
    }
}

/// Why a call was rejected. Every failure is surfaced verbatim to the
/// caller with zero mutation performed.
#[derive(Clone, Copy, Debug, PartialEq, Eq, Structural)]
pub enum Error {
    /// The registration price was zero.
    InvalidPrice,
    /// The referenced identifier was absent from the registry at the point
    /// a record update was attempted.
    NoKitty,
    /// The running count has reached its ceiling.
    StorageOverflow,
    /// A transfer was requested by an account that does not hold the
    /// identifier per the ownership index.
    KittyNotOwned,
    /// Reserved for a malformed destination account.
    InvalidAccount,
}

impl Error {
    /// A human-readable message, kept separate from the error's identity.
    pub fn print(&self) -> (r: String)
        ensures
            *self == Error::InvalidPrice ==> r@ == "Invalid Price"@,
            *self == Error::StorageOverflow ==> r@ == "Storage Overflow"@,
            *self != Error::InvalidPrice && *self != Error::StorageOverflow ==> r@
                == "Invalid Error"@,
    {
        proof {
            broadcast use vstd::string::group_string_axioms;
        }
        match self {
            Error::InvalidPrice => "Invalid Price".to_string(),
            Error::StorageOverflow => "Storage Overflow".to_string(),
            _ => "Invalid Error".to_string(),
        }
    }
}

/// A registered creature: its caller-chosen identifier, current holder,
/// registration price and derived gender.
#[derive(Clone, Debug, PartialEq, Eq)]
pub struct Kitty {
    pub dna: Vec<u8>,
    pub owner: u64,
    pub price: u32,
    pub gender: Gender,
}

/// The mathematical value of a [`Kitty`].
#[verifier::ext_equal]
pub ghost struct KittyView {
    pub dna: Seq<u8>,
    pub owner: u64,
    pub price: u32,
    pub gender: Gender,
}

impl View for Kitty {
    type V = KittyView;

    open spec fn view(&self) -> KittyView {
        KittyView { dna: self.dna@, owner: self.owner, price: self.price, gender: self.gender }
    }
}

/// One entry of the ownership index: the identifiers an account currently
/// holds, in insertion order.
#[derive(Debug, PartialEq, Eq)]
pub struct OwnerEntry {
    pub account: u64,
    pub dnas: Vec<Vec<u8>>,
}

/// The mathematical value of an [`OwnerEntry`].
#[verifier::ext_equal]
pub ghost struct OwnerEntryView {
    pub account: u64,
    pub dnas: Seq<Seq<u8>>,
}

/// The sequence of byte identifiers a sequence of byte vectors stands for.
pub open spec fn dnas_view(s: Seq<Vec<u8>>) -> Seq<Seq<u8>> {
    Seq::new(s.len(), |i: int| s[i]@)
}

impl View for OwnerEntry {
    type V = OwnerEntryView;

    open spec fn view(&self) -> OwnerEntryView {
        OwnerEntryView { account: self.account, dnas: dnas_view(self.dnas@) }
    }
}

/// A notification emitted on every successful state transition.
#[derive(Debug, PartialEq, Eq)]
pub enum Event {
    KittyGenerated { dna: Vec<u8>, owner: u64 },
    KittyTransferedTo { from: u64, to: u64, dna: Vec<u8> },
}

/// The mathematical value of an [`Event`].
#[verifier::ext_equal]
pub ghost enum EventView {
    KittyGenerated { dna: Seq<u8>, owner: u64 },
    KittyTransferedTo { from: u64, to: u64, dna: Seq<u8> },
}

impl View for Event {
    type V = EventView;

    open spec fn view(&self) -> EventView {
        match self {
            Event::KittyGenerated { dna, owner } => EventView::KittyGenerated {
                dna: dna@,
                owner: *owner,
            },
            Event::KittyTransferedTo { from, to, dna } => EventView::KittyTransferedTo {
                from: *from,
                to: *to,
                dna: dna@,
            },
        }
    }
}

} // verus!
