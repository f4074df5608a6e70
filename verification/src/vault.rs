//! The read-only view of a vault that completion works on.
//!
//! A vault is kept by its owner. What reaches this library is a snapshot: the
//! referenceable nodes the vault listed, or the failure its listing ended with.

use vstd::prelude::*;

verus! {

/// Something in a vault that a link can point to. Every node carries the path
/// of the document that holds it.
#[derive(Debug, PartialEq, Eq)]
pub enum Referenceable {
    /// A document.
    File { path: String },
    /// A heading, with its text.
    Heading { path: String, heading_text: String },
    /// A block that was given an index, with that index.
    IndexedBlock { path: String, index: String },
    /// A tag.
    Tag { path: String, tag_ref: String },
    /// A footnote.
    Footnote { path: String, index: String },
    /// A link reference definition.
    LinkRefDef { path: String, link_ref_name: String },
}

/// The failure with which a vault's listing of its nodes ended.
#[derive(Debug, PartialEq, Eq)]
pub struct VaultError {
    pub message: String,
}

/// A snapshot of a vault: its referenceable nodes in the order the vault
/// listed them, or the failure of that listing.
#[derive(Debug, PartialEq, Eq)]
pub struct Vault {
    pub referenceables: Result<Vec<Referenceable>, VaultError>,
}

impl Vault {
    /// A vault that lists `nodes`.
    pub fn new(nodes: Vec<Referenceable>) -> (vault: Vault)
        ensures
            vault.referenceables == Ok::<Vec<Referenceable>, VaultError>(nodes),
    {
        Vault { referenceables: Ok(nodes) }
    }

    /// A vault whose listing fails with `error`.
    pub fn unavailable(error: VaultError) -> (vault: Vault)
        ensures
            vault.referenceables == Err::<Vec<Referenceable>, VaultError>(error),
    {
        Vault { referenceables: Err(error) }
    }

    /// The nodes the vault lists, or the failure of its listing.
    pub fn select_referenceable_nodes(&self) -> (listing: Result<&Vec<Referenceable>, &VaultError>)
        ensures
            match listing {
                Ok(nodes) => self.referenceables == Ok::<Vec<Referenceable>, VaultError>(*nodes),
                Err(error) => self.referenceables == Err::<Vec<Referenceable>, VaultError>(*error),
            },
    {
        match &self.referenceables {
            Ok(nodes) => Ok(nodes),
            Err(error) => Err(error),
        }
    }
}

} // verus!
