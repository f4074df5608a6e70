//! The match string of an entity, and the entity together with it.
//!
//! An entity is matched by the same shape of string a link query builds, made
//! from the file name of its document: `name`, `name#heading` or
//! `name#^index`.

use crate::entity::{Entity, EntityInfo, NamedEntity, NamedEntityInfo};
use crate::fuzzy::Matchable;
use crate::link_query::{heading_text, index_text, join_heading, join_index};
use std::path::{Path, PathBuf};
use vstd::prelude::*;

verus! {

/// `std::path::PathBuf`, which an item may carry along with its match string.
/// Nothing is read from it and nothing is claimed of it.
#[verifier::external_type_specification]
#[verifier::external_body]
pub struct ExPathBuf(PathBuf);

/// The final component of a path, as `std::path::Path::file_name` gives it for
/// the path written as `location`, or `None` where the path has none: where
/// it is empty, is a root, or ends in `..`.
pub uninterp spec fn file_name_of(location: Seq<char>) -> Option<Seq<char>>;

/// Calls `std::path::Path::file_name` on the path that `location` spells.
///
/// Trusted: that the file name depends on the text of the path alone, which
/// is what naming it `file_name_of` says.
#[verifier::external_body]
fn file_name<'a>(location: &'a str) -> (name: Option<&'a str>)
    ensures
        match name {
            Some(found) => file_name_of(location@) == Some(found@),
            None => file_name_of(location@) is None,
        },
{
    Path::new(location).file_name().and_then(|name| name.to_str())
}

/// The match string of an entity of the given kind in a document with the
/// given file name.
pub open spec fn named_text(file_name: Seq<char>, info: EntityInfo) -> Seq<char> {
    match info {
        EntityInfo::File => file_name,
        EntityInfo::Heading(heading) => heading_text(file_name, heading),
        EntityInfo::IndexedBlock(index) => index_text(file_name, index),
    }
}

/// The match string of an entity, or `None` where its location has no file
/// name.
pub open spec fn match_text_of(entity: Entity) -> Option<Seq<char>> {
    match file_name_of(entity.location) {
        Some(file_name) => Some(named_text(file_name, entity.info)),
        None => None,
    }
}

/// Builds the match string of an entity of the given kind from the file name
/// of its document.
pub fn named_string(file_name: &str, info: NamedEntityInfo) -> (text: String)
    ensures
        text@ == named_text(file_name@, info@),
{
    match info {
        NamedEntityInfo::Heading(heading) => join_heading(file_name, heading),
        NamedEntityInfo::IndexedBlock(index) => join_index(file_name, index),
        NamedEntityInfo::File => String::from_str(file_name),
    }
}

/// The failure of an entity whose location has no file name to match by.
#[derive(Clone, Copy, Debug, PartialEq, Eq)]
pub struct InvalidEntityLocation<'a> {
    /// The entity that was left out.
    pub entity: NamedEntity<'a>,
}

/// An entity together with its match string.
#[derive(Debug)]
pub struct MatchableNamedEntity<'a>(pub String, pub NamedEntity<'a>);

impl<'a> MatchableNamedEntity<'a> {
    /// The match string is the one that belongs to the entity.
    pub open spec fn well_formed(self) -> bool {
        match_text_of(self.1@) == Some(self.0@)
    }

    /// Gives `value` its match string, or fails where its location has no
    /// file name.
    pub fn new(value: NamedEntity<'a>) -> (made: Result<Self, InvalidEntityLocation<'a>>)
        ensures
            match made {
                Ok(matchable) => matchable.well_formed() && matchable.1 == value,
                Err(error) => match_text_of(value@) is None && error.entity == value,
            },
    {
        match file_name(value.0) {
            Some(file_ref) => Ok(MatchableNamedEntity(named_string(file_ref, value.1), value)),
            None => Err(InvalidEntityLocation { entity: value }),
        }
    }
}

impl<'a> From<MatchableNamedEntity<'a>> for NamedEntity<'a> {
    fn from(value: MatchableNamedEntity<'a>) -> (entity: Self) {
        value.1
    }
}

impl<'a> vstd::std_specs::convert::FromSpecImpl<MatchableNamedEntity<'a>> for NamedEntity<'a> {
    open spec fn obeys_from_spec() -> bool {
        true
    }

    open spec fn from_spec(value: MatchableNamedEntity<'a>) -> Self {
        value.1
    }
}

impl<'a> core::ops::Deref for MatchableNamedEntity<'a> {
    type Target = NamedEntity<'a>;

    fn deref(&self) -> (entity: &NamedEntity<'a>)
        ensures
            *entity == self.1,
    {
        &self.1
    }
}

impl Matchable for MatchableNamedEntity<'_> {
    open spec fn match_text(&self) -> Seq<char> {
        self.0@
    }

    fn match_string(&self) -> (text: &str) {
        self.0.as_str()
    }
}

impl<'a> Matchable for (String, &'a PathBuf) {
    open spec fn match_text(&self) -> Seq<char> {
        self.0@
    }

    fn match_string(&self) -> (text: &str) {
        self.0.as_str()
    }
}

} // verus!
