//! The entities a link can complete to, and their collection from a vault.

use crate::vault::Referenceable;
use vstd::prelude::*;

verus! {

/// What kind of thing an entity is, with the text that names it inside its
/// document.
#[derive(Clone, Copy, Debug, PartialEq, Eq)]
pub enum NamedEntityInfo<'a> {
    /// A document as a whole.
    File,
    /// A heading, with its text.
    Heading(&'a str),
    /// An indexed block, with its index.
    IndexedBlock(&'a str),
}

/// An entity of the vault that a link can complete to: the path of the
/// document that holds it, and what it is. Both are borrowed from the vault.
#[derive(Clone, Copy, Debug, PartialEq, Eq)]
pub struct NamedEntity<'a>(pub &'a str, pub NamedEntityInfo<'a>);

/// The contents of a [`NamedEntityInfo`].
pub enum EntityInfo {
    File,
    Heading(Seq<char>),
    IndexedBlock(Seq<char>),
}

/// The contents of a [`NamedEntity`].
pub struct Entity {
    pub location: Seq<char>,
    pub info: EntityInfo,
}

impl<'a> View for NamedEntityInfo<'a> {
    type V = EntityInfo;

    open spec fn view(&self) -> EntityInfo {
        match *self {
            NamedEntityInfo::File => EntityInfo::File,
            NamedEntityInfo::Heading(text) => EntityInfo::Heading(text@),
            NamedEntityInfo::IndexedBlock(index) => EntityInfo::IndexedBlock(index@),
        }
    }
}

impl<'a> View for NamedEntity<'a> {
    type V = Entity;

    open spec fn view(&self) -> Entity {
        Entity { location: self.0@, info: self.1@ }
    }
}

/// The contents of each entity of a sequence.
pub open spec fn entities_view(entities: Seq<NamedEntity>) -> Seq<Entity> {
    entities.map_values(|entity: NamedEntity| entity@)
}

/// The entity a node of the vault stands for, if links complete to nodes of
/// its kind: files, headings and indexed blocks.
pub open spec fn entity_of(node: Referenceable) -> Option<Entity> {
    match node {
        Referenceable::File { path } => Some(Entity { location: path@, info: EntityInfo::File }),
        Referenceable::Heading { path, heading_text } => Some(
            Entity { location: path@, info: EntityInfo::Heading(heading_text@) },
        ),
        Referenceable::IndexedBlock { path, index } => Some(
            Entity { location: path@, info: EntityInfo::IndexedBlock(index@) },
        ),
        _ => None,
    }
}

/// The entities of a listing: one for each file, heading and indexed block,
/// in the order of the listing, and nothing for any other node.
pub open spec fn collected(nodes: Seq<Referenceable>) -> Seq<Entity> {
    nodes.filter_map(|node: Referenceable| entity_of(node))
}

/// Whether links complete to nodes of this node's kind.
pub open spec fn is_named() -> spec_fn(Referenceable) -> bool {
    |node: Referenceable| entity_of(node) is Some
}

/// The entity of a node that links complete to.
pub open spec fn named() -> spec_fn(Referenceable) -> Entity {
    |node: Referenceable| entity_of(node)->0
}

/// Collection is complete and exact: the entities collected from a listing
/// are those of its files, headings and indexed blocks, one for each such
/// node and in the order of the listing; no other node adds anything.
pub proof fn lemma_collected_one_for_each(nodes: Seq<Referenceable>)
    ensures
        collected(nodes) == nodes.filter(is_named()).map_values(named()),
        collected(nodes).len() == nodes.filter(is_named()).len(),
    decreases nodes.len(),
{
    if nodes.len() == 0 {
        assert(nodes.filter(is_named()) =~= nodes);
        assert(collected(nodes) =~= nodes.filter(is_named()).map_values(named()));
    } else {
        let rest = nodes.drop_last();
        let last = nodes.last();
        lemma_collected_one_for_each(rest);
        assert(nodes =~= rest.push(last));
        rest.lemma_filter_push(last, is_named());
        if entity_of(last) is Some {
            assert(rest.filter(is_named()).push(last).map_values(named()) =~= rest.filter(
                is_named(),
            ).map_values(named()) + seq![entity_of(last)->0]);
        }
    }
}

/// The entity `node` stands for, or `None` for a node of a kind that links do
/// not complete to.
pub fn named_entity<'a>(node: &'a Referenceable) -> (entity: Option<NamedEntity<'a>>)
    ensures
        match entity {
            Some(found) => entity_of(*node) == Some(found@),
            None => entity_of(*node) is None,
        },
{
    match node {
        Referenceable::File { path } => Some(NamedEntity(path.as_str(), NamedEntityInfo::File)),
        Referenceable::Heading { path, heading_text } => Some(
            NamedEntity(path.as_str(), NamedEntityInfo::Heading(heading_text.as_str())),
        ),
        Referenceable::IndexedBlock { path, index } => Some(
            NamedEntity(path.as_str(), NamedEntityInfo::IndexedBlock(index.as_str())),
        ),
        _ => None,
    }
}

/// Collects the entities of a listing.
pub fn collect_named_entities<'a>(nodes: &'a Vec<Referenceable>) -> (entities: Vec<NamedEntity<'a>>)
    ensures
        entities_view(entities@) == collected(nodes@),
{
    let mut entities: Vec<NamedEntity<'a>> = Vec::new();
    let mut i: usize = 0;
    while i < nodes.len()
        invariant
            i <= nodes.len(),
            entities_view(entities@) == collected(nodes@.take(i as int)),
        decreases nodes.len() - i,
    {
        proof {
            nodes@.lemma_filter_map_take_succ(|node: Referenceable| entity_of(node), i as int);
        }
        match named_entity(&nodes[i]) {
            Some(entity) => {
                entities.push(entity);
            },
            None => {},
        }
        i += 1;
    }
    assert(nodes@.take(nodes.len() as int) == nodes@);
    entities
}

} // verus!
