use completions::entity::{collect_named_entities, named_entity, NamedEntity, NamedEntityInfo};
use completions::querier::Querier;
use completions::vault::{Referenceable, Vault, VaultError};

fn text(s: &str) -> String {
    String::from(s)
}

fn mixed_nodes() -> Vec<Referenceable> {
    vec![
        Referenceable::File { path: text("notes/a.md") },
        Referenceable::Tag { path: text("notes/a.md"), tag_ref: text("project") },
        Referenceable::Heading { path: text("notes/a.md"), heading_text: text("Introduction") },
        Referenceable::Footnote { path: text("notes/a.md"), index: text("1") },
        Referenceable::File { path: text("notes/b.md") },
        Referenceable::IndexedBlock { path: text("notes/b.md"), index: text("1") },
        Referenceable::LinkRefDef { path: text("notes/b.md"), link_ref_name: text("ref") },
    ]
}

#[test]
fn files_headings_and_blocks_become_entities() {
    let file = Referenceable::File { path: text("a.md") };
    assert_eq!(named_entity(&file), Some(NamedEntity("a.md", NamedEntityInfo::File)));
    let heading = Referenceable::Heading { path: text("a.md"), heading_text: text("Intro") };
    assert_eq!(named_entity(&heading), Some(NamedEntity("a.md", NamedEntityInfo::Heading("Intro"))));
    let block = Referenceable::IndexedBlock { path: text("b.md"), index: text("1") };
    assert_eq!(named_entity(&block), Some(NamedEntity("b.md", NamedEntityInfo::IndexedBlock("1"))));
}

#[test]
fn other_kinds_become_nothing() {
    let tag = Referenceable::Tag { path: text("a.md"), tag_ref: text("t") };
    assert_eq!(named_entity(&tag), None);
    let footnote = Referenceable::Footnote { path: text("a.md"), index: text("1") };
    assert_eq!(named_entity(&footnote), None);
    let definition = Referenceable::LinkRefDef { path: text("a.md"), link_ref_name: text("r") };
    assert_eq!(named_entity(&definition), None);
}

#[test]
fn collection_keeps_exactly_the_three_kinds_in_order() {
    let nodes = mixed_nodes();
    let entities = collect_named_entities(&nodes);
    assert_eq!(
        entities,
        vec![
            NamedEntity("notes/a.md", NamedEntityInfo::File),
            NamedEntity("notes/a.md", NamedEntityInfo::Heading("Introduction")),
            NamedEntity("notes/b.md", NamedEntityInfo::File),
            NamedEntity("notes/b.md", NamedEntityInfo::IndexedBlock("1")),
        ]
    );
}

#[test]
fn collection_of_nothing_is_empty() {
    let nodes: Vec<Referenceable> = Vec::new();
    assert!(collect_named_entities(&nodes).is_empty());
    let only_others = vec![
        Referenceable::Tag { path: text("a.md"), tag_ref: text("t") },
        Referenceable::Footnote { path: text("a.md"), index: text("1") },
    ];
    assert!(collect_named_entities(&only_others).is_empty());
}

#[test]
fn collection_emits_one_entity_per_node() {
    let nodes = vec![
        Referenceable::File { path: text("a.md") },
        Referenceable::File { path: text("a.md") },
        Referenceable::Heading { path: text("a.md"), heading_text: text("Same") },
        Referenceable::Heading { path: text("a.md"), heading_text: text("Same") },
    ];
    let entities = collect_named_entities(&nodes);
    assert_eq!(entities.len(), 4);
    assert_eq!(entities[0], entities[1]);
    assert_eq!(entities[2], entities[3]);
    assert_ne!(entities[1], entities[2]);
}

#[test]
fn querier_collects_from_its_vault() {
    let vault = Vault::new(mixed_nodes());
    let querier = Querier::new(&vault);
    let entities = querier.get_named_entities().unwrap();
    assert_eq!(entities.len(), 4);
    assert_eq!(entities[3], NamedEntity("notes/b.md", NamedEntityInfo::IndexedBlock("1")));
}

#[test]
fn failed_listing_fails_the_collection() {
    let vault = Vault::unavailable(VaultError { message: text("index not built") });
    let querier = Querier::new(&vault);
    assert_eq!(
        querier.get_named_entities(),
        Err(&VaultError { message: text("index not built") })
    );
}

#[test]
fn vault_hands_out_what_it_was_made_with() {
    let vault = Vault::new(mixed_nodes());
    assert_eq!(vault.select_referenceable_nodes(), Ok(&mixed_nodes()));
    let failed = Vault::unavailable(VaultError { message: text("gone") });
    assert_eq!(failed.select_referenceable_nodes(), Err(&VaultError { message: text("gone") }));
}
