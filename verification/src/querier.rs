//! The query: from a typed link to the entities it may complete to.

use crate::candidate::{match_text_of, InvalidEntityLocation, MatchableNamedEntity};
use crate::entity::{collect_named_entities, collected, entities_view, Entity, NamedEntity};
use crate::fuzzy::{all_matched, fuzzy_match, matches_of, scored};
use crate::matcher::match_score;
use crate::link_query::{link_query_string, LinkQuery};
use crate::ranking::{
    descending, is_ranking, lemma_ranking_contains, lemma_ranking_is_permutation,
    lemma_ranking_keeps_descending, lemma_ranking_map, lemma_ranking_unique,
};
use crate::vault::{Referenceable, Vault, VaultError};
use vstd::prelude::*;

verus! {

/// The score a filter text gives an entity: that of its match string, and
/// none where it has no match string.
pub open spec fn entity_score(filter_text: Seq<char>, entity: Entity) -> Option<u32> {
    match match_text_of(entity) {
        Some(text) => match_score(filter_text, text),
        None => None,
    }
}

/// Pairs an entity with its score, if the filter text matches it.
pub open spec fn scored_entity(filter_text: Seq<char>) -> spec_fn(Entity) -> Option<(Entity, u32)> {
    |entity: Entity|
        match entity_score(filter_text, entity) {
            Some(score) => Some((entity, score)),
            None => None,
        }
}

/// The entities that the filter text matches, each with its score, in the
/// order of `entities`.
pub open spec fn entity_matches(filter_text: Seq<char>, entities: Seq<Entity>) -> Seq<
    (Entity, u32),
> {
    entities.filter_map(scored_entity(filter_text))
}

/// Pairs an entity with its score, or with 0 where it has none.
pub open spec fn with_score_of(filter_text: Seq<char>) -> spec_fn(Entity) -> (Entity, u32) {
    |entity: Entity|
        match entity_score(filter_text, entity) {
            Some(score) => (entity, score),
            None => (entity, 0u32),
        }
}

/// Every entity of `entities` with its score.
pub open spec fn with_scores(filter_text: Seq<char>, entities: Seq<Entity>) -> Seq<(Entity, u32)> {
    entities.map_values(with_score_of(filter_text))
}

/// Whether an entity has a match string.
pub open spec fn has_match_text() -> spec_fn(Entity) -> bool {
    |entity: Entity| match_text_of(entity) is Some
}

/// Whether an entity has no match string.
pub open spec fn lacks_match_text() -> spec_fn(Entity) -> bool {
    |entity: Entity| match_text_of(entity) is None
}

/// The entities each failure names.
pub open spec fn failed_entities(failures: Seq<InvalidEntityLocation>) -> Seq<Entity> {
    failures.map_values(|failure: InvalidEntityLocation| failure.entity@)
}

/// The entities of each candidate.
pub open spec fn candidate_entities(candidates: Seq<MatchableNamedEntity>) -> Seq<Entity> {
    candidates.map_values(|candidate: MatchableNamedEntity| candidate.1@)
}

/// What a query over `entities` with the query string `filter_text` has to
/// return: as `invalid`, the entities without a match string, in their order;
/// as `matched`, the entities that the query string matches, by descending
/// score, equal scores in their order.
pub open spec fn answers(
    entities: Seq<Entity>,
    filter_text: Seq<char>,
    matched: Seq<Entity>,
    invalid: Seq<Entity>,
) -> bool {
    &&& invalid == entities.filter(lacks_match_text())
    &&& is_ranking(entity_matches(filter_text, entities), with_scores(filter_text, matched))
}

/// What a query returns.
#[derive(Debug)]
pub struct Completions<'a> {
    /// The entities that match, best first.
    pub entities: Vec<NamedEntity<'a>>,
    /// One failure for each entity that could not be matched because its
    /// location has no file name, in the order of the vault.
    pub invalid: Vec<InvalidEntityLocation<'a>>,
}

/// Answers link queries over one vault.
#[derive(Debug)]
pub struct Querier<'a> {
    pub vault: &'a Vault,
}

/// Gives every entity its match string. Those whose location has no file
/// name are handed back as failures; the others become candidates.
pub fn match_candidates<'a>(entities: Vec<NamedEntity<'a>>) -> (split: (
    Vec<MatchableNamedEntity<'a>>,
    Vec<InvalidEntityLocation<'a>>,
))
    ensures
        forall|i: int| 0 <= i < split.0.len() ==> (#[trigger] split.0[i]).well_formed(),
        candidate_entities(split.0@) == entities_view(entities@).filter(has_match_text()),
        failed_entities(split.1@) == entities_view(entities@).filter(lacks_match_text()),
{
    let mut candidates: Vec<MatchableNamedEntity<'a>> = Vec::new();
    let mut invalid: Vec<InvalidEntityLocation<'a>> = Vec::new();
    let ghost all = entities_view(entities@);
    for entity in iter: entities
        invariant
            iter.seq() == entities@,
            all == entities_view(entities@),
            forall|i: int| 0 <= i < candidates.len() ==> (#[trigger] candidates[i]).well_formed(),
            candidate_entities(candidates@) == all.take(iter.index()).filter(has_match_text()),
            failed_entities(invalid@) == all.take(iter.index()).filter(lacks_match_text()),
    {
        proof {
            let seen = all.take(iter.index());
            assert(all.take(iter.index() + 1) =~= seen.push(entity@));
            seen.lemma_filter_push(entity@, has_match_text());
            seen.lemma_filter_push(entity@, lacks_match_text());
        }
        match MatchableNamedEntity::new(entity) {
            Ok(candidate) => {
                assert(candidate_entities(candidates@.push(candidate)) =~= candidate_entities(
                    candidates@,
                ).push(candidate.1@));
                candidates.push(candidate);
            },
            Err(failure) => {
                assert(failed_entities(invalid@.push(failure)) =~= failed_entities(invalid@).push(
                    failure.entity@,
                ));
                invalid.push(failure);
            },
        }
    }
    assert(all.take(all.len() as int) =~= all);
    (candidates, invalid)
}

/// Drops the scores and the match strings of matched candidates, keeping
/// their order.
pub fn matched_entities<'a>(matched: Vec<(MatchableNamedEntity<'a>, u32)>) -> (entities: Vec<
    NamedEntity<'a>,
>)
    ensures
        entities@ == matched@.map_values(|scored: (MatchableNamedEntity<'a>, u32)| scored.0.1),
{
    let mut entities: Vec<NamedEntity<'a>> = Vec::new();
    for scored in iter: matched
        invariant
            iter.seq() == matched@,
            entities@ == matched@.take(iter.index()).map_values(
                |scored: (MatchableNamedEntity<'a>, u32)| scored.0.1,
            ),
    {
        assert(matched@.take(iter.index() + 1) =~= matched@.take(iter.index()).push(scored));
        assert(matched@.take(iter.index()).push(scored).map_values(
            |scored: (MatchableNamedEntity<'a>, u32)| scored.0.1,
        ) =~= matched@.take(iter.index()).map_values(
            |scored: (MatchableNamedEntity<'a>, u32)| scored.0.1,
        ).push(scored.0.1));
        entities.push(NamedEntity::from(scored.0));
    }
    assert(matched@.take(matched@.len() as int) =~= matched@);
    entities
}

/// A scored candidate as the entity it holds, with the same score.
pub open spec fn scored_entity_of<'a>() -> spec_fn((MatchableNamedEntity<'a>, u32)) -> (
    Entity,
    u32,
) {
    |scored: (MatchableNamedEntity<'a>, u32)| (scored.0.1@, scored.1)
}

/// The matches among candidates are, entity for entity, the matches among
/// the entities the candidates hold.
proof fn lemma_candidate_matches(filter_text: Seq<char>, candidates: Seq<MatchableNamedEntity>)
    requires
        forall|i: int| 0 <= i < candidates.len() ==> (#[trigger] candidates[i]).well_formed(),
    ensures
        matches_of(filter_text, candidates).map_values(scored_entity_of()) == entity_matches(
            filter_text,
            candidate_entities(candidates),
        ),
    decreases candidates.len(),
{
    let held = candidate_entities(candidates);
    if candidates.len() == 0 {
        assert(matches_of(filter_text, candidates).map_values(scored_entity_of()) =~= Seq::<
            (Entity, u32),
        >::empty());
        assert(entity_matches(filter_text, held) =~= Seq::<(Entity, u32)>::empty());
    } else {
        let rest = candidates.drop_last();
        let last = candidates.last();
        lemma_candidate_matches(filter_text, rest);
        assert(last.well_formed());
        assert(held.drop_last() =~= candidate_entities(rest));
        assert(held.last() == last.1@);
        match match_score(filter_text, last.0@) {
            Some(score) => {
                assert(matches_of(filter_text, candidates) == matches_of(filter_text, rest)
                    + seq![(last, score)]);
                assert((matches_of(filter_text, rest) + seq![(last, score)]).map_values(
                    scored_entity_of(),
                ) =~= matches_of(filter_text, rest).map_values(scored_entity_of())
                    + seq![(last.1@, score)]);
            },
            None => {},
        }
    }
}

/// Entities without a match string are matched by nothing, so leaving them
/// out changes no match.
proof fn lemma_matches_need_match_text(filter_text: Seq<char>, entities: Seq<Entity>)
    ensures
        entity_matches(filter_text, entities.filter(has_match_text())) == entity_matches(
            filter_text,
            entities,
        ),
    decreases entities.len(),
{
    if entities.len() == 0 {
        assert(entities.filter(has_match_text()) =~= entities);
    } else {
        let rest = entities.drop_last();
        let last = entities.last();
        lemma_matches_need_match_text(filter_text, rest);
        assert(entities =~= rest.push(last));
        rest.lemma_filter_push(last, has_match_text());
        if match_text_of(last) is Some {
            assert(rest.filter(has_match_text()).push(last).drop_last() =~= rest.filter(
                has_match_text(),
            ));
        }
    }
}

/// The entities of a ranking of candidates, paired with their scores again,
/// are that ranking.
proof fn lemma_ranked_scores(
    filter_text: Seq<char>,
    candidates: Seq<MatchableNamedEntity>,
    ranked: Seq<(MatchableNamedEntity, u32)>,
    entities: Seq<NamedEntity>,
)
    requires
        forall|i: int| 0 <= i < candidates.len() ==> (#[trigger] candidates[i]).well_formed(),
        is_ranking(matches_of(filter_text, candidates), ranked),
        entities == ranked.map_values(|scored: (MatchableNamedEntity, u32)| scored.0.1),
    ensures
        ranked.map_values(scored_entity_of()) == with_scores(filter_text, entities_view(entities)),
{
    let found = matches_of(filter_text, candidates);
    assert forall|k: int| 0 <= k < ranked.len() implies scored_entity_of()(#[trigger] ranked[k])
        == with_score_of(filter_text)(entities[k]@) by {
        assert(ranked.contains(ranked[k]));
        lemma_ranking_contains(found, ranked, ranked[k]);
        candidates.lemma_filter_map_contains(scored(filter_text), ranked[k]);
        let candidate = choose|candidate: MatchableNamedEntity| #[trigger]
            candidates.contains(candidate) && scored(filter_text)(candidate) == Some(ranked[k]);
        let i = choose|i: int| 0 <= i < candidates.len() && candidates[i] == candidate;
        assert(candidates[i].well_formed());
    }
    assert(ranked.map_values(scored_entity_of()) =~= with_scores(
        filter_text,
        entities_view(entities),
    ));
}

impl<'a> Querier<'a> {
    /// What a query has to return. Over a vault that lists its nodes: the
    /// answer to the query string of `link_query` over the entities collected
    /// from them. Over a vault whose listing failed: that failure.
    pub open spec fn query_result(
        self,
        link_query: LinkQuery,
        result: Result<Completions<'a>, &'a VaultError>,
    ) -> bool {
        match self.vault.referenceables {
            Ok(nodes) => match result {
                Ok(completions) => answers(
                    collected(nodes@),
                    link_query.text(),
                    entities_view(completions.entities@),
                    failed_entities(completions.invalid@),
                ),
                Err(_) => false,
            },
            Err(failure) => match result {
                Ok(_) => false,
                Err(error) => *error == failure,
            },
        }
    }

    /// A querier over `vault`.
    pub fn new(vault: &'a Vault) -> (querier: Self)
        ensures
            querier.vault == vault,
    {
        Self { vault }
    }

    /// The entities of the vault that links complete to: its files, headings
    /// and indexed blocks, one for each node of these kinds and in the order
    /// the vault lists them. Fails as the vault's listing fails.
    pub fn get_named_entities(&self) -> (listing: Result<Vec<NamedEntity<'a>>, &'a VaultError>)
        ensures
            match listing {
                Ok(entities) => match self.vault.referenceables {
                    Ok(nodes) => entities_view(entities@) == collected(nodes@),
                    Err(_) => false,
                },
                Err(error) => self.vault.referenceables == Err::<Vec<Referenceable>, VaultError>(
                    *error,
                ),
            },
    {
        match self.vault.select_referenceable_nodes() {
            Ok(nodes) => Ok(collect_named_entities(nodes)),
            Err(error) => Err(error),
        }
    }

    /// The entities the typed link may complete to: those whose match string
    /// the query string of `link_query` fuzzily matches, best match first and
    /// equal matches in the order of the vault. An entity whose location has
    /// no file name is reported as a failure of its own and the others are
    /// matched all the same. Where nothing matches, nothing is returned. The
    /// query as a whole fails only as the vault's listing fails, and with
    /// that failure.
    ///
    /// An entity matches where the matcher scores its match string, but for
    /// the texts the matcher cannot be asked on (see
    /// [`score_candidate`](crate::matcher::score_candidate)): on those an
    /// entity does not match.
    pub fn query(&self, link_query: LinkQuery) -> (result: Result<Completions<'a>, &'a VaultError>)
        ensures
            self.query_result(link_query, result),
    {
        let named_entities = match self.get_named_entities() {
            Ok(named_entities) => named_entities,
            Err(error) => {
                return Err(error);
            },
        };
        let ghost all = entities_view(named_entities@);
        let (matchables, invalid) = match_candidates(named_entities);
        let ghost candidates = matchables@;

        let query_string = link_query_string(link_query);
        let matched = fuzzy_match(query_string.as_str(), matchables);
        let ghost ranked = matched@;

        let entities = matched_entities(matched);
        proof {
            let filter_text = link_query.text();
            lemma_ranking_map(matches_of(filter_text, candidates), ranked, scored_entity_of());
            lemma_candidate_matches(filter_text, candidates);
            lemma_matches_need_match_text(filter_text, all);
            lemma_ranked_scores(filter_text, candidates, ranked, entities@);
        }
        Ok(Completions { entities, invalid })
    }
}

/// One query string over the same entities has one answer: the same entities
/// in the same order, and the same failures.
pub proof fn lemma_answer_unique(
    entities: Seq<Entity>,
    filter_text: Seq<char>,
    first_matched: Seq<Entity>,
    first_invalid: Seq<Entity>,
    second_matched: Seq<Entity>,
    second_invalid: Seq<Entity>,
)
    requires
        answers(entities, filter_text, first_matched, first_invalid),
        answers(entities, filter_text, second_matched, second_invalid),
    ensures
        first_matched == second_matched,
        first_invalid == second_invalid,
{
    let first = with_scores(filter_text, first_matched);
    let second = with_scores(filter_text, second_matched);
    lemma_ranking_unique(entity_matches(filter_text, entities), first, second);
    assert(first_matched.len() == first.len());
    assert(second_matched.len() == second.len());
    assert forall|k: int| 0 <= k < first_matched.len() implies first_matched[k]
        == second_matched[k] by {
        assert(first[k].0 == first_matched[k]);
        assert(second[k].0 == second_matched[k]);
    }
    assert(first_matched =~= second_matched);
}

/// A query is deterministic: whatever two runs of the same query over the
/// same vault return, both fail with the vault's failure, or both succeed
/// with the same entities in the same order and with the same failures.
pub proof fn lemma_query_deterministic<'a>(
    querier: Querier<'a>,
    link_query: LinkQuery,
    first: Result<Completions<'a>, &'a VaultError>,
    second: Result<Completions<'a>, &'a VaultError>,
)
    requires
        querier.query_result(link_query, first),
        querier.query_result(link_query, second),
    ensures
        match (first, second) {
            (Ok(one), Ok(other)) => {
                &&& entities_view(one.entities@) == entities_view(other.entities@)
                &&& failed_entities(one.invalid@) == failed_entities(other.invalid@)
            },
            (Err(one), Err(other)) => *one == *other,
            _ => false,
        },
{
    match (querier.vault.referenceables, first, second) {
        (Ok(nodes), Ok(one), Ok(other)) => {
            lemma_answer_unique(
                collected(nodes@),
                link_query.text(),
                entities_view(one.entities@),
                failed_entities(one.invalid@),
                entities_view(other.entities@),
                failed_entities(other.invalid@),
            );
        },
        _ => {},
    }
}

/// A query returns as many entities as the query string matches, each of
/// them once: none where it matches none, and none where there are no
/// entities at all.
pub proof fn lemma_query_returns_every_match(
    entities: Seq<Entity>,
    filter_text: Seq<char>,
    matched: Seq<Entity>,
    invalid: Seq<Entity>,
)
    requires
        answers(entities, filter_text, matched, invalid),
    ensures
        with_scores(filter_text, matched).to_multiset() == entity_matches(
            filter_text,
            entities,
        ).to_multiset(),
        matched.len() == entity_matches(filter_text, entities).len(),
        entities.len() == 0 ==> matched.len() == 0,
{
    lemma_ranking_is_permutation(
        entity_matches(filter_text, entities),
        with_scores(filter_text, matched),
    );
    if entities.len() == 0 {
        assert(entity_matches(filter_text, entities) =~= Seq::<(Entity, u32)>::empty());
    }
}

/// Under an empty query string every entity with a match string matches,
/// with score 0.
proof fn lemma_empty_filter_entity_matches(filter_text: Seq<char>, entities: Seq<Entity>)
    requires
        filter_text.len() == 0,
    ensures
        entity_matches(filter_text, entities) == all_matched(entities.filter(has_match_text())),
    decreases entities.len(),
{
    let kept = entities.filter(has_match_text());
    if entities.len() == 0 {
        assert(kept =~= entities);
        assert(all_matched(kept) =~= Seq::<(Entity, u32)>::empty());
    } else {
        let rest = entities.drop_last();
        let last = entities.last();
        lemma_empty_filter_entity_matches(filter_text, rest);
        assert(entities =~= rest.push(last));
        rest.lemma_filter_push(last, has_match_text());
        if match_text_of(last) is Some {
            assert(all_matched(rest.filter(has_match_text()).push(last)) =~= all_matched(
                rest.filter(has_match_text()),
            ) + seq![(last, 0u32)]);
        }
    }
}

/// An empty query string matches every entity that has a match string, and
/// the query returns them in the order of the vault.
pub proof fn lemma_empty_query_returns_all(
    entities: Seq<Entity>,
    filter_text: Seq<char>,
    matched: Seq<Entity>,
    invalid: Seq<Entity>,
)
    requires
        filter_text.len() == 0,
        answers(entities, filter_text, matched, invalid),
    ensures
        matched == entities.filter(has_match_text()),
{
    let kept = entities.filter(has_match_text());
    let ranked = with_scores(filter_text, matched);
    lemma_empty_filter_entity_matches(filter_text, entities);
    assert(descending(all_matched(kept)));
    lemma_ranking_keeps_descending(all_matched(kept), ranked);
    assert(matched.len() == ranked.len());
    assert forall|k: int| 0 <= k < matched.len() implies matched[k] == kept[k] by {
        assert(ranked[k].0 == matched[k]);
        assert(all_matched(kept)[k].0 == kept[k]);
    }
    assert(matched =~= kept);
}

} // verus!
