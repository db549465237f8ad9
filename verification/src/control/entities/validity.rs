//! Whether a registry that was read back is a registry: its keys are distinct and its references
//! hold.

use vstd::prelude::*;

use super::registry::{
    aliases_distinct, candidates_distinct, entities_distinct, has_entity, losers_distinct,
    reviews_ascend, EntityRegistry,
};
use crate::text::same;

verus! {

impl EntityRegistry {
    /// Whether what must hold of a registry holds of this one.
    pub fn is_valid(&self) -> (res: bool)
        ensures
            res == self.wf(),
    {
        self.valid_entities() && self.valid_aliases() && self.valid_merges()
            && self.valid_reviews() && self.valid_candidates()
    }

    fn valid_entities(&self) -> (res: bool)
        ensures
            res == entities_distinct(self.entity_list()),
    {
        let ghost all = self.entity_list();
        let mut j: usize = 0;
        while j < self.entities.len()
            invariant
                j <= self.entities@.len(),
                all == self.entity_list(),
                forall|a: int, b: int|
                    0 <= a < b < j ==> (#[trigger] all[a]).entity_id != (
                    #[trigger] all[b]).entity_id && !(all[a].canonical_name
                        == all[b].canonical_name && all[a].entity_type == all[b].entity_type),
            decreases self.entities@.len() - j,
        {
            let mut i: usize = 0;
            while i < j
                invariant
                    i <= j < self.entities@.len(),
                    all == self.entity_list(),
                    forall|a: int|
                        0 <= a < i ==> (#[trigger] all[a]).entity_id != all[j as int].entity_id
                            && !(all[a].canonical_name == all[j as int].canonical_name
                            && all[a].entity_type == all[j as int].entity_type),
                decreases j - i,
            {
                let (x, y) = (&self.entities[i], &self.entities[j]);
                assert(all[i as int] == x@ && all[j as int] == y@);
                if same(x.entity_id.as_str(), y.entity_id.as_str()) || (same(
                    x.canonical_name.as_str(),
                    y.canonical_name.as_str(),
                ) && same(x.entity_type.as_str(), y.entity_type.as_str())) {
                    assert(!entities_distinct(all));
                    return false;
                }
                i = i + 1;
            }
            j = j + 1;
        }
        true
    }

    fn valid_aliases(&self) -> (res: bool)
        ensures
            res == (aliases_distinct(self.alias_list()) && forall|i: int|
                0 <= i < self.alias_list().len() ==> has_entity(
                    self.entity_list(),
                    (#[trigger] self.alias_list()[i]).entity_id,
                )),
    {
        let ghost all = self.alias_list();
        let ghost entities = self.entity_list();
        let mut j: usize = 0;
        while j < self.aliases.len()
            invariant
                j <= self.aliases@.len(),
                all == self.alias_list(),
                entities == self.entity_list(),
                forall|a: int, b: int|
                    0 <= a < b < j ==> !((#[trigger] all[a]).alias == (#[trigger] all[b]).alias
                        && all[a].entity_type == all[b].entity_type),
                forall|a: int| 0 <= a < j ==> has_entity(entities, (#[trigger] all[a]).entity_id),
            decreases self.aliases@.len() - j,
        {
            assert(all[j as int] == self.aliases@[j as int]@);
            if self.entity_index(self.aliases[j].entity_id.as_str()).is_none() {
                assert(!has_entity(entities, all[j as int].entity_id));
                return false;
            }
            let mut i: usize = 0;
            while i < j
                invariant
                    i <= j < self.aliases@.len(),
                    all == self.alias_list(),
                    forall|a: int|
                        0 <= a < i ==> !((#[trigger] all[a]).alias == all[j as int].alias
                            && all[a].entity_type == all[j as int].entity_type),
                decreases j - i,
            {
                let (x, y) = (&self.aliases[i], &self.aliases[j]);
                assert(all[i as int] == x@ && all[j as int] == y@);
                if same(x.alias.as_str(), y.alias.as_str()) && same(
                    x.entity_type.as_str(),
                    y.entity_type.as_str(),
                ) {
                    assert(!aliases_distinct(all));
                    return false;
                }
                i = i + 1;
            }
            j = j + 1;
        }
        true
    }

    fn valid_merges(&self) -> (res: bool)
        ensures
            res == (losers_distinct(self.merge_list()) && forall|i: int|
                0 <= i < self.merge_list().len() ==> has_entity(
                    self.entity_list(),
                    (#[trigger] self.merge_list()[i]).loser_id,
                ) && has_entity(self.entity_list(), self.merge_list()[i].winner_id)),
    {
        let ghost all = self.merge_list();
        let ghost entities = self.entity_list();
        let mut j: usize = 0;
        while j < self.merges.len()
            invariant
                j <= self.merges@.len(),
                all == self.merge_list(),
                entities == self.entity_list(),
                forall|a: int, b: int|
                    0 <= a < b < j ==> (#[trigger] all[a]).loser_id != (
                    #[trigger] all[b]).loser_id,
                forall|a: int|
                    0 <= a < j ==> has_entity(entities, (#[trigger] all[a]).loser_id)
                        && has_entity(entities, all[a].winner_id),
            decreases self.merges@.len() - j,
        {
            assert(all[j as int] == self.merges@[j as int]@);
            if self.entity_index(self.merges[j].loser_id.as_str()).is_none()
                || self.entity_index(self.merges[j].winner_id.as_str()).is_none() {
                assert(!(has_entity(entities, all[j as int].loser_id) && has_entity(
                    entities,
                    all[j as int].winner_id,
                )));
                return false;
            }
            let mut i: usize = 0;
            while i < j
                invariant
                    i <= j < self.merges@.len(),
                    all == self.merge_list(),
                    forall|a: int|
                        0 <= a < i ==> (#[trigger] all[a]).loser_id != all[j as int].loser_id,
                decreases j - i,
            {
                assert(all[i as int] == self.merges@[i as int]@ && all[j as int]
                    == self.merges@[j as int]@);
                if same(self.merges[i].loser_id.as_str(), self.merges[j].loser_id.as_str()) {
                    assert(!losers_distinct(all));
                    return false;
                }
                i = i + 1;
            }
            j = j + 1;
        }
        true
    }

    fn valid_reviews(&self) -> (res: bool)
        ensures
            res == reviews_ascend(self.review_list()),
    {
        let ghost all = self.review_list();
        let mut j: usize = 1;
        while j < self.reviews.len()
            invariant
                1 <= j,
                all == self.review_list(),
                forall|a: int, b: int|
                    0 <= a < b < j && b < all.len() ==> (#[trigger] all[a]).id < (
                    #[trigger] all[b]).id,
            decreases self.reviews@.len() - j,
        {
            assert(all[j as int] == self.reviews@[j as int]@ && all[j - 1] == self.reviews@[j
                - 1]@);
            if self.reviews[j - 1].id >= self.reviews[j].id {
                assert(!(all[j - 1].id < all[j as int].id));
                return false;
            }
            j = j + 1;
        }
        true
    }

    fn valid_candidates(&self) -> (res: bool)
        ensures
            res == (candidates_distinct(self.candidate_list()) && forall|i: int|
                0 <= i < self.candidate_list().len() ==> has_entity(
                    self.entity_list(),
                    (#[trigger] self.candidate_list()[i]).entity_id,
                )),
    {
        let ghost all = self.candidate_list();
        let ghost entities = self.entity_list();
        let mut j: usize = 0;
        while j < self.candidates.len()
            invariant
                j <= self.candidates@.len(),
                all == self.candidate_list(),
                entities == self.entity_list(),
                forall|a: int, b: int|
                    0 <= a < b < j ==> (#[trigger] all[a]).entity_id != (
                    #[trigger] all[b]).entity_id,
                forall|a: int| 0 <= a < j ==> has_entity(entities, (#[trigger] all[a]).entity_id),
            decreases self.candidates@.len() - j,
        {
            assert(all[j as int] == self.candidates@[j as int]@);
            if self.entity_index(self.candidates[j].entity_id.as_str()).is_none() {
                assert(!has_entity(entities, all[j as int].entity_id));
                return false;
            }
            let mut i: usize = 0;
            while i < j
                invariant
                    i <= j < self.candidates@.len(),
                    all == self.candidate_list(),
                    forall|a: int|
                        0 <= a < i ==> (#[trigger] all[a]).entity_id != all[j as int].entity_id,
                decreases j - i,
            {
                assert(all[i as int] == self.candidates@[i as int]@ && all[j as int]
                    == self.candidates@[j as int]@);
                if same(
                    self.candidates[i].entity_id.as_str(),
                    self.candidates[j].entity_id.as_str(),
                ) {
                    assert(!candidates_distinct(all));
                    return false;
                }
                i = i + 1;
            }
            j = j + 1;
        }
        true
    }
}

} // verus!
