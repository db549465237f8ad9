//! Labeled entity-resolution threshold measurement.
//!
//! This module measures approximate candidate merges without changing the production identity
//! rule. Exact normalized identities and explicit aliases remain the only automatic merges.
//!
//! Thresholds are carried by the bit pattern of their IEEE 754 double.

use vstd::prelude::*;
use vstd::string::StringExecFns;

use super::entities::{normalize_name, normalized_name};
use crate::knowledge::EntityType;
use crate::text::{decimal, lower_ascii, texts, trimmed};
use crate::text::{decimal_string, is_blank, same, same_ignoring_ascii_case};

verus! {

/// The version of the fixture format.
pub const SCHEMA_VERSION: u8 = 1;

/// A labeled fixture.
#[derive(Debug)]
pub struct Fixture {
    /// The version of the fixture format.
    pub schema_version: u8,
    /// The bits of the threshold in use.
    pub selected_threshold: u64,
    /// The bits of the thresholds to measure.
    pub thresholds: Vec<u64>,
    /// The labeled pairs.
    pub cases: Vec<Case>,
}

/// A labeled pair of mentions.
#[derive(Debug)]
pub struct Case {
    /// The id of the pair.
    pub id: String,
    /// Why the pair is labeled as it is.
    pub reason: String,
    /// The first mention.
    pub left: Mention,
    /// The second mention.
    pub right: Mention,
    /// Whether the two mentions are of one entity.
    pub expected_same: bool,
}

/// A mention of an entity in a document.
#[derive(Debug)]
pub struct Mention {
    /// The document.
    pub document_id: String,
    /// The name of the entity type.
    pub entity_type: String,
    /// The name of the entity.
    pub name: String,
    /// Other names of the entity.
    pub aliases: Vec<String>,
}

/// Whether the double of this bit pattern lies between 0 and 1; infinities and NaNs do not.
pub open spec fn in_unit_interval(bits: u64) -> bool {
    bits <= 0x3ff0_0000_0000_0000 || bits == 0x8000_0000_0000_0000
}

/// Whether the double of this bit pattern lies between 0 and 1.
pub fn is_unit_fraction(bits: u64) -> (res: bool)
    ensures
        res == in_unit_interval(bits),
{
    bits <= 0x3ff0_0000_0000_0000 || bits == 0x8000_0000_0000_0000
}

/// The entity type of this name, in any ASCII case.
pub open spec fn entity_type_named(value: Seq<char>) -> Option<EntityType> {
    let v = lower_ascii(value);
    if v == lower_ascii("CONCEPT"@) {
        Some(EntityType::Concept)
    } else if v == lower_ascii("EVENT"@) {
        Some(EntityType::Event)
    } else if v == lower_ascii("LOCATION"@) || v == lower_ascii("PLACE"@) {
        Some(EntityType::Location)
    } else if v == lower_ascii("ORGANIZATION"@) || v == lower_ascii("ORGANISATION"@) {
        Some(EntityType::Organization)
    } else if v == lower_ascii("PERSON"@) {
        Some(EntityType::Person)
    } else if v == lower_ascii("PRODUCT"@) {
        Some(EntityType::Product)
    } else {
        None
    }
}

/// Computes [`entity_type_named`].
pub fn parse_entity_type(value: &str) -> (res: Option<EntityType>)
    ensures
        res == entity_type_named(value@),
{
    if same_ignoring_ascii_case(value, "CONCEPT") {
        Some(EntityType::Concept)
    } else if same_ignoring_ascii_case(value, "EVENT") {
        Some(EntityType::Event)
    } else if same_ignoring_ascii_case(value, "LOCATION") || same_ignoring_ascii_case(
        value,
        "PLACE",
    ) {
        Some(EntityType::Location)
    } else if same_ignoring_ascii_case(value, "ORGANIZATION") || same_ignoring_ascii_case(
        value,
        "ORGANISATION",
    ) {
        Some(EntityType::Organization)
    } else if same_ignoring_ascii_case(value, "PERSON") {
        Some(EntityType::Person)
    } else if same_ignoring_ascii_case(value, "PRODUCT") {
        Some(EntityType::Product)
    } else {
        None
    }
}

/// What is wrong with a mention of the case `case_id`.
pub open spec fn mention_error(case_id: Seq<char>, m: Mention) -> Option<Seq<char>> {
    if m.document_id@.len() == 0 || trimmed(m.name@).len() == 0 {
        Some("case "@ + case_id + " has an incomplete mention"@)
    } else if entity_type_named(m.entity_type@) is None {
        Some("case "@ + case_id + " has an unknown entity type"@)
    } else if exists|i: int| 0 <= i < m.aliases@.len() && trimmed((#[trigger] m.aliases@[i])@).len() == 0 {
        Some("case "@ + case_id + " has an empty alias"@)
    } else {
        None
    }
}

/// What is wrong with the case at `i`, given the cases before it.
pub open spec fn case_error(cases: Seq<Case>, i: int) -> Option<Seq<char>> {
    let case = cases[i];
    if case.id@.len() == 0 || exists|j: int| 0 <= j < i && (#[trigger] cases[j]).id@ == case.id@ {
        Some("case id is empty or duplicated: "@ + case.id@)
    } else if case.reason@.len() == 0 {
        Some("case "@ + case.id@ + " has no reason"@)
    } else if mention_error(case.id@, case.left) is Some {
        mention_error(case.id@, case.left)
    } else {
        mention_error(case.id@, case.right)
    }
}

/// What is wrong with the first faulty case at or after `i`.
pub open spec fn first_case_error(cases: Seq<Case>, i: int) -> Option<Seq<char>>
    decreases cases.len() - i,
{
    if i >= cases.len() {
        None
    } else if case_error(cases, i) is Some {
        case_error(cases, i)
    } else {
        first_case_error(cases, i + 1)
    }
}

/// What is wrong with a fixture: its version, its thresholds, then its cases.
pub open spec fn fixture_error(f: Fixture) -> Option<Seq<char>> {
    let t = f.thresholds@;
    if f.schema_version != SCHEMA_VERSION {
        Some(
            "unsupported entity-resolution schema version "@ + decimal(f.schema_version as nat)
                + "; expected "@ + decimal(SCHEMA_VERSION as nat),
        )
    } else if !in_unit_interval(f.selected_threshold) {
        Some("selected threshold must be finite and between 0 and 1"@)
    } else if t.len() == 0 || exists|i: int| 0 <= i < t.len() && !in_unit_interval(#[trigger] t[i]) {
        Some("thresholds must be finite values between 0 and 1"@)
    } else if exists|i: int, j: int| 0 <= i < j < t.len() && #[trigger] t[i] == #[trigger] t[j] {
        Some("thresholds must be unique"@)
    } else if f.cases@.len() == 0 {
        Some("entity-resolution fixture has no cases"@)
    } else {
        first_case_error(f.cases@, 0)
    }
}

/// The text of the error of a result, where it is one.
pub open spec fn error_text(r: Result<(), String>) -> Option<Seq<char>> {
    match r {
        Ok(_) => None,
        Err(e) => Some(e@),
    }
}

fn case_message(case_id: &str, what: &str) -> (res: String)
    ensures
        res@ == "case "@ + case_id@ + what@,
{
    let mut m = "case ".to_owned();
    m.append(case_id);
    m.append(what);
    m
}

/// Checks a mention of the case `case_id`.
#[verifier::loop_isolation(false)]
pub fn validate_mention(case_id: &str, mention: &Mention) -> (res: Result<(), String>)
    ensures
        error_text(res) == mention_error(case_id@, *mention),
{
    if mention.document_id.as_str().is_empty() || is_blank(mention.name.as_str()) {
        return Err(case_message(case_id, " has an incomplete mention"));
    }
    if parse_entity_type(mention.entity_type.as_str()).is_none() {
        return Err(case_message(case_id, " has an unknown entity type"));
    }
    let mut i: usize = 0;
    while i < mention.aliases.len()
        invariant
            i <= mention.aliases@.len(),
            forall|j: int| 0 <= j < i ==> trimmed((#[trigger] mention.aliases@[j])@).len() > 0,
        decreases mention.aliases@.len() - i,
    {
        if is_blank(mention.aliases[i].as_str()) {
            assert(trimmed(mention.aliases@[i as int]@).len() == 0);
            return Err(case_message(case_id, " has an empty alias"));
        }
        i = i + 1;
    }
    Ok(())
}

fn validate_case(cases: &Vec<Case>, i: usize) -> (res: Result<(), String>)
    requires
        i < cases@.len(),
    ensures
        error_text(res) == case_error(cases@, i as int),
{
    let case = &cases[i];
    let mut repeated = case.id.as_str().is_empty();
    let mut j: usize = 0;
    while j < i
        invariant
            j <= i < cases@.len(),
            case == cases@[i as int],
            repeated == (case.id@.len() == 0 || exists|k: int|
                0 <= k < j && (#[trigger] cases@[k]).id@ == case.id@),
        decreases i - j,
    {
        if same(cases[j].id.as_str(), case.id.as_str()) {
            repeated = true;
        }
        j = j + 1;
    }
    if repeated {
        let mut m = "case id is empty or duplicated: ".to_owned();
        m.append(case.id.as_str());
        return Err(m);
    }
    if case.reason.as_str().is_empty() {
        return Err(case_message(case.id.as_str(), " has no reason"));
    }
    match validate_mention(case.id.as_str(), &case.left) {
        Ok(_) => validate_mention(case.id.as_str(), &case.right),
        Err(e) => Err(e),
    }
}

fn has_bad_threshold(t: &Vec<u64>) -> (res: bool)
    ensures
        res == exists|i: int| 0 <= i < t@.len() && !in_unit_interval(#[trigger] t@[i]),
{
    let mut i: usize = 0;
    while i < t.len()
        invariant
            i <= t@.len(),
            forall|j: int| 0 <= j < i ==> in_unit_interval(#[trigger] t@[j]),
        decreases t@.len() - i,
    {
        if !is_unit_fraction(t[i]) {
            assert(!in_unit_interval(t@[i as int]));
            return true;
        }
        i = i + 1;
    }
    false
}

fn has_repeated_threshold(t: &Vec<u64>) -> (res: bool)
    ensures
        res == exists|i: int, j: int| 0 <= i < j < t@.len() && #[trigger] t@[i] == #[trigger] t@[j],
{
    let mut j: usize = 0;
    while j < t.len()
        invariant
            j <= t@.len(),
            forall|a: int, b: int| 0 <= a < b < j ==> #[trigger] t@[a] != #[trigger] t@[b],
        decreases t@.len() - j,
    {
        let mut i: usize = 0;
        while i < j
            invariant
                i <= j < t@.len(),
                forall|a: int| 0 <= a < i ==> #[trigger] t@[a] != t@[j as int],
            decreases j - i,
        {
            if t[i] == t[j] {
                assert(t@[i as int] == t@[j as int]);
                return true;
            }
            i = i + 1;
        }
        j = j + 1;
    }
    false
}

/// Checks a fixture.
#[verifier::loop_isolation(false)]
pub fn validate(fixture: &Fixture) -> (res: Result<(), String>)
    ensures
        error_text(res) == fixture_error(*fixture),
{
    if fixture.schema_version != SCHEMA_VERSION {
        let mut m = "unsupported entity-resolution schema version ".to_owned();
        let version = decimal_string(fixture.schema_version as u64);
        m.append(version.as_str());
        m.append("; expected ");
        let expected = decimal_string(SCHEMA_VERSION as u64);
        m.append(expected.as_str());
        return Err(m);
    }
    if !is_unit_fraction(fixture.selected_threshold) {
        return Err("selected threshold must be finite and between 0 and 1".to_owned());
    }
    if fixture.thresholds.len() == 0 || has_bad_threshold(&fixture.thresholds) {
        return Err("thresholds must be finite values between 0 and 1".to_owned());
    }
    if has_repeated_threshold(&fixture.thresholds) {
        return Err("thresholds must be unique".to_owned());
    }
    if fixture.cases.len() == 0 {
        return Err("entity-resolution fixture has no cases".to_owned());
    }
    let mut i: usize = 0;
    while i < fixture.cases.len()
        invariant
            i <= fixture.cases@.len(),
            first_case_error(fixture.cases@, 0) == first_case_error(fixture.cases@, i as int),
        decreases fixture.cases@.len() - i,
    {
        match validate_case(&fixture.cases, i) {
            Ok(_) => {},
            Err(e) => {
                return Err(e);
            },
        }
        i = i + 1;
    }
    Ok(())
}

/// How two mentions compare before any similarity is measured.
#[derive(Debug)]
pub enum Comparison {
    /// They can never be one entity.
    Never,
    /// They are one entity by exact name or explicit alias.
    Same,
    /// Their normalized names are to be compared.
    Measure {
        /// The normalized name of the first.
        left: String,
        /// The normalized name of the second.
        right: String,
    },
}

/// Whether a name normalizes to `name`.
pub open spec fn has_alias(aliases: Seq<Seq<char>>, name: Seq<char>) -> bool {
    exists|i: int| 0 <= i < aliases.len() && normalized_name(#[trigger] aliases[i]) == Some(name)
}

/// Whether the comparison of two mentions is `c`: never of different or unknown types or without a
/// normalized name; the same where the normalized names agree or one is an alias of the other;
/// else a matter of measure.
pub open spec fn compared(left: Mention, right: Mention, c: Comparison) -> bool {
    let lt = entity_type_named(left.entity_type@);
    let rt = entity_type_named(right.entity_type@);
    match (normalized_name(left.name@), normalized_name(right.name@)) {
        (Some(l), Some(r)) => if lt is None || rt is None || lt != rt {
            c is Never
        } else if l == r || has_alias(texts(left.aliases@), r) || has_alias(
            texts(right.aliases@),
            l,
        ) {
            c is Same
        } else {
            &&& c is Measure
            &&& c->left@ == l
            &&& c->right@ == r
        },
        _ => c is Never,
    }
}

fn is_alias(aliases: &Vec<String>, name: &str) -> (res: bool)
    ensures
        res == has_alias(texts(aliases@), name@),
{
    let mut i: usize = 0;
    while i < aliases.len()
        invariant
            i <= aliases@.len(),
            forall|j: int|
                0 <= j < i ==> normalized_name(#[trigger] texts(aliases@)[j]) != Some(name@),
        decreases aliases@.len() - i,
    {
        assert(texts(aliases@)[i as int] == aliases@[i as int]@);
        if let Some(n) = normalize_name(aliases[i].as_str()) {
            if same(n.as_str(), name) {
                return true;
            }
        }
        i = i + 1;
    }
    false
}

/// Compares two mentions as far as types, exact names and explicit aliases decide.
pub fn compare_mentions(left: &Mention, right: &Mention) -> (res: Comparison)
    ensures
        compared(*left, *right, res),
{
    let (lt, rt) = match (
        parse_entity_type(left.entity_type.as_str()),
        parse_entity_type(right.entity_type.as_str()),
    ) {
        (Some(lt), Some(rt)) => (lt, rt),
        _ => {
            return Comparison::Never;
        },
    };
    if lt != rt {
        return Comparison::Never;
    }
    match (normalize_name(left.name.as_str()), normalize_name(right.name.as_str())) {
        (Some(l), Some(r)) => {
            if same(l.as_str(), r.as_str()) || is_alias(&left.aliases, r.as_str()) || is_alias(
                &right.aliases,
                l.as_str(),
            ) {
                Comparison::Same
            } else {
                Comparison::Measure { left: l, right: r }
            }
        },
        _ => Comparison::Never,
    }
}

/// The counts of a measurement.
#[derive(Clone, Copy, Debug, PartialEq, Eq, Structural)]
pub struct Tally {
    /// Pairs merged as they should be.
    pub true_positive: u32,
    /// Pairs merged that are different entities.
    pub false_merges: u32,
    /// Pairs left apart that are one entity.
    pub missed_merges: u32,
}

/// How many of the first `n` pairs are labeled `expected` and decided `decided`.
pub open spec fn count_pairs(
    cases: Seq<Case>,
    merged: Seq<bool>,
    n: int,
    decided: bool,
    expected: bool,
) -> nat
    decreases n,
{
    if n <= 0 {
        0
    } else {
        count_pairs(cases, merged, n - 1, decided, expected) + if merged[n - 1] == decided
            && cases[n - 1].expected_same == expected {
            1nat
        } else {
            0nat
        }
    }
}

proof fn lemma_count_pairs_bound(cases: Seq<Case>, merged: Seq<bool>, n: int, d: bool, e: bool)
    requires
        0 <= n,
    ensures
        count_pairs(cases, merged, n, d, e) <= n,
    decreases n,
{
    if n > 0 {
        lemma_count_pairs_bound(cases, merged, n - 1, d, e);
    }
}

/// Counts how the decisions `merged` stand against the labels of `cases`.
pub fn tally(cases: &Vec<Case>, merged: &Vec<bool>) -> (res: Tally)
    requires
        cases@.len() == merged@.len(),
        cases@.len() <= u32::MAX,
    ensures
        res.true_positive == count_pairs(cases@, merged@, cases@.len() as int, true, true),
        res.false_merges == count_pairs(cases@, merged@, cases@.len() as int, true, false),
        res.missed_merges == count_pairs(cases@, merged@, cases@.len() as int, false, true),
{
    let mut res = Tally { true_positive: 0, false_merges: 0, missed_merges: 0 };
    let mut i: usize = 0;
    while i < cases.len()
        invariant
            i <= cases@.len() == merged@.len(),
            cases@.len() <= u32::MAX,
            res.true_positive == count_pairs(cases@, merged@, i as int, true, true),
            res.false_merges == count_pairs(cases@, merged@, i as int, true, false),
            res.missed_merges == count_pairs(cases@, merged@, i as int, false, true),
        decreases cases@.len() - i,
    {
        proof {
            lemma_count_pairs_bound(cases@, merged@, i as int, true, true);
            lemma_count_pairs_bound(cases@, merged@, i as int, true, false);
            lemma_count_pairs_bound(cases@, merged@, i as int, false, true);
        }
        if merged[i] {
            if cases[i].expected_same {
                res.true_positive = res.true_positive + 1;
            } else {
                res.false_merges = res.false_merges + 1;
            }
        } else if cases[i].expected_same {
            res.missed_merges = res.missed_merges + 1;
        }
        i = i + 1;
    }
    res
}

/// Mentions of different types are never candidates for a merge.
pub proof fn law_type_mismatch_never_merges(left: Mention, right: Mention, c: Comparison)
    requires
        compared(left, right, c),
        entity_type_named(left.entity_type@) != entity_type_named(right.entity_type@),
    ensures
        c is Never,
{
}

/// The comparison of two mentions does not depend on which comes first.
pub proof fn law_comparison_is_symmetric(left: Mention, right: Mention, c: Comparison, d: Comparison)
    requires
        compared(left, right, c),
        compared(right, left, d),
    ensures
        c is Never <==> d is Never,
        c is Same <==> d is Same,
{
}

/// Types go by their names, however capitalized: `concept`, `event`, `location` and `place`, `organization`
/// and `organisation`, `person`, `product`, and no other.
pub proof fn law_types_go_by_their_names(value: &str, res: Option<EntityType>)
    requires
        call_ensures(parse_entity_type, (value,), res),
    ensures
        ({
            let v = lower_ascii(value@);
            &&& res == Some(EntityType::Concept) <==> v == "concept"@
            &&& res == Some(EntityType::Event) <==> v == "event"@
            &&& res == Some(EntityType::Location) <==> v == "location"@ || v == "place"@
            &&& res == Some(EntityType::Organization) <==> v == "organization"@ || v
                == "organisation"@
            &&& res == Some(EntityType::Person) <==> v == "person"@
            &&& res == Some(EntityType::Product) <==> v == "product"@
        }),
{
    reveal_strlit("CONCEPT");
    reveal_strlit("EVENT");
    reveal_strlit("LOCATION");
    reveal_strlit("PLACE");
    reveal_strlit("ORGANIZATION");
    reveal_strlit("ORGANISATION");
    reveal_strlit("PERSON");
    reveal_strlit("PRODUCT");
    reveal_strlit("concept");
    reveal_strlit("event");
    reveal_strlit("location");
    reveal_strlit("place");
    reveal_strlit("organization");
    reveal_strlit("organisation");
    reveal_strlit("person");
    reveal_strlit("product");
    assert(lower_ascii("CONCEPT"@) =~= "concept"@);
    assert(lower_ascii("EVENT"@) =~= "event"@);
    assert(lower_ascii("LOCATION"@) =~= "location"@);
    assert(lower_ascii("PLACE"@) =~= "place"@);
    assert(lower_ascii("ORGANIZATION"@) =~= "organization"@);
    assert(lower_ascii("ORGANISATION"@) =~= "organisation"@);
    assert(lower_ascii("PERSON"@) =~= "person"@);
    assert(lower_ascii("PRODUCT"@) =~= "product"@);
    assert("concept"@[0] == 'c' && "event"@[0] == 'e' && "location"@[0] == 'l' && "organization"@[0]
        == 'o' && "organisation"@[0] == 'o');
    assert("place"@.len() == 5 && "person"@.len() == 6 && "product"@.len() == 7);
    assert("place"@[0] == 'p' && "person"@[0] == 'p' && "product"@[0] == 'p');
}

/// What is decided of two mentions without measuring: mentions of different types are never one entity;
/// mentions of one known type are one where their normalized names agree or an alias of one normalizes
/// to the name of the other, and else their names are measured.
pub proof fn law_names_and_aliases_decide(left: &Mention, right: &Mention, res: Comparison, i: int)
    requires
        call_ensures(compare_mentions, (left, right), res),
        normalized_name(left.name@) is Some,
        normalized_name(right.name@) is Some,
    ensures
        entity_type_named(left.entity_type@) != entity_type_named(right.entity_type@) ==> res is Never,
        entity_type_named(left.entity_type@) is None ==> res is Never,
        entity_type_named(left.entity_type@) is Some && entity_type_named(left.entity_type@)
            == entity_type_named(right.entity_type@) ==> {
            let (l, r) = (normalized_name(left.name@), normalized_name(right.name@));
            &&& l == r ==> res is Same
            &&& 0 <= i < left.aliases@.len() && normalized_name(left.aliases@[i]@) == r ==> res is Same
            &&& 0 <= i < right.aliases@.len() && normalized_name(right.aliases@[i]@) == l
                ==> res is Same
            &&& l != r && left.aliases@.len() == 0 && right.aliases@.len() == 0 ==> {
                &&& res is Measure
                &&& Some(res->left@) == l
                &&& Some(res->right@) == r
            }
        },
{
    if 0 <= i < left.aliases@.len() {
        assert(texts(left.aliases@)[i] == left.aliases@[i]@);
    }
    if 0 <= i < right.aliases@.len() {
        assert(texts(right.aliases@)[i] == right.aliases@[i]@);
    }
}

proof fn lemma_counts_add_up(cases: Seq<Case>, merged: Seq<bool>, n: int)
    requires
        0 <= n <= cases.len(),
        merged.len() == cases.len(),
    ensures
        count_pairs(cases, merged, n, true, true) + count_pairs(cases, merged, n, true, false)
            + count_pairs(cases, merged, n, false, true) + count_pairs(cases, merged, n, false, false)
            == n,
        (forall|i: int|
            0 <= i < n ==> #[trigger] merged[i] == cases[i].expected_same) ==> count_pairs(
            cases,
            merged,
            n,
            true,
            false,
        ) == 0 && count_pairs(cases, merged, n, false, true) == 0,
    decreases n,
{
    if n > 0 {
        lemma_counts_add_up(cases, merged, n - 1);
    }
}

proof fn lemma_pair_counts(cases: Seq<Case>, merged: Seq<bool>, n: int, i: int, decided: bool, expected: bool)
    requires
        0 <= i < n <= cases.len(),
        merged.len() == cases.len(),
        merged[i] == decided,
        cases[i].expected_same == expected,
    ensures
        count_pairs(cases, merged, n, decided, expected) > 0,
    decreases n,
{
    if i < n - 1 {
        lemma_pair_counts(cases, merged, n - 1, i, decided, expected);
    }
}

/// What a measurement counts: a pair that is merged though it is two entities is a false merge, one that
/// is left apart though it is one a missed merge, one that is merged as it should be a hit; every pair
/// counts once at most, and where all are decided as they are labeled no merge is false or missed.
pub proof fn law_every_decision_is_counted(cases: &Vec<Case>, merged: &Vec<bool>, res: Tally, i: int)
    requires
        call_ensures(tally, (cases, merged), res),
        cases@.len() == merged@.len(),
    ensures
        0 <= i < cases@.len() && merged@[i] && !cases@[i].expected_same ==> res.false_merges > 0,
        0 <= i < cases@.len() && !merged@[i] && cases@[i].expected_same ==> res.missed_merges > 0,
        0 <= i < cases@.len() && merged@[i] && cases@[i].expected_same ==> res.true_positive > 0,
        res.true_positive + res.false_merges + res.missed_merges <= cases@.len(),
        (forall|k: int|
            0 <= k < cases@.len() ==> #[trigger] merged@[k] == cases@[k].expected_same)
            ==> res.false_merges == 0 && res.missed_merges == 0,
{
    let n = cases@.len() as int;
    lemma_counts_add_up(cases@, merged@, n);
    if 0 <= i < n {
        lemma_pair_counts(cases@, merged@, n, i, merged@[i], cases@[i].expected_same);
    }
}

/// A fixture is accepted where its version is the first, its thresholds are distinct fractions, and each
/// case has its own id, a reason and two complete mentions; nothing else is.
pub proof fn law_fixtures_are_checked(fixture: &Fixture, res: Result<(), String>, i: int, j: int)
    requires
        call_ensures(validate, (fixture,), res),
        res is Ok,
    ensures
        fixture.schema_version == 1,
        fixture.thresholds@.len() > 0,
        fixture.cases@.len() > 0,
        fixture.selected_threshold <= 0x3ff0_0000_0000_0000 || fixture.selected_threshold
            == 0x8000_0000_0000_0000,
        0 <= i < fixture.thresholds@.len() ==> fixture.thresholds@[i] <= 0x3ff0_0000_0000_0000
            || fixture.thresholds@[i] == 0x8000_0000_0000_0000,
        0 <= i < j < fixture.thresholds@.len() ==> fixture.thresholds@[i] != fixture.thresholds@[j],
        0 <= i < j < fixture.cases@.len() ==> fixture.cases@[i].id@ != fixture.cases@[j].id@,
        0 <= i < fixture.cases@.len() ==> {
            let c = fixture.cases@[i];
            &&& c.id@.len() > 0
            &&& c.reason@.len() > 0
            &&& c.left.document_id@.len() > 0 && c.right.document_id@.len() > 0
            &&& trimmed(c.left.name@).len() > 0 && trimmed(c.right.name@).len() > 0
            &&& entity_type_named(c.left.entity_type@) is Some
            &&& entity_type_named(c.right.entity_type@) is Some
        },
{
    if 0 <= i < fixture.cases@.len() {
        lemma_no_case_error(fixture.cases@, 0, i);
    }
    if 0 <= i < j < fixture.cases@.len() {
        lemma_no_case_error(fixture.cases@, 0, j);
    }
}

proof fn lemma_no_case_error(cases: Seq<Case>, from: int, i: int)
    requires
        0 <= from <= i < cases.len(),
        first_case_error(cases, from) is None,
    ensures
        case_error(cases, i) is None,
    decreases i - from,
{
    if from < i {
        lemma_no_case_error(cases, from + 1, i);
    }
}

} // verus!
