//! Typed entity extraction and identity resolution.
//!
//! The extractor is deterministic and local. It accepts explicit typed fields such as
//! `PERSON: Ada Lovelace`, then supplements them with lexical type cues and well-known typed
//! suffixes. It intentionally does not publish untyped capitalized phrases as entities.

use vstd::prelude::*;
use vstd::string::StringExecFns;

use crate::digest::sha256_hex;
use crate::knowledge::EntityType;
use crate::text::{
    chars_of, without, find_char, find_str, insert_ascending, is_alphabetic, is_alphanumeric, is_uppercase,
    is_whitespace, join_range, join_strings, less, lower_chars, lowercase_ascii, same, string_of,
    to_lowercase, trim_bounds, trim_bounds_by, words_of,
};
use crate::text::{
    ascending, find_by, find_text, has_prefix, is_white, join, lemma_find_by, lemma_find_by_unique,
    lemma_find_text, lemma_text_less_total, lemma_text_less_trans, lower_ascii, opt_text, text_less,
    texts, trim_by, trimmed, unicode_alphabetic, unicode_alphanumeric, unicode_lower_char,
    unicode_lowercase, unicode_uppercase, words,
};

verus! {

/// The most entities that one text yields.
pub const MAX_ENTITIES: usize = 32;

/// The most words of a name found by a cue or a suffix.
pub const MAX_NAME_WORDS: usize = 5;

// ---------------------------------------------------------------------------------------------
// Trusted items: Unicode normalization.
// ---------------------------------------------------------------------------------------------
/// The compatibility decomposition of a text, as the `unicode-normalization` crate computes it.
pub uninterp spec fn nfkd_form(s: Seq<char>) -> Seq<char>;

/// Calls `UnicodeNormalization::nfkd` and collects what it yields; the result is a function of the
/// text alone.
#[verifier::external_body]
fn nfkd(s: &str) -> (res: Vec<char>)
    ensures
        res@ == nfkd_form(s@),
{
    unicode_normalization::UnicodeNormalization::nfkd(s).collect()
}

/// What `unicode_normalization::char::is_combining_mark` answers: the Unicode `Mark` category.
pub uninterp spec fn combining_mark(c: char) -> bool;

/// Calls `unicode_normalization::char::is_combining_mark`; the answer is a function of the
/// character alone.
#[verifier::external_body]
fn is_combining_mark(c: char) -> (res: bool)
    ensures
        res == combining_mark(c),
{
    unicode_normalization::char::is_combining_mark(c)
}

// ---------------------------------------------------------------------------------------------
// Types and their views.
// ---------------------------------------------------------------------------------------------
/// A resolved entity of a text.
#[derive(Clone, Debug)]
pub struct Entity {
    /// The type.
    pub kind: EntityType,
    /// The display name.
    pub name: String,
    /// The normalized name: with the type, the identity of the entity.
    pub normalized: String,
    /// Other names, in ascending order.
    pub aliases: Vec<String>,
}

/// The model of an [`Entity`].
pub struct EntityView {
    pub kind: EntityType,
    pub name: Seq<char>,
    pub normalized: Seq<char>,
    pub aliases: Seq<Seq<char>>,
}

impl View for Entity {
    type V = EntityView;

    open spec fn view(&self) -> EntityView {
        EntityView {
            kind: self.kind,
            name: self.name@,
            normalized: self.normalized@,
            aliases: texts(self.aliases@),
        }
    }
}

/// One appearance of an entity in a text.
#[derive(Clone, Debug)]
pub struct Mention {
    /// The type that the text gives it.
    pub kind: EntityType,
    /// The name as written.
    pub surface: String,
    /// The name that `surface` is an alias of, where it is one.
    pub canonical: Option<String>,
}

/// The model of a [`Mention`].
pub struct MentionView {
    pub kind: EntityType,
    pub surface: Seq<char>,
    pub canonical: Option<Seq<char>>,
}

impl View for Mention {
    type V = MentionView;

    open spec fn view(&self) -> MentionView {
        MentionView {
            kind: self.kind,
            surface: self.surface@,
            canonical: opt_text(self.canonical),
        }
    }
}

/// The models of a list of mentions.
pub open spec fn mention_views(v: Seq<Mention>) -> Seq<MentionView> {
    v.map_values(|m: Mention| m@)
}

/// A word of a text.
#[derive(Clone, Debug)]
pub struct Token {
    /// Whether the word ends a phrase.
    pub boundary_after: bool,
    /// The word without surrounding punctuation.
    pub value: String,
    /// The word in lowercase.
    pub lowercase: String,
    /// Whether the word can be part of a name.
    pub name_like: bool,
}

/// The model of a [`Token`].
pub struct TokenView {
    pub boundary_after: bool,
    pub value: Seq<char>,
    pub lowercase: Seq<char>,
    pub name_like: bool,
}

impl View for Token {
    type V = TokenView;

    open spec fn view(&self) -> TokenView {
        TokenView {
            boundary_after: self.boundary_after,
            value: self.value@,
            lowercase: self.lowercase@,
            name_like: self.name_like,
        }
    }
}

/// The models of a list of tokens.
pub open spec fn token_views(v: Seq<Token>) -> Seq<TokenView> {
    v.map_values(|t: Token| t@)
}

// ---------------------------------------------------------------------------------------------
// Names.
// ---------------------------------------------------------------------------------------------
/// Whether a character is trimmed off the ends of a name.
pub open spec fn name_edge(c: char) -> bool {
    !unicode_alphanumeric(c) && c != '\'' && c != '-' && c != '_'
}

/// The predicate of characters trimmed off the ends of a name.
pub open spec fn name_edges() -> spec_fn(char) -> bool {
    |c: char| name_edge(c)
}

/// Whether `c` is trimmed off the ends of a name.
pub fn trim_name_character(c: char) -> (res: bool)
    ensures
        res == name_edge(c),
{
    !is_alphanumeric(c) && c != '\'' && c != '-' && c != '_'
}

fn trim_name_bounds(v: &[char], lo: usize, hi: usize) -> (res: (usize, usize))
    requires
        lo <= hi <= v@.len(),
    ensures
        lo <= res.0 <= res.1 <= hi,
        v@.subrange(res.0 as int, res.1 as int) == trim_by(
            v@.subrange(lo as int, hi as int),
            name_edges(),
        ),
{
    let f = |c: char| -> (b: bool)
        ensures
            b == name_edge(c),
        { trim_name_character(c) };
    trim_bounds_by(v, lo, hi, f, Ghost(name_edges()))
}

/// The display form of a name: without punctuation at its ends and with single spaces.
pub open spec fn cleaned_name(s: Seq<char>) -> Option<Seq<char>> {
    let t = trim_by(s, name_edges());
    if t.len() == 0 {
        None
    } else {
        Some(join(words(t), " "@))
    }
}

/// Computes [`cleaned_name`].
pub fn clean_name(value: &str) -> (res: Option<String>)
    ensures
        opt_text(res) == cleaned_name(value@),
{
    let v = chars_of(value);
    let (a, b) = trim_name_bounds(&v, 0, v.len());
    assert(v@.subrange(0, v@.len() as int) =~= value@);
    if a == b {
        return None;
    }
    let trimmed_name = string_of(&v, a, b);
    let parts = words_of(trimmed_name.as_str());
    Some(join_strings(&parts, " "))
}

/// What one character of a decomposed name becomes: nothing for a combining mark, else its
/// lowercase form with every character that is not alphanumeric replaced by a space.
pub open spec fn folded_char(c: char) -> Seq<char> {
    if combining_mark(c) {
        seq![]
    } else {
        unicode_lower_char(c).map_values(
            |d: char|
                if unicode_alphanumeric(d) {
                    d
                } else {
                    ' '
                },
        )
    }
}

/// A decomposed name with each character folded.
pub open spec fn folded(s: Seq<char>) -> Seq<char>
    decreases s.len(),
{
    if s.len() == 0 {
        seq![]
    } else {
        folded(s.drop_last()) + folded_char(s.last())
    }
}

/// The normalized form of a name, by which entities are told apart: without case, diacritics and
/// punctuation, with single spaces; none where nothing is left.
pub open spec fn normalized_name(s: Seq<char>) -> Option<Seq<char>> {
    let n = join(words(folded(nfkd_form(s))), " "@);
    if n.len() == 0 {
        None
    } else {
        Some(n)
    }
}

/// Computes [`normalized_name`].
pub fn normalize_name(value: &str) -> (res: Option<String>)
    ensures
        opt_text(res) == normalized_name(value@),
{
    let decomposed = nfkd(value);
    let mut fold = String::new();
    let mut i: usize = 0;
    while i < decomposed.len()
        invariant
            i <= decomposed@.len(),
            fold@ == folded(decomposed@.take(i as int)),
        decreases decomposed@.len() - i,
    {
        let c = decomposed[i];
        let ghost before = fold@;
        if !is_combining_mark(c) {
            let lower = lower_chars(c);
            let ghost image = folded_char(c);
            let mut k: usize = 0;
            assert(before + image.take(0) =~= before);
            while k < lower.len()
                invariant
                    k <= lower@.len(),
                    lower@ == unicode_lower_char(c),
                    !combining_mark(c),
                    image == folded_char(c),
                    fold@ == before + image.take(k as int),
                decreases lower@.len() - k,
            {
                let d = lower[k];
                if is_alphanumeric(d) {
                    fold.push(d);
                } else {
                    fold.push(' ');
                }
                assert(image.take(k + 1) =~= image.take(k as int).push(image[k as int]));
                k = k + 1;
                assert(fold@ =~= before + image.take(k as int));
            }
            assert(image.take(k as int) =~= image);
        } else {
            assert(before + folded_char(c) =~= before);
        }
        assert(decomposed@.take(i + 1).drop_last() =~= decomposed@.take(i as int));
        i = i + 1;
    }
    assert(decomposed@.take(i as int) =~= decomposed@);
    let parts = words_of(fold.as_str());
    let n = join_strings(&parts, " ");
    if n.as_str().is_empty() {
        None
    } else {
        Some(n)
    }
}

/// The text whose digest identifies an entity.
pub open spec fn identity_text(kind: EntityType, normalized: Seq<char>) -> Seq<char> {
    kind.name() + ":"@ + normalized
}

/// The stable id of an entity.
pub open spec fn entity_id_text(kind: EntityType, normalized: Seq<char>) -> Seq<char> {
    "entity-"@ + crate::digest::text_digest(identity_text(kind, normalized))
}

/// Computes [`entity_id_text`].
pub fn entity_id(kind: EntityType, normalized: &str) -> (res: String)
    ensures
        res@ == entity_id_text(kind, normalized@),
{
    let mut identity = kind.as_str().to_owned();
    identity.append(":");
    identity.append(normalized);
    let mut id = "entity-".to_owned();
    let digest = sha256_hex(identity.as_str());
    id.append(digest.as_str());
    id
}

impl Entity {
    /// The stable id of this entity.
    pub fn id(&self) -> (res: String)
        ensures
            res@ == entity_id_text(self.kind, self.normalized@),
    {
        entity_id(self.kind, self.normalized.as_str())
    }
}


// ---------------------------------------------------------------------------------------------
// Tokens.
// ---------------------------------------------------------------------------------------------
/// The predicate of alphabetic characters.
pub open spec fn alphabetic() -> spec_fn(char) -> bool {
    |c: char| unicode_alphabetic(c)
}

/// Whether a word can be part of a name: its first letter is uppercase, all its letters are, or it
/// holds a digit.
pub open spec fn looks_like_name(value: Seq<char>) -> bool {
    let first = find_by(value, alphabetic());
    ||| first < value.len() && unicode_uppercase(value[first])
    ||| forall|k: int| #![trigger value[k]]
        0 <= k < value.len() && unicode_alphabetic(value[k]) ==> unicode_uppercase(value[k])
    ||| exists|k: int| 0 <= k < value.len() && '0' <= #[trigger] value[k] <= '9'
}

/// Whether a word that ends in `c` ends a phrase.
pub open spec fn phrase_end(c: char) -> bool {
    c == ';' || c == '|' || c == '.' || c == ':'
}

/// The token that a word gives, unless it is all punctuation.
pub open spec fn token_of(raw: Seq<char>) -> Option<TokenView> {
    let value = trim_by(raw, name_edges());
    if value.len() == 0 {
        None
    } else {
        Some(
            TokenView {
                boundary_after: raw.len() > 0 && phrase_end(raw.last()),
                value,
                lowercase: unicode_lowercase(value),
                name_like: looks_like_name(value),
            },
        )
    }
}

/// The tokens of a list of words.
pub open spec fn tokens_of(raws: Seq<Seq<char>>) -> Seq<TokenView>
    decreases raws.len(),
{
    if raws.len() == 0 {
        seq![]
    } else {
        let before = tokens_of(raws.drop_last());
        match token_of(raws.last()) {
            Some(token) => before.push(token),
            None => before,
        }
    }
}

fn name_like(v: &[char]) -> (res: bool)
    ensures
        res == looks_like_name(v@),
{
    let mut seen_letter = false;
    let mut first_is_uppercase = false;
    let mut all_uppercase = true;
    let mut has_digit = false;
    let mut first: usize = v.len();
    let mut i: usize = 0;
    while i < v.len()
        invariant
            i <= v@.len(),
            seen_letter ==> first < i && unicode_alphabetic(v@[first as int]) && (forall|k: int|
                0 <= k < first ==> !unicode_alphabetic(#[trigger] v@[k])) && first_is_uppercase
                == unicode_uppercase(v@[first as int]),
            !seen_letter ==> !first_is_uppercase && first == v@.len() && (forall|k: int|
                0 <= k < i ==> !unicode_alphabetic(#[trigger] v@[k])),
            all_uppercase == (forall|k: int| #![trigger v@[k]]
                0 <= k < i && unicode_alphabetic(v@[k]) ==> unicode_uppercase(v@[k])),
            has_digit == (exists|k: int| 0 <= k < i && '0' <= #[trigger] v@[k] <= '9'),
        decreases v@.len() - i,
    {
        let c = v[i];
        assert(v@[i as int] == c);
        if is_alphabetic(c) {
            let upper = is_uppercase(c);
            if !seen_letter {
                seen_letter = true;
                first_is_uppercase = upper;
                first = i;
            }
            if !upper {
                all_uppercase = false;
            }
        }
        if '0' <= c && c <= '9' {
            has_digit = true;
        }
        i = i + 1;
    }
    proof {
        lemma_find_by_unique(v@, alphabetic(), first as int);
    }
    first_is_uppercase || all_uppercase || has_digit
}

/// The words of a text as tokens: without surrounding punctuation, and without those that are all
/// punctuation.
pub fn tokenize(text: &str) -> (res: Vec<Token>)
    ensures
        token_views(res@) == tokens_of(words(text@)),
{
    let raws = words_of(text);
    let mut res: Vec<Token> = Vec::new();
    let mut i: usize = 0;
    assert(token_views(res@) =~= tokens_of(texts(raws@).take(0)));
    while i < raws.len()
        invariant
            i <= raws@.len(),
            token_views(res@) == tokens_of(texts(raws@).take(i as int)),
        decreases raws@.len() - i,
    {
        let raw = chars_of(raws[i].as_str());
        let (a, b) = trim_name_bounds(&raw, 0, raw.len());
        let ghost all = texts(raws@);
        assert(all.take(i + 1).drop_last() =~= all.take(i as int));
        assert(raw@.subrange(0, raw@.len() as int) =~= raw@);
        assert(all.take(i + 1).last() == raw@);
        if a < b {
            let value = string_of(&raw, a, b);
            let chars = chars_of(value.as_str());
            let lowercase = to_lowercase(value.as_str());
            let last = raw[raw.len() - 1];
            let token = Token {
                boundary_after: last == ';' || last == '|' || last == '.' || last == ':',
                lowercase,
                name_like: name_like(&chars),
                value,
            };
            let ghost before = token_views(res@);
            res.push(token);
            assert(token_views(res@) =~= before.push(token@));
        }
        i = i + 1;
    }
    assert(texts(raws@).take(i as int) =~= texts(raws@));
    res
}

// ---------------------------------------------------------------------------------------------
// Typed suffixes and cues.
// ---------------------------------------------------------------------------------------------
/// The words that end the name of an organization.
pub open spec fn organization_suffix(s: Seq<char>) -> bool {
    s == "agency"@ || s == "bank"@ || s == "company"@ || s == "corp"@ || s == "corporation"@ || s
        == "foundation"@ || s == "inc"@ || s == "incorporated"@ || s == "institute"@ || s
        == "laboratory"@ || s == "labs"@ || s == "limited"@ || s == "llc"@ || s == "ltd"@ || s
        == "media"@ || s == "university"@
}

/// The words that end the name of a location.
pub open spec fn location_suffix(s: Seq<char>) -> bool {
    s == "city"@ || s == "country"@ || s == "county"@ || s == "island"@ || s == "lake"@ || s
        == "mount"@ || s == "province"@ || s == "river"@ || s == "state"@ || s == "valley"@
}

/// The words that end the name of an event.
pub open spec fn event_suffix(s: Seq<char>) -> bool {
    s == "agreement"@ || s == "conference"@ || s == "election"@ || s == "festival"@ || s
        == "games"@ || s == "olympics"@ || s == "summit"@ || s == "treaty"@ || s == "war"@
}

/// The words that a person's name follows.
pub open spec fn person_prefix(s: Seq<char>) -> bool {
    s == "dr"@ || s == "mr"@ || s == "mrs"@ || s == "ms"@ || s == "prof"@ || s == "president"@
}

/// The words that a location follows.
pub open spec fn location_cue(s: Seq<char>) -> bool {
    s == "at"@ || s == "from"@ || s == "in"@ || s == "near"@ || s == "outside"@
}

/// The words that the name of a concept follows.
pub open spec fn concept_cue(s: Seq<char>) -> bool {
    s == "algorithm"@ || s == "approach"@ || s == "concept"@ || s == "field"@ || s == "method"@ || s
        == "principle"@ || s == "theory"@
}

/// The words that the name of a product follows.
pub open spec fn product_cue(s: Seq<char>) -> bool {
    s == "app"@ || s == "application"@ || s == "browser"@ || s == "framework"@ || s == "library"@
        || s == "model"@ || s == "platform"@ || s == "product"@ || s == "software"@
}

/// The type that a word gives to the name that it ends.
pub open spec fn suffix_kind(s: Seq<char>) -> Option<EntityType> {
    if organization_suffix(s) {
        Some(EntityType::Organization)
    } else if location_suffix(s) {
        Some(EntityType::Location)
    } else if event_suffix(s) {
        Some(EntityType::Event)
    } else {
        None
    }
}

/// The type that a word gives to the name after it, and whether that name may begin in lowercase.
pub open spec fn cue_kind(s: Seq<char>) -> Option<(EntityType, bool)> {
    if person_prefix(s) {
        Some((EntityType::Person, false))
    } else if location_cue(s) {
        Some((EntityType::Location, false))
    } else if concept_cue(s) {
        Some((EntityType::Concept, false))
    } else if product_cue(s) {
        Some((EntityType::Product, true))
    } else {
        None
    }
}

fn kind_of_suffix(s: &str) -> (res: Option<EntityType>)
    ensures
        res == suffix_kind(s@),
{
    if same(s, "agency") || same(s, "bank") || same(s, "company") || same(s, "corp") || same(
        s,
        "corporation",
    ) || same(s, "foundation") || same(s, "inc") || same(s, "incorporated") || same(s, "institute")
        || same(s, "laboratory") || same(s, "labs") || same(s, "limited") || same(s, "llc") || same(
        s,
        "ltd",
    ) || same(s, "media") || same(s, "university") {
        Some(EntityType::Organization)
    } else if same(s, "city") || same(s, "country") || same(s, "county") || same(s, "island")
        || same(s, "lake") || same(s, "mount") || same(s, "province") || same(s, "river") || same(
        s,
        "state",
    ) || same(s, "valley") {
        Some(EntityType::Location)
    } else if same(s, "agreement") || same(s, "conference") || same(s, "election") || same(
        s,
        "festival",
    ) || same(s, "games") || same(s, "olympics") || same(s, "summit") || same(s, "treaty") || same(
        s,
        "war",
    ) {
        Some(EntityType::Event)
    } else {
        None
    }
}

fn kind_of_cue(s: &str) -> (res: Option<(EntityType, bool)>)
    ensures
        res == cue_kind(s@),
{
    if same(s, "dr") || same(s, "mr") || same(s, "mrs") || same(s, "ms") || same(s, "prof") || same(
        s,
        "president",
    ) {
        Some((EntityType::Person, false))
    } else if same(s, "at") || same(s, "from") || same(s, "in") || same(s, "near") || same(
        s,
        "outside",
    ) {
        Some((EntityType::Location, false))
    } else if same(s, "algorithm") || same(s, "approach") || same(s, "concept") || same(s, "field")
        || same(s, "method") || same(s, "principle") || same(s, "theory") {
        Some((EntityType::Concept, false))
    } else if same(s, "app") || same(s, "application") || same(s, "browser") || same(s, "framework")
        || same(s, "library") || same(s, "model") || same(s, "platform") || same(s, "product")
        || same(s, "software") {
        Some((EntityType::Product, true))
    } else {
        None
    }
}

/// The first token of the name that ends just before `end`, reached from `start` backwards.
pub open spec fn name_start(tokens: Seq<TokenView>, start: int, end: int) -> int
    decreases start,
{
    if start > 0 && tokens[start - 1].name_like && end - start < MAX_NAME_WORDS - 1 {
        name_start(tokens, start - 1, end)
    } else {
        start
    }
}

/// The end of the name that begins at `start`, reached from `end` forwards.
pub open spec fn name_end(tokens: Seq<TokenView>, start: int, end: int) -> int
    decreases tokens.len() - end,
{
    if end < tokens.len() && end - start < MAX_NAME_WORDS && !tokens[end - 1].boundary_after
        && tokens[end].name_like {
        name_end(tokens, start, end + 1)
    } else {
        end
    }
}

/// The words of tokens.
pub open spec fn token_values(tokens: Seq<TokenView>) -> Seq<Seq<char>> {
    tokens.map_values(|t: TokenView| t.value)
}

/// The mention that the token at `i` ends, where it is a typed suffix with a name before it.
pub open spec fn suffix_at(tokens: Seq<TokenView>, i: int) -> Option<MentionView> {
    let start = name_start(tokens, i, i);
    match suffix_kind(tokens[i].lowercase) {
        Some(kind) => if start == i {
            None
        } else {
            Some(
                MentionView {
                    kind,
                    surface: join(token_values(tokens).subrange(start, i + 1), " "@),
                    canonical: None,
                },
            )
        },
        None => None,
    }
}

/// The mention that follows the token at `i`, where it is a cue with a name after it.
pub open spec fn cue_at(tokens: Seq<TokenView>, i: int) -> Option<MentionView> {
    match cue_kind(tokens[i].lowercase) {
        Some((kind, accepts_lowercase)) => if i + 1 < tokens.len() && (tokens[i + 1].name_like
            || accepts_lowercase) {
            let end = name_end(tokens, i + 1, i + 2);
            Some(
                MentionView {
                    kind,
                    surface: join(token_values(tokens).subrange(i + 1, end), " "@),
                    canonical: None,
                },
            )
        } else {
            None
        },
        None => None,
    }
}

/// The mentions that the first `n` tokens end.
pub open spec fn suffixes_upto(tokens: Seq<TokenView>, n: int) -> Seq<MentionView>
    decreases n,
{
    if n <= 0 {
        seq![]
    } else {
        let before = suffixes_upto(tokens, n - 1);
        match suffix_at(tokens, n - 1) {
            Some(m) => before.push(m),
            None => before,
        }
    }
}

/// The mentions that follow the first `n` tokens.
pub open spec fn cues_upto(tokens: Seq<TokenView>, n: int) -> Seq<MentionView>
    decreases n,
{
    if n <= 0 {
        seq![]
    } else {
        let before = cues_upto(tokens, n - 1);
        match cue_at(tokens, n - 1) {
            Some(m) => before.push(m),
            None => before,
        }
    }
}

fn values_of(tokens: &Vec<Token>) -> (res: Vec<String>)
    ensures
        texts(res@) == token_values(token_views(tokens@)),
{
    let mut res: Vec<String> = Vec::new();
    let mut i: usize = 0;
    while i < tokens.len()
        invariant
            i <= tokens@.len(),
            texts(res@) == token_values(token_views(tokens@)).take(i as int),
        decreases tokens@.len() - i,
    {
        let ghost before = texts(res@);
        let value = tokens[i].value.clone();
        res.push(value);
        assert(texts(res@) =~= before.push(value@));
        assert(token_views(tokens@)[i as int] == tokens@[i as int]@);
        i = i + 1;
        assert(texts(res@) =~= token_values(token_views(tokens@)).take(i as int));
    }
    assert(token_values(token_views(tokens@)).take(i as int) =~= token_values(token_views(tokens@)));
    res
}

/// The start of the name that ends just before `end`.
pub fn preceding_name_start(tokens: &Vec<Token>, end: usize) -> (res: usize)
    requires
        end <= tokens@.len(),
    ensures
        res <= end,
        res == name_start(token_views(tokens@), end as int, end as int),
{
    let mut start: usize = end;
    while start > 0 && tokens[start - 1].name_like && end - start < MAX_NAME_WORDS - 1
        invariant
            start <= end <= tokens@.len(),
            name_start(token_views(tokens@), start as int, end as int) == name_start(
                token_views(tokens@),
                end as int,
                end as int,
            ),
        decreases start,
    {
        start = start - 1;
    }
    start
}

/// The end of the name that begins at `start`, where one does.
pub fn next_name_end(tokens: &Vec<Token>, start: usize, accepts_lowercase: bool) -> (res: Option<
    usize,
>)
    ensures
        match res {
            Some(end) => {
                &&& start < tokens@.len()
                &&& tokens@[start as int].name_like || accepts_lowercase
                &&& start < end <= tokens@.len()
                &&& end == name_end(token_views(tokens@), start as int, start + 1)
            },
            None => start >= tokens@.len() || (!tokens@[start as int].name_like
                && !accepts_lowercase),
        },
{
    if start >= tokens.len() {
        return None;
    }
    if !tokens[start].name_like && !accepts_lowercase {
        return None;
    }
    let mut end: usize = start + 1;
    while end < tokens.len() && end - start < MAX_NAME_WORDS && !tokens[end - 1].boundary_after
        && tokens[end].name_like
        invariant
            start < end <= tokens@.len(),
            name_end(token_views(tokens@), start as int, end as int) == name_end(
                token_views(tokens@),
                start as int,
                start + 1,
            ),
        decreases tokens@.len() - end,
    {
        end = end + 1;
    }
    Some(end)
}

/// The mentions of names that end in a typed suffix.
pub fn suffix_mentions(tokens: &Vec<Token>) -> (res: Vec<Mention>)
    ensures
        mention_views(res@) == suffixes_upto(token_views(tokens@), tokens@.len() as int),
{
    let values = values_of(tokens);
    let mut res: Vec<Mention> = Vec::new();
    let mut i: usize = 0;
    assert(mention_views(res@) =~= seq![]);
    while i < tokens.len()
        invariant
            i <= tokens@.len(),
            texts(values@) == token_values(token_views(tokens@)),
            mention_views(res@) == suffixes_upto(token_views(tokens@), i as int),
        decreases tokens@.len() - i,
    {
        let ghost before = mention_views(res@);
        assert(token_views(tokens@)[i as int] == tokens@[i as int]@);
        assert(values@.len() == texts(values@).len());
        if let Some(kind) = kind_of_suffix(tokens[i].lowercase.as_str()) {
            let start = preceding_name_start(tokens, i);
            if start != i {
                let surface = join_range(&values, start, i + 1, " ");
                let m = Mention { kind, surface, canonical: None };
                res.push(m);
                assert(mention_views(res@) =~= before.push(m@));
            }
        }
        i = i + 1;
    }
    res
}

/// The mentions of names that follow a cue.
pub fn cue_mentions(tokens: &Vec<Token>) -> (res: Vec<Mention>)
    ensures
        mention_views(res@) == cues_upto(token_views(tokens@), tokens@.len() as int),
{
    let values = values_of(tokens);
    let mut res: Vec<Mention> = Vec::new();
    let mut i: usize = 0;
    assert(mention_views(res@) =~= seq![]);
    while i < tokens.len()
        invariant
            i <= tokens@.len(),
            texts(values@) == token_values(token_views(tokens@)),
            mention_views(res@) == cues_upto(token_views(tokens@), i as int),
        decreases tokens@.len() - i,
    {
        let ghost before = mention_views(res@);
        assert(token_views(tokens@)[i as int] == tokens@[i as int]@);
        assert(values@.len() == texts(values@).len());
        if let Some((kind, accepts_lowercase)) = kind_of_cue(tokens[i].lowercase.as_str()) {
            if let Some(end) = next_name_end(tokens, i + 1, accepts_lowercase) {
                let surface = join_range(&values, i + 1, end, " ");
                let m = Mention { kind, surface, canonical: None };
                res.push(m);
                assert(mention_views(res@) =~= before.push(m@));
            }
        }
        i = i + 1;
    }
    res
}


// ---------------------------------------------------------------------------------------------
// Explicit fields.
// ---------------------------------------------------------------------------------------------
/// A name and the alias that a field gives beside it.
pub open spec fn alias_after(value: Seq<char>, marker: Seq<char>, at: int) -> (Seq<char>, Option<Seq<char>>) {
    (
        trim_by(value.take(at), name_edges()),
        Some(trim_by(value.skip(at + marker.len()), name_edges())),
    )
}

/// The alias written within parentheses, without a leading marker.
pub open spec fn alias_inside(inside: Seq<char>) -> Seq<char> {
    let lower = lower_ascii(inside);
    if has_prefix(lower, "also known as "@) {
        trim_by(inside.skip("also known as "@.len() as int), name_edges())
    } else if has_prefix(lower, "aka "@) {
        trim_by(inside.skip("aka "@.len() as int), name_edges())
    } else {
        inside
    }
}

/// The name and the alias of the value of a field: `A also known as B`, `A aka B`, `A (aka B)` or
/// `A (B)`.
pub open spec fn name_and_alias(value: Seq<char>) -> (Seq<char>, Option<Seq<char>>) {
    let lower = lower_ascii(value);
    let open = crate::text::find(value, '(');
    let rest = value.skip(open + 1);
    let close = crate::text::find(rest, ')');
    let inside = trim_by(rest.take(close), name_edges());
    match find_text(lower, "also known as "@, 0) {
        Some(at) => alias_after(value, "also known as "@, at),
        None => match find_text(lower, "aka "@, 0) {
            Some(at) => alias_after(value, "aka "@, at),
            None => if open < value.len() && close < rest.len() && alias_inside(inside).len() > 0 {
                (trim_by(value.take(open), name_edges()), Some(alias_inside(inside)))
            } else {
                (value, None)
            },
        },
    }
}

fn split_at_marker(v: &Vec<char>, lower: &Vec<char>, marker: &str) -> (res: Option<(String, String)>)
    requires
        lower@ == lower_ascii(v@),
    ensures
        match res {
            Some((name, alias)) => {
                &&& find_text(lower_ascii(v@), marker@, 0) is Some
                &&& (name@, Some(alias@)) == alias_after(
                    v@,
                    marker@,
                    find_text(lower_ascii(v@), marker@, 0)->0,
                )
            },
            None => find_text(lower_ascii(v@), marker@, 0) is None,
        },
{
    let m = chars_of(marker);
    match find_str(lower, &m, 0) {
        Some(at) => {
            let n: usize = v.len();
            assert(lower@.len() == n);
            let (a, b) = trim_name_bounds(v, 0, at);
            let (c, d) = trim_name_bounds(v, at + m.len(), n);
            assert(v@.subrange(0, at as int) =~= v@.take(at as int));
            assert(v@.subrange(at + m@.len(), v@.len() as int) =~= v@.skip(at + m@.len()));
            Some((string_of(v, a, b), string_of(v, c, d)))
        },
        None => None,
    }
}

fn strip_marker(inside: &Vec<char>, lower: &Vec<char>, marker: &str) -> (res: Option<String>)
    requires
        lower@ == lower_ascii(inside@),
    ensures
        match res {
            Some(alias) => has_prefix(lower_ascii(inside@), marker@) && alias@ == trim_by(
                inside@.skip(marker@.len() as int),
                name_edges(),
            ),
            None => !has_prefix(lower_ascii(inside@), marker@),
        },
{
    let m = chars_of(marker);
    assert(lower@.len() == inside@.len());
    if crate::text::matches_at(lower, 0, &m) {
        let (a, b) = trim_name_bounds(inside, m.len(), inside.len());
        assert(lower@.take(m@.len() as int) =~= lower@.subrange(0, m@.len() as int));
        assert(inside@.subrange(m@.len() as int, inside@.len() as int) =~= inside@.skip(
            m@.len() as int,
        ));
        Some(string_of(inside, a, b))
    } else {
        proof {
            if m@.len() <= lower@.len() {
                assert(lower@.take(m@.len() as int) =~= lower@.subrange(0, m@.len() as int));
            }
        }
        None
    }
}

/// Splits the value of a field into a name and its alias.
pub fn split_aliases(value: &str) -> (res: (String, Option<String>))
    ensures
        (res.0@, opt_text(res.1)) == name_and_alias(value@),
{
    let v = chars_of(value);
    let lower_string = lowercase_ascii(value);
    let lower = chars_of(lower_string.as_str());
    if let Some((name, alias)) = split_at_marker(&v, &lower, "also known as ") {
        return (name, Some(alias));
    }
    if let Some((name, alias)) = split_at_marker(&v, &lower, "aka ") {
        return (name, Some(alias));
    }
    let n: usize = v.len();
    let open = find_char(&v, 0, n, '(');
    assert(v@.subrange(0, n as int) =~= v@);
    if open < n {
        let close = find_char(&v, open + 1, n, ')');
        assert(v@.subrange(open + 1, n as int) =~= v@.skip(open + 1));
        if close < n {
            let (a, b) = trim_name_bounds(&v, open + 1, close);
            assert(v@.subrange(open + 1, close as int) =~= v@.skip(open + 1).take(
                close - (open + 1),
            ));
            let inside_string = string_of(&v, a, b);
            let inside = chars_of(inside_string.as_str());
            let inside_lower_string = lowercase_ascii(inside_string.as_str());
            let inside_lower = chars_of(inside_lower_string.as_str());
            let alias = match strip_marker(&inside, &inside_lower, "also known as ") {
                Some(alias) => alias,
                None => match strip_marker(&inside, &inside_lower, "aka ") {
                    Some(alias) => alias,
                    None => inside_string,
                },
            };
            if !alias.as_str().is_empty() {
                let (c, d) = trim_name_bounds(&v, 0, open);
                assert(v@.subrange(0, open as int) =~= v@.take(open as int));
                return (string_of(&v, c, d), Some(alias));
            }
        }
    }
    (value.to_owned(), None)
}

/// The mentions that the value of a typed field gives: its name, and its alias where it has one.
pub open spec fn value_mentions(kind: EntityType, value: Seq<char>) -> Seq<MentionView> {
    let (name, alias) = name_and_alias(value);
    if value.len() == 0 {
        seq![]
    } else {
        match cleaned_name(name) {
            None => seq![],
            Some(canonical) => {
                let first = MentionView { kind, surface: canonical, canonical: None };
                match alias {
                    None => seq![first],
                    Some(alias) => match cleaned_name(alias) {
                        None => seq![first],
                        Some(surface) => seq![
                            first,
                            MentionView { kind, surface, canonical: Some(canonical) },
                        ],
                    },
                }
            },
        }
    }
}

/// The predicate of characters between the label and the value of a field.
pub open spec fn field_delimiter() -> spec_fn(char) -> bool {
    |c: char| c == ':' || c == '='
}

/// The predicate of characters that end the value of a field.
pub open spec fn field_end() -> spec_fn(char) -> bool {
    |c: char| c == ';' || c == '|' || c == '\n' || c == '.'
}

/// Whether a label that begins at `start` does not continue a word.
pub open spec fn begins_word(text: Seq<char>, start: int) -> bool {
    start == 0 || (!unicode_alphanumeric(text[start - 1]) && text[start - 1] != '_')
}

/// The mentions in the fields labelled `label` that begin at or after `offset`. A field is the
/// label at the beginning of a word, optional white space, `:` or `=`, and a value up to `;`, `|`,
/// `.` or the end of the line.
pub open spec fn field_mentions(text: Seq<char>, label: Seq<char>, kind: EntityType, offset: int) -> Seq<
    MentionView,
>
    decreases text.len() - offset,
    when 0 <= offset <= text.len() && label.len() > 0
    via field_mentions_decreases
{
    match find_text(lower_ascii(text), label, offset) {
        None => seq![],
        Some(start) => {
            let end = start + label.len();
            let delimiter = end + find_by(text.skip(end), field_delimiter());
            let is_field = delimiter < text.len() && begins_word(text, start) && (forall|k: int|
                end <= k < delimiter ==> is_white(#[trigger] text[k]));
            let value_start = delimiter + 1;
            let value_end = value_start + find_by(text.skip(value_start), field_end());
            if is_field {
                value_mentions(kind, trimmed(text.subrange(value_start, value_end)))
                    + field_mentions(text, label, kind, value_end)
            } else {
                field_mentions(text, label, kind, end)
            }
        },
    }
}

#[via_fn]
proof fn field_mentions_decreases(
    text: Seq<char>,
    label: Seq<char>,
    kind: EntityType,
    offset: int,
) {
    lemma_find_text(lower_ascii(text), label, offset);
    match find_text(lower_ascii(text), label, offset) {
        None => {},
        Some(start) => {
            let end = start + label.len();
            lemma_find_by(text.skip(end), field_delimiter());
            let delimiter = end + find_by(text.skip(end), field_delimiter());
            if delimiter < text.len() {
                lemma_find_by(text.skip(delimiter + 1), field_end());
            }
        },
    }
}

/// The mentions in all typed fields of a text.
pub open spec fn fields(text: Seq<char>) -> Seq<MentionView> {
    field_mentions(text, "person"@, EntityType::Person, 0) + field_mentions(
        text,
        "organization"@,
        EntityType::Organization,
        0,
    ) + field_mentions(text, "organisation"@, EntityType::Organization, 0) + field_mentions(
        text,
        "place"@,
        EntityType::Location,
        0,
    ) + field_mentions(text, "location"@, EntityType::Location, 0) + field_mentions(
        text,
        "event"@,
        EntityType::Event,
        0,
    ) + field_mentions(text, "concept"@, EntityType::Concept, 0) + field_mentions(
        text,
        "product"@,
        EntityType::Product,
        0,
    )
}

fn push_value_mentions(mentions: &mut Vec<Mention>, kind: EntityType, value: &str)
    ensures
        mention_views(final(mentions)@) == mention_views(old(mentions)@) + value_mentions(
            kind,
            value@,
        ),
{
    let ghost before = mention_views(mentions@);
    if value.is_empty() {
        assert(before + seq![] =~= before);
        return ;
    }
    let (name, alias) = split_aliases(value);
    match clean_name(name.as_str()) {
        None => {
            assert(before + seq![] =~= before);
        },
        Some(canonical) => {
            let first = Mention { kind, surface: canonical.clone(), canonical: None };
            mentions.push(first);
            assert(mention_views(mentions@) =~= before + seq![first@]);
            if let Some(alias) = alias {
                if let Some(surface) = clean_name(alias.as_str()) {
                    let second = Mention { kind, surface, canonical: Some(canonical) };
                    mentions.push(second);
                    assert(mention_views(mentions@) =~= before + seq![first@, second@]);
                }
            }
        },
    }
}

fn push_field_mentions(
    mentions: &mut Vec<Mention>,
    text: &Vec<char>,
    lower: &Vec<char>,
    label: &str,
    kind: EntityType,
)
    requires
        lower@ == lower_ascii(text@),
        label@.len() > 0,
    ensures
        mention_views(final(mentions)@) == mention_views(old(mentions)@) + field_mentions(
            text@,
            label@,
            kind,
            0,
        ),
{
    let pat = chars_of(label);
    let n: usize = text.len();
    let mut offset: usize = 0;
    assert(lower@.len() == n);
    let ghost target = mention_views(mentions@) + field_mentions(text@, label@, kind, 0);
    loop
        invariant
            offset <= n == text@.len() == lower@.len(),
            lower@ == lower_ascii(text@),
            pat@ == label@,
            label@.len() > 0,
            mention_views(mentions@) + field_mentions(text@, label@, kind, offset as int) == target,
        ensures
            mention_views(mentions@) == target,
        decreases n - offset,
    {
        let start = match find_str(lower, &pat, offset) {
            Some(start) => start,
            None => {
                assert(mention_views(mentions@) + seq![] =~= mention_views(mentions@));
                break ;
            },
        };
        let end: usize = start + pat.len();
        let before_is_boundary = start == 0 || (!is_alphanumeric(text[start - 1]) && text[start - 1]
            != '_');
        let mut delimiter: usize = end;
        let mut after_is_boundary = true;
        while delimiter < n && text[delimiter] != ':' && text[delimiter] != '='
            invariant
                end <= delimiter <= n == text@.len(),
                forall|k: int| end <= k < delimiter ==> text@[k] != ':' && text@[k] != '=',
                after_is_boundary == (forall|k: int|
                    end <= k < delimiter ==> is_white(#[trigger] text@[k])),
            decreases n - delimiter,
        {
            if !is_whitespace(text[delimiter]) {
                after_is_boundary = false;
            }
            delimiter = delimiter + 1;
        }
        proof {
            let rest = text@.skip(end as int);
            assert forall|i: int| 0 <= i < delimiter - end implies !field_delimiter()(
                #[trigger] rest[i],
            ) by {
                assert(rest[i] == text@[end + i]);
            }
            lemma_find_by_unique(rest, field_delimiter(), delimiter - end);
        }
        if delimiter < n && before_is_boundary && after_is_boundary {
            let value_start: usize = delimiter + 1;
            let mut value_end: usize = value_start;
            while value_end < n && text[value_end] != ';' && text[value_end] != '|'
                && text[value_end] != '\n' && text[value_end] != '.'
                invariant
                    value_start <= value_end <= n == text@.len(),
                    forall|k: int| value_start <= k < value_end ==> !field_end()(#[trigger] text@[k]),
                decreases n - value_end,
            {
                value_end = value_end + 1;
            }
            proof {
                let rest = text@.skip(value_start as int);
                assert forall|i: int| 0 <= i < value_end - value_start implies !field_end()(
                    #[trigger] rest[i],
                ) by {
                    assert(rest[i] == text@[value_start + i]);
                }
                lemma_find_by_unique(rest, field_end(), value_end - value_start);
            }
            let (a, b) = trim_bounds(text, value_start, value_end);
            let value = string_of(text, a, b);
            let ghost before = mention_views(mentions@);
            push_value_mentions(mentions, kind, value.as_str());
            proof {
                let now = value_mentions(kind, value@);
                let later = field_mentions(text@, label@, kind, value_end as int);
                assert(before + (now + later) =~= (before + now) + later);
            }
            offset = value_end;
        } else {
            offset = end;
        }
    }
}

/// The mentions in the typed fields of a text.
pub fn explicit_mentions(text: &str) -> (res: Vec<Mention>)
    ensures
        mention_views(res@) == fields(text@),
{
    let v = chars_of(text);
    let lower_string = lowercase_ascii(text);
    let lower = chars_of(lower_string.as_str());
    let mut res: Vec<Mention> = Vec::new();
    proof {
        reveal_strlit("person");
        reveal_strlit("organization");
        reveal_strlit("organisation");
        reveal_strlit("place");
        reveal_strlit("location");
        reveal_strlit("event");
        reveal_strlit("concept");
        reveal_strlit("product");
        assert(mention_views(res@) + field_mentions(text@, "person"@, EntityType::Person, 0)
            =~= field_mentions(text@, "person"@, EntityType::Person, 0));
    }
    push_field_mentions(&mut res, &v, &lower, "person", EntityType::Person);
    push_field_mentions(&mut res, &v, &lower, "organization", EntityType::Organization);
    push_field_mentions(&mut res, &v, &lower, "organisation", EntityType::Organization);
    push_field_mentions(&mut res, &v, &lower, "place", EntityType::Location);
    push_field_mentions(&mut res, &v, &lower, "location", EntityType::Location);
    push_field_mentions(&mut res, &v, &lower, "event", EntityType::Event);
    push_field_mentions(&mut res, &v, &lower, "concept", EntityType::Concept);
    push_field_mentions(&mut res, &v, &lower, "product", EntityType::Product);
    res
}


// ---------------------------------------------------------------------------------------------
// Resolution.
// ---------------------------------------------------------------------------------------------
/// The position of a type in the order in which entities are listed.
pub open spec fn rank(kind: EntityType) -> int {
    match kind {
        EntityType::Concept => 0,
        EntityType::Event => 1,
        EntityType::Location => 2,
        EntityType::Organization => 3,
        EntityType::Person => 4,
        EntityType::Product => 5,
    }
}

fn rank_of(kind: EntityType) -> (res: u8)
    ensures
        res == rank(kind),
{
    match kind {
        EntityType::Concept => 0,
        EntityType::Event => 1,
        EntityType::Location => 2,
        EntityType::Organization => 3,
        EntityType::Person => 4,
        EntityType::Product => 5,
    }
}

/// The order of identities: by type, then by normalized name.
pub open spec fn key_less(a: (EntityType, Seq<char>), b: (EntityType, Seq<char>)) -> bool {
    rank(a.0) < rank(b.0) || (a.0 == b.0 && text_less(a.1, b.1))
}

proof fn lemma_key_less(
    a: (EntityType, Seq<char>),
    b: (EntityType, Seq<char>),
    c: (EntityType, Seq<char>),
)
    ensures
        key_less(a, b) || key_less(b, a) || a == b,
        !(key_less(a, b) && key_less(b, a)),
        !key_less(a, a),
        key_less(a, b) && key_less(b, c) ==> key_less(a, c),
{
    lemma_text_less_total(a.1, b.1);
    if text_less(a.1, b.1) && text_less(b.1, c.1) {
        lemma_text_less_trans(a.1, b.1, c.1);
    }
}

/// The normalized name of the entity that a mention belongs to, unless nothing of its name is left.
pub open spec fn mention_target(m: MentionView) -> Option<Seq<char>> {
    match cleaned_name(m.surface) {
        None => None,
        Some(surface) => match m.canonical {
            Some(canonical) => if normalized_name(canonical) is Some {
                normalized_name(canonical)
            } else {
                normalized_name(surface)
            },
            None => normalized_name(surface),
        },
    }
}

/// Whether a mention belongs to the entity of identity `k`.
pub open spec fn in_group(m: MentionView, k: (EntityType, Seq<char>)) -> bool {
    m.kind == k.0 && mention_target(m) == Some(k.1)
}

/// Whether some mention belongs to the entity of identity `k`.
pub open spec fn has_group(ms: Seq<MentionView>, k: (EntityType, Seq<char>)) -> bool {
    exists|i: int| 0 <= i < ms.len() && in_group(#[trigger] ms[i], k)
}

/// Whether a mention gives the entity of identity `k` the name `s`, as an alias or not.
pub open spec fn gives_name(
    m: MentionView,
    k: (EntityType, Seq<char>),
    s: Seq<char>,
    alias: bool,
) -> bool {
    in_group(m, k) && cleaned_name(m.surface) == Some(s) && (m.canonical is Some) == alias
}

/// Whether some mention gives the entity of identity `k` the name `s`, as an alias or not.
pub open spec fn has_name(
    ms: Seq<MentionView>,
    k: (EntityType, Seq<char>),
    s: Seq<char>,
    alias: bool,
) -> bool {
    exists|i: int| 0 <= i < ms.len() && gives_name(#[trigger] ms[i], k, s, alias)
}

/// The identity of an entity.
pub open spec fn entity_key(e: EntityView) -> (EntityType, Seq<char>) {
    (e.kind, e.normalized)
}

/// Whether `e` is the entity that the mentions of its identity make: it is named by the least name
/// that is no alias, or by its normalized name where all are aliases, and its aliases are the
/// others in ascending order.
pub open spec fn entity_from(ms: Seq<MentionView>, e: EntityView) -> bool {
    let k = entity_key(e);
    &&& has_group(ms, k)
    &&& if exists|s: Seq<char>| has_name(ms, k, s, false) {
        &&& has_name(ms, k, e.name, false)
        &&& forall|s: Seq<char>| #[trigger] has_name(ms, k, s, false) ==> !text_less(s, e.name)
    } else {
        e.name == e.normalized
    }
    &&& ascending(e.aliases)
    &&& forall|s: Seq<char>| #[trigger]
        e.aliases.contains(s) <==> has_name(ms, k, s, true) && s != e.name
}

/// Whether `es` lists the entities of the mentions `ms`: one for each identity, in the order of
/// identities, and no more than the first [`MAX_ENTITIES`].
pub open spec fn resolution(ms: Seq<MentionView>, es: Seq<EntityView>) -> bool {
    &&& es.len() <= MAX_ENTITIES
    &&& forall|i: int, j: int|
        0 <= i < j < es.len() ==> key_less(
            entity_key(#[trigger] es[i]),
            entity_key(#[trigger] es[j]),
        )
    &&& forall|i: int| 0 <= i < es.len() ==> entity_from(ms, #[trigger] es[i])
    &&& forall|k: (EntityType, Seq<char>)| #[trigger]
        has_group(ms, k) ==> {
            ||| exists|i: int| 0 <= i < es.len() && entity_key(#[trigger] es[i]) == k
            ||| es.len() == MAX_ENTITIES && forall|i: int|
                0 <= i < es.len() ==> key_less(entity_key(#[trigger] es[i]), k)
        }
}

struct Group {
    kind: EntityType,
    normalized: String,
    names: Vec<String>,
    aliases: Vec<String>,
}

spec fn group_key(g: Group) -> (EntityType, Seq<char>) {
    (g.kind, g.normalized@)
}

spec fn group_from(ms: Seq<MentionView>, g: Group) -> bool {
    let k = group_key(g);
    &&& ascending(texts(g.names@))
    &&& ascending(texts(g.aliases@))
    &&& forall|s: Seq<char>| #[trigger]
        texts(g.names@).contains(s) <==> has_name(ms, k, s, false)
    &&& forall|s: Seq<char>| #[trigger] texts(g.aliases@).contains(s) <==> has_name(ms, k, s, true)
}

spec fn grouped(ms: Seq<MentionView>, groups: Seq<Group>) -> bool {
    &&& forall|i: int, j: int|
        0 <= i < j < groups.len() ==> key_less(
            group_key(#[trigger] groups[i]),
            group_key(#[trigger] groups[j]),
        )
    &&& forall|i: int|
        0 <= i < groups.len() ==> has_group(ms, group_key(#[trigger] groups[i])) && group_from(
            ms,
            groups[i],
        )
    &&& forall|k: (EntityType, Seq<char>)| #[trigger]
        has_group(ms, k) ==> exists|i: int|
            0 <= i < groups.len() && group_key(#[trigger] groups[i]) == k
}

proof fn lemma_push_mention(ms: Seq<MentionView>, m: MentionView)
    ensures
        forall|k: (EntityType, Seq<char>)| #[trigger]
            has_group(ms.push(m), k) <==> has_group(ms, k) || in_group(m, k),
        forall|k: (EntityType, Seq<char>), s: Seq<char>, alias: bool| #[trigger]
            has_name(ms.push(m), k, s, alias) <==> has_name(ms, k, s, alias) || gives_name(
                m,
                k,
                s,
                alias,
            ),
{
    let after = ms.push(m);
    assert forall|k: (EntityType, Seq<char>)| #[trigger]
        has_group(after, k) <==> has_group(ms, k) || in_group(m, k) by {
        if has_group(ms, k) {
            let i = choose|i: int| 0 <= i < ms.len() && in_group(#[trigger] ms[i], k);
            assert(after[i] == ms[i]);
        }
        if in_group(m, k) {
            assert(after[ms.len() as int] == m);
        }
        if has_group(after, k) {
            let i = choose|i: int| 0 <= i < after.len() && in_group(#[trigger] after[i], k);
            if i < ms.len() {
                assert(ms[i] == after[i]);
            }
        }
    }
    assert forall|k: (EntityType, Seq<char>), s: Seq<char>, alias: bool| #[trigger]
        has_name(after, k, s, alias) <==> has_name(ms, k, s, alias) || gives_name(
            m,
            k,
            s,
            alias,
        ) by {
        if has_name(ms, k, s, alias) {
            let i = choose|i: int| 0 <= i < ms.len() && gives_name(#[trigger] ms[i], k, s, alias);
            assert(after[i] == ms[i]);
        }
        if gives_name(m, k, s, alias) {
            assert(after[ms.len() as int] == m);
        }
        if has_name(after, k, s, alias) {
            let i = choose|i: int|
                0 <= i < after.len() && gives_name(#[trigger] after[i], k, s, alias);
            if i < ms.len() {
                assert(ms[i] == after[i]);
            }
        }
    }
}

fn target_of(mention: &Mention, surface: &str) -> (res: Option<String>)
    requires
        cleaned_name(mention@.surface) == Some(surface@),
    ensures
        opt_text(res) == mention_target(mention@),
{
    if let Some(canonical) = &mention.canonical {
        let n = normalize_name(canonical.as_str());
        if n.is_some() {
            return n;
        }
    }
    normalize_name(surface)
}

fn add_name(group: Group, surface: String, alias: bool) -> (res: Group)
    requires
        ascending(texts(group.names@)),
        ascending(texts(group.aliases@)),
    ensures
        group_key(res) == group_key(group),
        ascending(texts(res.names@)),
        ascending(texts(res.aliases@)),
        forall|s: Seq<char>| #[trigger]
            texts(res.names@).contains(s) <==> texts(group.names@).contains(s) || (!alias && s
                == surface@),
        forall|s: Seq<char>| #[trigger]
            texts(res.aliases@).contains(s) <==> texts(group.aliases@).contains(s) || (alias && s
                == surface@),
{
    let mut names = group.names;
    let mut aliases = group.aliases;
    if alias {
        insert_ascending(&mut aliases, surface);
    } else {
        insert_ascending(&mut names, surface);
    }
    Group { kind: group.kind, normalized: group.normalized, names, aliases }
}

fn add_mention(groups: &mut Vec<Group>, mention: &Mention, ms: Ghost<Seq<MentionView>>)
    requires
        grouped(ms@, old(groups)@),
    ensures
        grouped(ms@.push(mention@), final(groups)@),
{
    let ghost m = mention@;
    let ghost after = ms@.push(m);
    let ghost before = groups@;
    proof {
        lemma_push_mention(ms@, m);
    }
    let surface = match clean_name(mention.surface.as_str()) {
        Some(surface) => surface,
        None => {
            assert(forall|k: (EntityType, Seq<char>)| !in_group(m, k));
            return ;
        },
    };
    let target = match target_of(mention, surface.as_str()) {
        Some(target) => target,
        None => {
            assert(forall|k: (EntityType, Seq<char>)| !in_group(m, k));
            return ;
        },
    };
    let kind = mention.kind;
    let alias = mention.canonical.is_some();
    let ghost key = (kind, target@);
    let ghost surf = surface@;
    assert(in_group(m, key));
    assert(gives_name(m, key, surf, alias));
    assert(forall|k: (EntityType, Seq<char>)| in_group(m, k) ==> k == key);
    let mut pos: usize = 0;
    while pos < groups.len() && (rank_of(groups[pos].kind) < rank_of(kind) || (groups[pos].kind
        == kind && less(groups[pos].normalized.as_str(), target.as_str())))
        invariant
            pos <= groups@.len(),
            groups@ == before,
            key == (kind, target@),
            forall|j: int| 0 <= j < pos ==> key_less(group_key(#[trigger] before[j]), key),
        ensures
            pos <= groups@.len(),
            groups@ == before,
            forall|j: int| 0 <= j < pos ==> key_less(group_key(#[trigger] before[j]), key),
            pos < groups@.len() ==> !key_less(group_key(before[pos as int]), key),
        decreases groups@.len() - pos,
    {
        pos = pos + 1;
    }
    if pos < groups.len() && groups[pos].kind == kind && same(
        groups[pos].normalized.as_str(),
        target.as_str(),
    ) {
        let old_group = groups.remove(pos);
        assert(old_group == before[pos as int]);
        assert(group_from(ms@, old_group));
        let new_group = add_name(old_group, surface, alias);
        groups.insert(pos, new_group);
        proof {
            assert(groups@ =~= before.update(pos as int, new_group));
            assert(group_key(new_group) == key);
            assert forall|i: int| 0 <= i < groups@.len() implies has_group(
                after,
                group_key(#[trigger] groups@[i]),
            ) && group_from(after, groups@[i]) by {
                if i != pos {
                    lemma_key_less(group_key(before[i]), key, key);
                    assert(group_key(before[i]) != key) by {
                        lemma_key_less(
                            group_key(before[i]),
                            group_key(before[pos as int]),
                            key,
                        );
                        if i < pos {
                            assert(key_less(group_key(before[i]), group_key(before[pos as int])));
                        } else {
                            assert(key_less(group_key(before[pos as int]), group_key(before[i])));
                        }
                    }
                    assert(group_from(ms@, before[i]));
                }
            }
            assert forall|k: (EntityType, Seq<char>)| #[trigger]
                has_group(after, k) implies exists|i: int|
                0 <= i < groups@.len() && group_key(#[trigger] groups@[i]) == k by {
                if in_group(m, k) {
                    assert(group_key(groups@[pos as int]) == k);
                } else {
                    let i = choose|i: int|
                        0 <= i < before.len() && group_key(#[trigger] before[i]) == k;
                    assert(group_key(groups@[i]) == k);
                }
            }
        }
    } else {
        proof {
            if pos < before.len() {
                lemma_key_less(group_key(before[pos as int]), key, key);
                assert(group_key(before[pos as int]) != key);
                assert(key_less(key, group_key(before[pos as int])));
            }
            assert forall|j: int| pos <= j < before.len() implies key_less(
                key,
                group_key(#[trigger] before[j]),
            ) by {
                if j > pos {
                    lemma_key_less(key, group_key(before[pos as int]), group_key(before[j]));
                }
            }
            assert forall|j: int| 0 <= j < before.len() implies group_key(#[trigger] before[j])
                != key by {
                lemma_key_less(key, group_key(before[j]), key);
            }
            if has_group(ms@, key) {
                let i = choose|i: int|
                    0 <= i < before.len() && group_key(#[trigger] before[i]) == key;
                assert(false);
            }
            assert forall|s: Seq<char>, a: bool| !has_name(ms@, key, s, a) by {
                if has_name(ms@, key, s, a) {
                    let i = choose|i: int|
                        0 <= i < ms@.len() && gives_name(#[trigger] ms@[i], key, s, a);
                    assert(in_group(ms@[i], key));
                }
            }
        }
        let empty = Group {
            kind,
            normalized: target,
            names: Vec::new(),
            aliases: Vec::new(),
        };
        let new_group = add_name(empty, surface, alias);
        groups.insert(pos, new_group);
        proof {
            assert(groups@ =~= before.insert(pos as int, new_group));
            assert(group_from(after, new_group)) by {
                assert(forall|s: Seq<char>| !texts(empty.names@).contains(s));
                assert(forall|s: Seq<char>| !texts(empty.aliases@).contains(s));
            }
            assert forall|i: int| 0 <= i < groups@.len() implies has_group(
                after,
                group_key(#[trigger] groups@[i]),
            ) && group_from(after, groups@[i]) by {
                if i < pos {
                    assert(groups@[i] == before[i]);
                    assert(group_from(ms@, before[i]));
                } else if i > pos {
                    assert(groups@[i] == before[i - 1]);
                    assert(group_from(ms@, before[i - 1]));
                }
            }
            assert forall|i: int, j: int| 0 <= i < j < groups@.len() implies key_less(
                group_key(#[trigger] groups@[i]),
                group_key(#[trigger] groups@[j]),
            ) by {
                let a = if i < pos { i } else { i - 1 };
                let b = if j < pos { j } else { j - 1 };
                if i != pos {
                    assert(groups@[i] == before[a]);
                }
                if j != pos {
                    assert(groups@[j] == before[b]);
                }
            }
            assert forall|k: (EntityType, Seq<char>)| #[trigger]
                has_group(after, k) implies exists|i: int|
                0 <= i < groups@.len() && group_key(#[trigger] groups@[i]) == k by {
                if in_group(m, k) {
                    assert(group_key(groups@[pos as int]) == k);
                } else {
                    let i = choose|i: int|
                        0 <= i < before.len() && group_key(#[trigger] before[i]) == k;
                    if i < pos {
                        assert(groups@[i] == before[i]);
                    } else {
                        assert(groups@[i + 1] == before[i]);
                    }
                }
            }
        }
    }
}


fn finish_group(group: &Group, ms: Ghost<Seq<MentionView>>) -> (res: Entity)
    requires
        has_group(ms@, group_key(*group)),
        group_from(ms@, *group),
    ensures
        entity_key(res@) == group_key(*group),
        entity_from(ms@, res@),
{
    let ghost k = group_key(*group);
    let name = if group.names.len() > 0 {
        group.names[0].clone()
    } else {
        group.normalized.clone()
    };
    let aliases = without(&group.aliases, name.as_str());
    let ghost all = texts(group.names@);
    proof {
        if all.len() > 0 {
            assert(all[0] == name@);
            assert(all.contains(name@));
            assert forall|s: Seq<char>| #[trigger] has_name(ms@, k, s, false) implies !text_less(
                s,
                name@,
            ) by {
                assert(all.contains(s));
                let i = choose|i: int| 0 <= i < all.len() && all[i] == s;
                lemma_text_less_total(s, name@);
                if i > 0 {
                    assert(text_less(all[0], all[i]));
                }
            }
        } else {
            assert forall|s: Seq<char>| !has_name(ms@, k, s, false) by {
                assert(!all.contains(s));
            }
        }
    }
    Entity { kind: group.kind, name, normalized: group.normalized.clone(), aliases }
}

/// The models of a list of entities.
pub open spec fn entity_views(v: Seq<Entity>) -> Seq<EntityView> {
    v.map_values(|e: Entity| e@)
}

/// Merges mentions into entities: those of one type whose names, or the names that they are aliases
/// of, normalize alike are one entity.
pub fn resolve(mentions: &Vec<Mention>) -> (res: Vec<Entity>)
    ensures
        resolution(mention_views(mentions@), entity_views(res@)),
{
    let ghost ms = mention_views(mentions@);
    let mut groups: Vec<Group> = Vec::new();
    let mut i: usize = 0;
    while i < mentions.len()
        invariant
            i <= mentions@.len(),
            ms == mention_views(mentions@),
            grouped(ms.take(i as int), groups@),
        decreases mentions@.len() - i,
    {
        add_mention(&mut groups, &mentions[i], Ghost(ms.take(i as int)));
        assert(ms.take(i + 1) =~= ms.take(i as int).push(mentions@[i as int]@));
        i = i + 1;
    }
    assert(ms.take(i as int) =~= ms);
    let mut res: Vec<Entity> = Vec::new();
    let mut n: usize = 0;
    while n < groups.len() && n < MAX_ENTITIES
        invariant
            n <= groups@.len(),
            n <= MAX_ENTITIES,
            grouped(ms, groups@),
            res@.len() == n,
            forall|j: int|
                0 <= j < n ==> entity_key((#[trigger] res@[j])@) == group_key(groups@[j])
                    && entity_from(ms, res@[j]@),
        decreases groups@.len() - n,
    {
        let entity = finish_group(&groups[n], Ghost(ms));
        res.push(entity);
        n = n + 1;
    }
    proof {
        let es = entity_views(res@);
        assert forall|i: int, j: int| 0 <= i < j < es.len() implies key_less(
            entity_key(#[trigger] es[i]),
            entity_key(#[trigger] es[j]),
        ) by {
            assert(es[i] == res@[i]@ && es[j] == res@[j]@);
            assert(key_less(group_key(groups@[i]), group_key(groups@[j])));
        }
        assert forall|i: int| 0 <= i < es.len() implies entity_from(ms, #[trigger] es[i]) by {
            assert(es[i] == res@[i]@);
        }
        assert forall|k: (EntityType, Seq<char>)| #[trigger] has_group(ms, k) implies {
            ||| exists|i: int| 0 <= i < es.len() && entity_key(#[trigger] es[i]) == k
            ||| es.len() == MAX_ENTITIES && forall|i: int|
                0 <= i < es.len() ==> key_less(entity_key(#[trigger] es[i]), k)
        } by {
            let g = choose|g: int| 0 <= g < groups@.len() && group_key(#[trigger] groups@[g]) == k;
            if g < n {
                assert(es[g] == res@[g]@);
                assert(entity_key(es[g]) == k);
            } else {
                assert forall|i: int| 0 <= i < es.len() implies key_less(
                    entity_key(#[trigger] es[i]),
                    k,
                ) by {
                    assert(es[i] == res@[i]@);
                    assert(key_less(group_key(groups@[i]), group_key(groups@[g])));
                }
            }
        }
    }
    res
}

/// The mentions of a text: those of its typed fields, then those by suffix, then those by cue.
pub open spec fn mentions_in(text: Seq<char>) -> Seq<MentionView> {
    let tokens = tokens_of(words(text));
    fields(text) + suffixes_upto(tokens, tokens.len() as int) + cues_upto(
        tokens,
        tokens.len() as int,
    )
}

/// The entities of a text: the one list that resolves its mentions.
pub open spec fn entities_in(text: Seq<char>) -> Seq<EntityView> {
    choose|es: Seq<EntityView>| resolution(mentions_in(text), es)
}

/// Extracts and resolves the typed entities of one text.
pub fn extract(text: &str) -> (res: Vec<Entity>)
    ensures
        resolution(mentions_in(text@), entity_views(res@)),
        entity_views(res@) == entities_in(text@),
{
    let tokens = tokenize(text);
    let mut mentions = explicit_mentions(text);
    let mut by_suffix = suffix_mentions(&tokens);
    let mut by_cue = cue_mentions(&tokens);
    let ghost a = mention_views(mentions@);
    let ghost b = mention_views(by_suffix@);
    let ghost c = mention_views(by_cue@);
    mentions.append(&mut by_suffix);
    mentions.append(&mut by_cue);
    assert(mention_views(mentions@) =~= a + b + c);
    assert(token_views(tokens@).len() == tokens@.len());
    let res = resolve(&mentions);
    proof {
        law_resolution_is_deterministic(
            mentions_in(text@),
            entity_views(res@),
            entities_in(text@),
        );
    }
    res
}

// ---------------------------------------------------------------------------------------------
// Laws.
// ---------------------------------------------------------------------------------------------
/// Resolution is deterministic: the mentions determine the entities, their order, names and
/// aliases.
pub proof fn law_resolution_is_deterministic(
    ms: Seq<MentionView>,
    a: Seq<EntityView>,
    b: Seq<EntityView>,
)
    requires
        resolution(ms, a),
        resolution(ms, b),
    ensures
        a == b,
{
    lemma_same_keys(ms, a, b, a.len() as int);
    lemma_same_keys(ms, b, a, b.len() as int);
    assert forall|i: int| 0 <= i < a.len() implies a[i] == b[i] by {
        assert(entity_key(a[i]) == entity_key(b[i]));
        let k = entity_key(a[i]);
        assert(entity_from(ms, a[i]) && entity_from(ms, b[i]));
        if exists|s: Seq<char>| has_name(ms, k, s, false) {
            lemma_text_less_total(a[i].name, b[i].name);
        }
        assert(a[i].name == b[i].name);
        assert forall|t: Seq<char>| #[trigger]
            a[i].aliases.contains(t) <==> b[i].aliases.contains(t) by {}
        crate::text::lemma_ascending_unique(a[i].aliases, b[i].aliases);
    }
    assert(a =~= b);
}

proof fn lemma_same_keys(ms: Seq<MentionView>, a: Seq<EntityView>, b: Seq<EntityView>, n: int)
    requires
        resolution(ms, a),
        resolution(ms, b),
        0 <= n <= a.len(),
    ensures
        n <= b.len(),
        forall|i: int| 0 <= i < n ==> entity_key(#[trigger] a[i]) == entity_key(b[i]),
    decreases n,
{
    if n > 0 {
        let i = n - 1;
        lemma_same_keys(ms, a, b, i);
        let k = entity_key(a[i]);
        assert(entity_from(ms, a[i]));
        assert(has_group(ms, k));
        lemma_key_less(k, k, k);
        if exists|j: int| 0 <= j < b.len() && entity_key(#[trigger] b[j]) == k {
            let j = choose|j: int| 0 <= j < b.len() && entity_key(#[trigger] b[j]) == k;
            if j < i {
                assert(entity_key(a[j]) == entity_key(b[j]));
                assert(key_less(entity_key(a[j]), entity_key(a[i])));
            } else if j > i {
                let l = entity_key(b[i]);
                assert(key_less(l, entity_key(b[j])));
                assert(entity_from(ms, b[i]));
                assert(has_group(ms, l));
                lemma_key_less(l, k, l);
                if exists|h: int| 0 <= h < a.len() && entity_key(#[trigger] a[h]) == l {
                    let h = choose|h: int| 0 <= h < a.len() && entity_key(#[trigger] a[h]) == l;
                    if h < i {
                        assert(entity_key(a[h]) == entity_key(b[h]));
                        assert(key_less(entity_key(b[h]), entity_key(b[i])));
                        lemma_key_less(l, l, l);
                    } else if h > i {
                        assert(key_less(entity_key(a[i]), entity_key(a[h])));
                    }
                } else {
                    assert(key_less(entity_key(a[i]), l));
                }
            }
        } else {
            assert(b.len() == MAX_ENTITIES);
            assert(key_less(entity_key(b[i]), k));
            let l = entity_key(b[i]);
            assert(entity_from(ms, b[i]));
            assert(has_group(ms, l));
            lemma_key_less(l, k, l);
            if exists|h: int| 0 <= h < a.len() && entity_key(#[trigger] a[h]) == l {
                let h = choose|h: int| 0 <= h < a.len() && entity_key(#[trigger] a[h]) == l;
                if h < i {
                    assert(entity_key(a[h]) == entity_key(b[h]));
                    assert(key_less(entity_key(b[h]), entity_key(b[i])));
                    lemma_key_less(l, l, l);
                } else if h > i {
                    assert(key_less(entity_key(a[i]), entity_key(a[h])));
                }
            } else {
                assert(key_less(entity_key(a[i]), l));
            }
        }
    }
}

/// Entities of one name and different types stay apart: no two listed entities share type and
/// normalized name.
pub proof fn law_identities_are_distinct(ms: Seq<MentionView>, es: Seq<EntityView>, i: int, j: int)
    requires
        resolution(ms, es),
        0 <= i < es.len(),
        0 <= j < es.len(),
        i != j,
    ensures
        entity_key(es[i]) != entity_key(es[j]),
{
    lemma_key_less(entity_key(es[i]), entity_key(es[j]), entity_key(es[i]));
    if i < j {
        assert(key_less(entity_key(es[i]), entity_key(es[j])));
    } else {
        assert(key_less(entity_key(es[j]), entity_key(es[i])));
    }
}

/// Untyped text yields nothing: without a typed field, a typed suffix and a cue there is no entity.
pub proof fn law_untyped_text_yields_nothing(text: Seq<char>, es: Seq<EntityView>)
    requires
        resolution(mentions_in(text), es),
        fields(text).len() == 0,
        forall|i: int|
            0 <= i < tokens_of(words(text)).len() ==> suffix_kind(
                (#[trigger] tokens_of(words(text))[i]).lowercase,
            ) is None && cue_kind(tokens_of(words(text))[i].lowercase) is None,
    ensures
        es.len() == 0,
{
    let tokens = tokens_of(words(text));
    lemma_no_suffixes(tokens, tokens.len() as int);
    assert(mentions_in(text).len() == 0);
    if es.len() > 0 {
        assert(entity_from(mentions_in(text), es[0]));
        assert(has_group(mentions_in(text), entity_key(es[0])));
    }
}

proof fn lemma_no_suffixes(tokens: Seq<TokenView>, n: int)
    requires
        0 <= n <= tokens.len(),
        forall|i: int|
            0 <= i < tokens.len() ==> suffix_kind((#[trigger] tokens[i]).lowercase) is None
                && cue_kind(tokens[i].lowercase) is None,
    ensures
        suffixes_upto(tokens, n).len() == 0,
        cues_upto(tokens, n).len() == 0,
    decreases n,
{
    if n > 0 {
        lemma_no_suffixes(tokens, n - 1);
        assert(suffix_kind(tokens[n - 1].lowercase) is None);
    }
}

proof fn lemma_join_begins(parts: Seq<Seq<char>>, sep: Seq<char>)
    requires
        parts.len() > 0,
        parts[0].len() > 0,
    ensures
        join(parts, sep).len() > 0,
    decreases parts.len(),
{
    if parts.len() > 1 {
        lemma_join_begins(parts.drop_last(), sep);
    }
}

proof fn lemma_cleaned_name(s: Seq<char>)
    requires
        forall|c: char| is_white(c) ==> !#[trigger] unicode_alphanumeric(c),
    ensures
        cleaned_name(s) matches Some(name) ==> name.len() > 0,
{
    let front = crate::text::trim_start_by(s, name_edges());
    let t = trim_by(s, name_edges());
    crate::text::lemma_trim_start_props(s, name_edges());
    crate::text::lemma_trim_end_props(front, name_edges());
    if t.len() > 0 {
        assert(t[0] == front[0]);
        assert(!name_edge(t[0]));
        assert(!is_white(t[0]));
        lemma_find_by(t, crate::text::white());
        assert(words(t)[0].len() > 0);
        lemma_join_begins(words(t), " "@);
    }
}

/// An entity has a name: where no white space is alphanumeric, neither the name of a listed entity nor
/// its normalized name nor one of its aliases is empty.
pub proof fn law_entities_are_named(ms: Seq<MentionView>, es: Seq<EntityView>, i: int)
    requires
        resolution(ms, es),
        0 <= i < es.len(),
        forall|c: char| is_white(c) ==> !#[trigger] unicode_alphanumeric(c),
    ensures
        es[i].name.len() > 0,
        es[i].normalized.len() > 0,
        forall|k: int| 0 <= k < es[i].aliases.len() ==> (#[trigger] es[i].aliases[k]).len() > 0,
{
    let e = es[i];
    let key = entity_key(e);
    assert(entity_from(ms, e));
    let g = choose|g: int| 0 <= g < ms.len() && in_group(#[trigger] ms[g], key);
    assert(in_group(ms[g], key));
    assert(e.normalized.len() > 0);
    if exists|s: Seq<char>| has_name(ms, key, s, false) {
        let n = choose|n: int| 0 <= n < ms.len() && gives_name(#[trigger] ms[n], key, e.name, false);
        lemma_cleaned_name(ms[n].surface);
    }
    assert forall|k: int| 0 <= k < e.aliases.len() implies (#[trigger] e.aliases[k]).len() > 0 by {
        let alias = e.aliases[k];
        assert(e.aliases.contains(alias));
        assert(has_name(ms, key, alias, true));
        let n = choose|n: int| 0 <= n < ms.len() && gives_name(#[trigger] ms[n], key, alias, true);
        lemma_cleaned_name(ms[n].surface);
    }
}

proof fn lemma_name_end(tokens: Seq<TokenView>, start: int, end: int)
    requires
        0 <= start < end <= tokens.len(),
        end - start <= MAX_NAME_WORDS,
    ensures
        end <= name_end(tokens, start, end) <= tokens.len(),
        name_end(tokens, start, end) - start <= MAX_NAME_WORDS,
        forall|k: int| end <= k < name_end(tokens, start, end) ==> (#[trigger] tokens[k]).name_like,
        forall|k: int|
            end - 1 <= k < name_end(tokens, start, end) - 1 ==> !(#[trigger] tokens[k]).boundary_after,
        ({
            let stop = name_end(tokens, start, end);
            ||| stop == tokens.len()
            ||| stop - start == MAX_NAME_WORDS
            ||| tokens[stop - 1].boundary_after
            ||| !tokens[stop].name_like
        }),
    decreases tokens.len() - end,
{
    if end < tokens.len() && end - start < MAX_NAME_WORDS && !tokens[end - 1].boundary_after
        && tokens[end].name_like {
        lemma_name_end(tokens, start, end + 1);
    }
}

proof fn lemma_cues_upto(tokens: Seq<TokenView>, n: int)
    requires
        0 <= n <= tokens.len(),
    ensures
        forall|i: int|
            0 <= i < n && (#[trigger] cue_at(tokens, i)) is Some ==> cues_upto(tokens, n).contains(
                cue_at(tokens, i)->0,
            ),
        forall|m: MentionView| #[trigger]
            cues_upto(tokens, n).contains(m) ==> exists|i: int|
                0 <= i < n && #[trigger] cue_at(tokens, i) == Some(m),
    decreases n,
{
    if n > 0 {
        lemma_cues_upto(tokens, n - 1);
        if let Some(m) = cue_at(tokens, n - 1) {
            crate::text::lemma_push_contains(cues_upto(tokens, n - 1), m);
        }
        assert forall|m: MentionView| #[trigger] cues_upto(tokens, n).contains(m) implies exists|i: int|
            0 <= i < n && #[trigger] cue_at(tokens, i) == Some(m) by {
            if cues_upto(tokens, n - 1).contains(m) {
                let i = choose|i: int| 0 <= i < n - 1 && #[trigger] cue_at(tokens, i) == Some(m);
                assert(0 <= i < n);
            } else {
                assert(cue_at(tokens, n - 1) == Some(m));
            }
        }
    }
}

proof fn lemma_suffixes_upto(tokens: Seq<TokenView>, n: int)
    requires
        0 <= n <= tokens.len(),
    ensures
        forall|i: int|
            0 <= i < n && (#[trigger] suffix_at(tokens, i)) is Some ==> suffixes_upto(
                tokens,
                n,
            ).contains(suffix_at(tokens, i)->0),
        forall|m: MentionView| #[trigger]
            suffixes_upto(tokens, n).contains(m) ==> exists|i: int|
                0 <= i < n && #[trigger] suffix_at(tokens, i) == Some(m),
    decreases n,
{
    if n > 0 {
        lemma_suffixes_upto(tokens, n - 1);
        if let Some(m) = suffix_at(tokens, n - 1) {
            crate::text::lemma_push_contains(suffixes_upto(tokens, n - 1), m);
        }
        assert forall|m: MentionView| #[trigger] suffixes_upto(tokens, n).contains(m) implies exists|i: int|
            0 <= i < n && #[trigger] suffix_at(tokens, i) == Some(m) by {
            if suffixes_upto(tokens, n - 1).contains(m) {
                let i = choose|i: int| 0 <= i < n - 1 && #[trigger] suffix_at(tokens, i) == Some(m);
                assert(0 <= i < n);
            } else {
                assert(suffix_at(tokens, n - 1) == Some(m));
            }
        }
    }
}

proof fn lemma_parts_contain<A>(a: Seq<A>, b: Seq<A>, x: A)
    ensures
        (a + b).contains(x) <==> a.contains(x) || b.contains(x),
{
    let all = a + b;
    if all.contains(x) {
        let k = choose|k: int| 0 <= k < all.len() && all[k] == x;
        if k < a.len() {
            assert(a[k] == x);
        } else {
            assert(b[k - a.len()] == x);
        }
    }
    if a.contains(x) {
        let k = choose|k: int| 0 <= k < a.len() && a[k] == x;
        assert(all[k] == x);
    }
    if b.contains(x) {
        let k = choose|k: int| 0 <= k < b.len() && b[k] == x;
        assert(all[a.len() + k] == x);
    }
}

proof fn lemma_mentions_in(text: Seq<char>, m: MentionView)
    ensures
        ({
            let tokens = tokens_of(words(text));
            mentions_in(text).contains(m) <==> {
                ||| fields(text).contains(m)
                ||| suffixes_upto(tokens, tokens.len() as int).contains(m)
                ||| cues_upto(tokens, tokens.len() as int).contains(m)
            }
        }),
{
    let tokens = tokens_of(words(text));
    let (f, s, c) = (
        fields(text),
        suffixes_upto(tokens, tokens.len() as int),
        cues_upto(tokens, tokens.len() as int),
    );
    lemma_parts_contain(f, s, m);
    lemma_parts_contain(f + s, c, m);
}

/// A mention whose name normalizes to something becomes an entity: one of its type and that normalized
/// name is listed, unless the list is full.
pub proof fn law_mentions_become_entities(ms: Seq<MentionView>, es: Seq<EntityView>, m: MentionView)
    requires
        resolution(ms, es),
        ms.contains(m),
        m.canonical is None,
    ensures
        cleaned_name(m.surface) matches Some(name) ==> normalized_name(name) matches Some(normalized)
            ==> es.len() == MAX_ENTITIES || exists|e: int|
            {
                &&& 0 <= e < es.len()
                &&& (#[trigger] es[e]).kind == m.kind
                &&& es[e].normalized == normalized
            },
{
    if let Some(name) = cleaned_name(m.surface) {
        if let Some(normalized) = normalized_name(name) {
            let k = (m.kind, normalized);
            let i = choose|i: int| 0 <= i < ms.len() && ms[i] == m;
            assert(in_group(ms[i], k));
            assert(has_group(ms, k));
            if es.len() != MAX_ENTITIES {
                let e = choose|e: int| 0 <= e < es.len() && entity_key(#[trigger] es[e]) == k;
                assert(es[e].kind == m.kind);
            }
        }
    }
}

/// A cue types the name that follows it: after `at`, `from`, `in`, `near` or `outside` stands a location,
/// after a title such as `dr` or `president` a person, after a word such as `theory` or `method` a
/// concept, after a word such as `framework` or `browser` a product. The name is the capitalized words
/// up to the end of the phrase, five at most, and the entity of that type and name is listed unless the
/// list is full.
pub proof fn law_cues_type_the_next_name(
    text: Seq<char>,
    es: Seq<EntityView>,
    i: int,
    kind: EntityType,
) -> (end: int)
    requires
        resolution(mentions_in(text), es),
        0 <= i < tokens_of(words(text)).len() - 1,
        ({
            let w = tokens_of(words(text))[i].lowercase;
            let next = tokens_of(words(text))[i + 1];
            ||| kind == EntityType::Location && next.name_like && (w == "at"@ || w == "from"@ || w
                == "in"@ || w == "near"@ || w == "outside"@)
            ||| kind == EntityType::Person && next.name_like && (w == "dr"@ || w == "mr"@ || w
                == "mrs"@ || w == "ms"@ || w == "prof"@ || w == "president"@)
            ||| kind == EntityType::Concept && next.name_like && (w == "algorithm"@ || w
                == "approach"@ || w == "concept"@ || w == "field"@ || w == "method"@ || w
                == "principle"@ || w == "theory"@)
            ||| kind == EntityType::Product && (w == "app"@ || w == "application"@ || w
                == "browser"@ || w == "framework"@ || w == "library"@ || w == "model"@ || w
                == "platform"@ || w == "product"@ || w == "software"@)
        }),
    ensures
        ({
            let tokens = tokens_of(words(text));
            let surface = join(token_values(tokens).subrange(i + 1, end), " "@);
            &&& i + 2 <= end <= tokens.len()
            &&& end - (i + 1) <= 5
            &&& forall|k: int| i + 2 <= k < end ==> (#[trigger] tokens[k]).name_like
            &&& forall|k: int| i + 1 <= k < end - 1 ==> !(#[trigger] tokens[k]).boundary_after
            &&& end == tokens.len() || end - (i + 1) == 5 || tokens[end - 1].boundary_after
                || !tokens[end].name_like
            &&& cleaned_name(surface) matches Some(name) ==> normalized_name(name) matches Some(
                normalized,
            ) ==> es.len() == 32 || exists|e: int|
                {
                    &&& 0 <= e < es.len()
                    &&& (#[trigger] es[e]).kind == kind
                    &&& es[e].normalized == normalized
                }
        }),
{
    let tokens = tokens_of(words(text));
    let w = tokens[i].lowercase;
    lemma_cue_words(w);
    let end = name_end(tokens, i + 1, i + 2);
    lemma_name_end(tokens, i + 1, i + 2);
    let m = MentionView {
        kind,
        surface: join(token_values(tokens).subrange(i + 1, end), " "@),
        canonical: None,
    };
    assert(cue_at(tokens, i) == Some(m));
    lemma_cues_upto(tokens, tokens.len() as int);
    lemma_mentions_in(text, m);
    law_mentions_become_entities(mentions_in(text), es, m);
    end
}

proof fn lemma_cue_words(w: Seq<char>)
    ensures
        w == "at"@ || w == "from"@ || w == "in"@ || w == "near"@ || w == "outside"@
            ==> !person_prefix(w),
        w == "algorithm"@ || w == "approach"@ || w == "concept"@ || w == "field"@ || w == "method"@
            || w == "principle"@ || w == "theory"@ ==> !person_prefix(w) && !location_cue(w),
        w == "app"@ || w == "application"@ || w == "browser"@ || w == "framework"@ || w
            == "library"@ || w == "model"@ || w == "platform"@ || w == "product"@ || w
            == "software"@ ==> !person_prefix(w) && !location_cue(w) && !concept_cue(w),
{
    reveal_strlit("dr");
    reveal_strlit("mr");
    reveal_strlit("mrs");
    reveal_strlit("ms");
    reveal_strlit("prof");
    reveal_strlit("president");
    reveal_strlit("at");
    reveal_strlit("from");
    reveal_strlit("in");
    reveal_strlit("near");
    reveal_strlit("outside");
    reveal_strlit("algorithm");
    reveal_strlit("approach");
    reveal_strlit("concept");
    reveal_strlit("field");
    reveal_strlit("method");
    reveal_strlit("principle");
    reveal_strlit("theory");
    reveal_strlit("app");
    reveal_strlit("application");
    reveal_strlit("browser");
    reveal_strlit("framework");
    reveal_strlit("library");
    reveal_strlit("model");
    reveal_strlit("platform");
    reveal_strlit("product");
    reveal_strlit("software");
    if w.len() > 0 {
        let c = w[0];
        assert(w == "dr"@ ==> c == 'd');
        assert(w == "mr"@ || w == "mrs"@ || w == "ms"@ ==> c == 'm' && w.len() <= 3);
        assert(w == "prof"@ ==> c == 'p' && w.len() == 4);
        assert(w == "president"@ ==> c == 'p' && w.len() == 9 && w[2] == 'e');
        assert(w == "at"@ ==> c == 'a' && w.len() == 2);
        assert(w == "from"@ ==> c == 'f' && w.len() == 4);
        assert(w == "in"@ ==> c == 'i');
        assert(w == "near"@ ==> c == 'n');
        assert(w == "outside"@ ==> c == 'o');
        assert(w == "algorithm"@ ==> c == 'a' && w.len() == 9);
        assert(w == "approach"@ ==> c == 'a' && w.len() == 8);
        assert(w == "concept"@ ==> c == 'c');
        assert(w == "field"@ ==> c == 'f' && w.len() == 5);
        assert(w == "method"@ ==> c == 'm' && w.len() == 6);
        assert(w == "principle"@ ==> c == 'p' && w.len() == 9 && w[2] == 'i');
        assert(w == "theory"@ ==> c == 't');
        assert(w == "app"@ ==> c == 'a' && w.len() == 3);
        assert(w == "application"@ ==> c == 'a' && w.len() == 11);
        assert(w == "browser"@ ==> c == 'b');
        assert(w == "framework"@ ==> c == 'f' && w.len() == 9);
        assert(w == "library"@ ==> c == 'l');
        assert(w == "model"@ ==> c == 'm' && w.len() == 5);
        assert(w == "platform"@ ==> c == 'p' && w.len() == 8);
        assert(w == "product"@ ==> c == 'p' && w.len() == 7);
        assert(w == "software"@ ==> c == 's');
    }
}

/// A cue gives no other type than its own, and gives one to capitalized names alone, but for the words
/// before a product: what a cue adds to the mentions of a text is typed as the cue is.
pub proof fn law_cues_give_their_own_type(tokens: Seq<TokenView>, i: int, m: MentionView)
    requires
        0 <= i < tokens.len(),
        cue_at(tokens, i) == Some(m),
    ensures
        i + 1 < tokens.len(),
        m.canonical is None,
        m.kind != EntityType::Product ==> tokens[i + 1].name_like,
        ({
            let w = tokens[i].lowercase;
            &&& m.kind == EntityType::Location <==> (w == "at"@ || w == "from"@ || w == "in"@ || w
                == "near"@ || w == "outside"@)
            &&& m.kind == EntityType::Person <==> (w == "dr"@ || w == "mr"@ || w == "mrs"@ || w
                == "ms"@ || w == "prof"@ || w == "president"@)
            &&& m.kind == EntityType::Concept <==> (w == "algorithm"@ || w == "approach"@ || w
                == "concept"@ || w == "field"@ || w == "method"@ || w == "principle"@ || w
                == "theory"@)
            &&& m.kind == EntityType::Product <==> (w == "app"@ || w == "application"@ || w
                == "browser"@ || w == "framework"@ || w == "library"@ || w == "model"@ || w
                == "platform"@ || w == "product"@ || w == "software"@)
        }),
{
    lemma_cue_words(tokens[i].lowercase);
}

proof fn lemma_name_start(tokens: Seq<TokenView>, start: int, end: int)
    requires
        0 <= start <= end <= tokens.len(),
        end - start <= MAX_NAME_WORDS - 1,
    ensures
        0 <= name_start(tokens, start, end) <= start,
        end - name_start(tokens, start, end) <= MAX_NAME_WORDS - 1,
        forall|k: int| name_start(tokens, start, end) <= k < start ==> (#[trigger] tokens[k]).name_like,
        ({
            let first = name_start(tokens, start, end);
            first == 0 || end - first == MAX_NAME_WORDS - 1 || !tokens[first - 1].name_like
        }),
    decreases start,
{
    if start > 0 && tokens[start - 1].name_like && end - start < MAX_NAME_WORDS - 1 {
        lemma_name_start(tokens, start - 1, end);
    }
}

proof fn lemma_suffix_words(w: Seq<char>)
    ensures
        location_suffix(w) ==> !organization_suffix(w),
        event_suffix(w) ==> !organization_suffix(w) && !location_suffix(w),
{
    reveal_strlit("agency");
    reveal_strlit("bank");
    reveal_strlit("company");
    reveal_strlit("corp");
    reveal_strlit("corporation");
    reveal_strlit("foundation");
    reveal_strlit("inc");
    reveal_strlit("incorporated");
    reveal_strlit("institute");
    reveal_strlit("laboratory");
    reveal_strlit("labs");
    reveal_strlit("limited");
    reveal_strlit("llc");
    reveal_strlit("ltd");
    reveal_strlit("media");
    reveal_strlit("university");
    reveal_strlit("city");
    reveal_strlit("country");
    reveal_strlit("county");
    reveal_strlit("island");
    reveal_strlit("lake");
    reveal_strlit("mount");
    reveal_strlit("province");
    reveal_strlit("river");
    reveal_strlit("state");
    reveal_strlit("valley");
    reveal_strlit("agreement");
    reveal_strlit("conference");
    reveal_strlit("election");
    reveal_strlit("festival");
    reveal_strlit("games");
    reveal_strlit("olympics");
    reveal_strlit("summit");
    reveal_strlit("treaty");
    reveal_strlit("war");
    if w.len() > 1 {
        let (c, d, n) = (w[0], w[1], w.len());
        if organization_suffix(w) {
            assert(w == "agency"@ ==> c == 'a' && n == 6);
            assert(w == "bank"@ ==> c == 'b');
            assert(w == "company"@ ==> c == 'c' && d == 'o' && n == 7 && w[2] == 'm');
            assert(w == "corp"@ ==> c == 'c' && n == 4 && d == 'o');
            assert(w == "corporation"@ ==> c == 'c' && n == 11);
            assert(w == "foundation"@ ==> c == 'f' && n == 10);
            assert(w == "inc"@ ==> c == 'i' && n == 3);
            assert(w == "incorporated"@ ==> c == 'i' && n == 12);
            assert(w == "institute"@ ==> c == 'i' && n == 9);
            assert(w == "laboratory"@ ==> c == 'l' && n == 10);
            assert(w == "labs"@ ==> c == 'l' && n == 4 && w[2] == 'b');
            assert(w == "limited"@ ==> c == 'l' && n == 7);
            assert(w == "llc"@ ==> c == 'l' && n == 3);
            assert(w == "ltd"@ ==> c == 'l' && n == 3);
            assert(w == "media"@ ==> c == 'm' && n == 5 && d == 'e');
            assert(w == "university"@ ==> c == 'u');
        }
        if location_suffix(w) {
            assert(w == "city"@ ==> c == 'c' && n == 4 && d == 'i');
            assert(w == "country"@ ==> c == 'c' && n == 7 && w[2] == 'u');
            assert(w == "county"@ ==> c == 'c' && n == 6);
            assert(w == "island"@ ==> c == 'i' && n == 6);
            assert(w == "lake"@ ==> c == 'l' && n == 4 && w[2] == 'k');
            assert(w == "mount"@ ==> c == 'm' && n == 5 && d == 'o');
            assert(w == "province"@ ==> c == 'p');
            assert(w == "river"@ ==> c == 'r');
            assert(w == "state"@ ==> c == 's' && d == 't');
            assert(w == "valley"@ ==> c == 'v');
        }
        if event_suffix(w) {
            assert(w == "agreement"@ ==> c == 'a' && n == 9);
            assert(w == "conference"@ ==> c == 'c' && n == 10);
            assert(w == "election"@ ==> c == 'e');
            assert(w == "festival"@ ==> c == 'f' && n == 8);
            assert(w == "games"@ ==> c == 'g');
            assert(w == "olympics"@ ==> c == 'o');
            assert(w == "summit"@ ==> c == 's' && d == 'u');
            assert(w == "treaty"@ ==> c == 't');
            assert(w == "war"@ ==> c == 'w');
        }
    }
}

/// A typed suffix types the name that it ends: a name before `agency`, `inc`, `university` and the like is
/// an organization, one before `city`, `river` and the like a location, one before `conference`, `war`
/// and the like an event. The name is the capitalized words before the suffix, four at most, with the
/// suffix; the entity of that type and name is listed unless the list is full.
pub proof fn law_suffixes_type_the_name_before(
    text: Seq<char>,
    es: Seq<EntityView>,
    i: int,
    kind: EntityType,
) -> (start: int)
    requires
        resolution(mentions_in(text), es),
        0 < i < tokens_of(words(text)).len(),
        tokens_of(words(text))[i - 1].name_like,
        ({
            let w = tokens_of(words(text))[i].lowercase;
            ||| kind == EntityType::Organization && (w == "agency"@ || w == "bank"@ || w
                == "company"@ || w == "corp"@ || w == "corporation"@ || w == "foundation"@ || w
                == "inc"@ || w == "incorporated"@ || w == "institute"@ || w == "laboratory"@ || w
                == "labs"@ || w == "limited"@ || w == "llc"@ || w == "ltd"@ || w == "media"@ || w
                == "university"@)
            ||| kind == EntityType::Location && (w == "city"@ || w == "country"@ || w == "county"@
                || w == "island"@ || w == "lake"@ || w == "mount"@ || w == "province"@ || w
                == "river"@ || w == "state"@ || w == "valley"@)
            ||| kind == EntityType::Event && (w == "agreement"@ || w == "conference"@ || w
                == "election"@ || w == "festival"@ || w == "games"@ || w == "olympics"@ || w
                == "summit"@ || w == "treaty"@ || w == "war"@)
        }),
    ensures
        ({
            let tokens = tokens_of(words(text));
            let surface = join(token_values(tokens).subrange(start, i + 1), " "@);
            &&& 0 <= start < i
            &&& i - start <= 4
            &&& forall|k: int| start <= k < i ==> (#[trigger] tokens[k]).name_like
            &&& start == 0 || i - start == 4 || !tokens[start - 1].name_like
            &&& cleaned_name(surface) matches Some(name) ==> normalized_name(name) matches Some(
                normalized,
            ) ==> es.len() == 32 || exists|e: int|
                {
                    &&& 0 <= e < es.len()
                    &&& (#[trigger] es[e]).kind == kind
                    &&& es[e].normalized == normalized
                }
        }),
{
    let tokens = tokens_of(words(text));
    lemma_suffix_words(tokens[i].lowercase);
    let start = name_start(tokens, i, i);
    lemma_name_start(tokens, i, i);
    let m = MentionView {
        kind,
        surface: join(token_values(tokens).subrange(start, i + 1), " "@),
        canonical: None,
    };
    assert(suffix_at(tokens, i) == Some(m));
    lemma_suffixes_upto(tokens, tokens.len() as int);
    lemma_mentions_in(text, m);
    law_mentions_become_entities(mentions_in(text), es, m);
    start
}

/// An entity has the type that the text gives it: without a typed field of its type, it stands after a cue
/// of that type or ends in a suffix of that type.
pub proof fn law_entities_are_typed_by_the_text(text: Seq<char>, es: Seq<EntityView>, e: int) -> (i:
    int)
    requires
        resolution(mentions_in(text), es),
        0 <= e < es.len(),
        forall|f: int| 0 <= f < fields(text).len() ==> (#[trigger] fields(text)[f]).kind != es[e].kind,
    ensures
        0 <= i < tokens_of(words(text)).len(),
        ({
            let w = tokens_of(words(text))[i].lowercase;
            match es[e].kind {
                EntityType::Location => w == "at"@ || w == "from"@ || w == "in"@ || w == "near"@ || w
                    == "outside"@ || w == "city"@ || w == "country"@ || w == "county"@ || w
                    == "island"@ || w == "lake"@ || w == "mount"@ || w == "province"@ || w
                    == "river"@ || w == "state"@ || w == "valley"@,
                EntityType::Person => w == "dr"@ || w == "mr"@ || w == "mrs"@ || w == "ms"@ || w
                    == "prof"@ || w == "president"@,
                EntityType::Concept => w == "algorithm"@ || w == "approach"@ || w == "concept"@ || w
                    == "field"@ || w == "method"@ || w == "principle"@ || w == "theory"@,
                EntityType::Product => w == "app"@ || w == "application"@ || w == "browser"@ || w
                    == "framework"@ || w == "library"@ || w == "model"@ || w == "platform"@ || w
                    == "product"@ || w == "software"@,
                EntityType::Organization => w == "agency"@ || w == "bank"@ || w == "company"@ || w
                    == "corp"@ || w == "corporation"@ || w == "foundation"@ || w == "inc"@ || w
                    == "incorporated"@ || w == "institute"@ || w == "laboratory"@ || w == "labs"@
                    || w == "limited"@ || w == "llc"@ || w == "ltd"@ || w == "media"@ || w
                    == "university"@,
                EntityType::Event => w == "agreement"@ || w == "conference"@ || w == "election"@ || w
                    == "festival"@ || w == "games"@ || w == "olympics"@ || w == "summit"@ || w
                    == "treaty"@ || w == "war"@,
            }
        }),
{
    let tokens = tokens_of(words(text));
    let ms = mentions_in(text);
    let key = entity_key(es[e]);
    assert(entity_from(ms, es[e]));
    let g = choose|g: int| 0 <= g < ms.len() && in_group(#[trigger] ms[g], key);
    let m = ms[g];
    assert(ms.contains(m));
    assert(in_group(m, key));
    lemma_mentions_in(text, m);
    lemma_cues_upto(tokens, tokens.len() as int);
    lemma_suffixes_upto(tokens, tokens.len() as int);
    if fields(text).contains(m) {
        let f = choose|f: int| 0 <= f < fields(text).len() && fields(text)[f] == m;
        assert(fields(text)[f].kind == es[e].kind);
        0
    } else if cues_upto(tokens, tokens.len() as int).contains(m) {
        choose|i: int| 0 <= i < tokens.len() && #[trigger] cue_at(tokens, i) == Some(m)
    } else {
        choose|i: int| 0 <= i < tokens.len() && #[trigger] suffix_at(tokens, i) == Some(m)
    }
}

/// What a word is to the extractor: it ends a phrase where its last character is `;`, `|`, `.` or `:`, its
/// value is it without punctuation at its ends, and it can be part of a name where its first letter is
/// a capital or it holds a digit.
pub proof fn law_tokens_tell_their_words(raw: Seq<char>, t: TokenView, first: int)
    requires
        token_of(raw) == Some(t),
        raw.len() > 0,
    ensures
        t.boundary_after <==> raw.last() == ';' || raw.last() == '|' || raw.last() == '.' || raw.last()
            == ':',
        t.value.len() > 0,
        t.lowercase == unicode_lowercase(t.value),
        ({
            let (a, b) = (t.value[0], t.value.last());
            &&& unicode_alphanumeric(a) || a == '\'' || a == '-' || a == '_'
            &&& unicode_alphanumeric(b) || b == '\'' || b == '-' || b == '_'
        }),
        0 <= first < t.value.len() && unicode_uppercase(t.value[first]) && unicode_alphabetic(
            t.value[first],
        ) && (forall|k: int| 0 <= k < first ==> !unicode_alphabetic(#[trigger] t.value[k]))
            ==> t.name_like,
        0 <= first < t.value.len() && '0' <= t.value[first] <= '9' ==> t.name_like,
        t.name_like && 0 <= first < t.value.len() && unicode_alphabetic(t.value[first])
            && !unicode_uppercase(t.value[first]) && (forall|k: int|
            0 <= k < first ==> !unicode_alphabetic(#[trigger] t.value[k])) ==> exists|k: int|
            0 <= k < t.value.len() && '0' <= #[trigger] t.value[k] <= '9',
{
    let front = crate::text::trim_start_by(raw, name_edges());
    crate::text::lemma_trim_start_props(raw, name_edges());
    crate::text::lemma_trim_end_props(front, name_edges());
    assert(t.value[0] == front[0]);
    lemma_find_by(t.value, alphabetic());
    if 0 <= first < t.value.len() && unicode_alphabetic(t.value[first]) && (forall|k: int|
        0 <= k < first ==> !unicode_alphabetic(#[trigger] t.value[k])) {
        lemma_find_by_unique(t.value, alphabetic(), first);
    }
}

/// Diacritics do not tell names apart: a combining mark in a decomposed name leaves no trace in the
/// folded one.
pub proof fn law_marks_leave_no_trace(before: Seq<char>, mark: char, after: Seq<char>)
    requires
        combining_mark(mark),
    ensures
        folded(before.push(mark) + after) == folded(before + after),
    decreases after.len(),
{
    if after.len() == 0 {
        assert(before.push(mark) + after =~= before.push(mark));
        assert(before.push(mark).drop_last() =~= before);
        assert(before + after =~= before);
        assert(folded(before) + seq![] =~= folded(before));
    } else {
        let rest = after.drop_last();
        law_marks_leave_no_trace(before, mark, rest);
        assert((before.push(mark) + after).drop_last() =~= before.push(mark) + rest);
        assert((before + after).drop_last() =~= before + rest);
    }
}

/// An alias belongs to the entity of the name that it stands for: where a mention gives an alias of a name,
/// the entity of that name, with the type of the mention, lists it, unless it is the entity's own name
/// or the list of entities is full.
pub proof fn law_aliases_join_their_entity(ms: Seq<MentionView>, es: Seq<EntityView>, m: MentionView)
    requires
        resolution(ms, es),
        ms.contains(m),
        m.canonical is Some,
        normalized_name(m.canonical->0) is Some,
    ensures
        cleaned_name(m.surface) matches Some(alias) ==> es.len() == 32 || exists|e: int|
            {
                &&& 0 <= e < es.len()
                &&& (#[trigger] es[e]).kind == m.kind
                &&& Some(es[e].normalized) == normalized_name(m.canonical->0)
                &&& es[e].aliases.contains(alias) || es[e].name == alias
            },
{
    if let Some(alias) = cleaned_name(m.surface) {
        let k = (m.kind, normalized_name(m.canonical->0)->0);
        let i = choose|i: int| 0 <= i < ms.len() && ms[i] == m;
        assert(in_group(ms[i], k));
        assert(has_group(ms, k));
        assert(gives_name(ms[i], k, alias, true));
        assert(has_name(ms, k, alias, true));
        if es.len() != MAX_ENTITIES {
            let e = choose|e: int| 0 <= e < es.len() && entity_key(#[trigger] es[e]) == k;
            assert(entity_from(ms, es[e]));
            assert(es[e].kind == m.kind);
        }
    }
}

/// Extraction types names by what stands before them: a capitalized word right after `at`, `from`, `in`,
/// `near` or `outside` begins a location. The extracted entities hold it, unless there are as many as a
/// text may have.
pub proof fn law_extraction_finds_locations(text: &str, res: Vec<Entity>, i: int) -> (end: int)
    requires
        call_ensures(extract, (text,), res),
        0 <= i < tokens_of(words(text@)).len() - 1,
        tokens_of(words(text@))[i + 1].name_like,
        ({
            let w = tokens_of(words(text@))[i].lowercase;
            w == "at"@ || w == "from"@ || w == "in"@ || w == "near"@ || w == "outside"@
        }),
    ensures
        i + 2 <= end <= tokens_of(words(text@)).len(),
        cleaned_name(
            join(token_values(tokens_of(words(text@))).subrange(i + 1, end), " "@),
        ) matches Some(name) ==> normalized_name(name) matches Some(normalized) ==> res@.len() == 32
            || exists|e: int|
            {
                &&& 0 <= e < res@.len()
                &&& (#[trigger] res@[e]).kind == EntityType::Location
                &&& res@[e].normalized@ == normalized
            },
{
    let es = entity_views(res@);
    let tokens = tokens_of(words(text@));
    let end = law_cues_type_the_next_name(text@, es, i, EntityType::Location);
    let surface = join(token_values(tokens).subrange(i + 1, end), " "@);
    if let Some(name) = cleaned_name(surface) {
        if let Some(normalized) = normalized_name(name) {
            if res@.len() != 32 {
                let e = choose|e: int|
                    {
                        &&& 0 <= e < es.len()
                        &&& (#[trigger] es[e]).kind == EntityType::Location
                        &&& es[e].normalized == normalized
                    };
                assert(es[e] == res@[e]@);
                assert(res@[e].kind == EntityType::Location);
            }
        }
    }
    end
}

/// A typed field types its value: a text that begins with `person`, `organization`, `organisation`,
/// `place`, `location`, `event`, `concept` or `product`, however capitalized, and `:` or `=`, gives a
/// name of that type, up to `;`, `|`, `.` or the end of the line.
pub proof fn law_fields_type_their_values(
    label: Seq<char>,
    mark: char,
    value: Seq<char>,
    rest: Seq<char>,
    kind: EntityType,
    m: MentionView,
)
    requires
        ({
            let l = lower_ascii(label);
            match kind {
                EntityType::Person => l == "person"@,
                EntityType::Organization => l == "organization"@ || l == "organisation"@,
                EntityType::Location => l == "place"@ || l == "location"@,
                EntityType::Event => l == "event"@,
                EntityType::Concept => l == "concept"@,
                EntityType::Product => l == "product"@,
            }
        }),
        mark == ':' || mark == '=',
        forall|k: int|
            0 <= k < value.len() ==> #[trigger] value[k] != ';' && value[k] != '|' && value[k] != '\n'
                && value[k] != '.',
        rest.len() > 0 ==> rest[0] == ';' || rest[0] == '|' || rest[0] == '\n' || rest[0] == '.',
        value_mentions(kind, trimmed(value)).contains(m),
    ensures
        m.kind == kind,
        fields(label + seq![mark] + value + rest).contains(m),
        mentions_in(label + seq![mark] + value + rest).contains(m),
{
    let text = label + seq![mark] + value + rest;
    let l = lower_ascii(label);
    reveal_strlit("person");
    reveal_strlit("organization");
    reveal_strlit("organisation");
    reveal_strlit("place");
    reveal_strlit("location");
    reveal_strlit("event");
    reveal_strlit("concept");
    reveal_strlit("product");
    assert(l.len() == label.len());
    assert(l.len() > 0);
    let low = lower_ascii(text);
    assert(low.subrange(0, l.len() as int) =~= l) by {
        assert forall|k: int| 0 <= k < l.len() implies low[k] == l[k] by {
            assert(text[k] == label[k]);
        }
    }
    assert(find_text(low, l, 0) == Some(0int));
    let n = label.len() as int;
    let after = text.skip(n);
    assert(after[0] == mark);
    lemma_find_by_unique(after, field_delimiter(), 0);
    let tail = text.skip(n + 1);
    assert(tail =~= value + rest);
    assert forall|k: int| 0 <= k < value.len() implies !(field_end())(#[trigger] tail[k]) by {
        assert(tail[k] == value[k]);
    }
    assert(value.len() < tail.len() ==> tail[value.len() as int] == rest[0]);
    lemma_find_by_unique(tail, field_end(), value.len() as int);
    assert(text.subrange(n + 1, n + 1 + value.len()) =~= value);
    let here = field_mentions(text, l, kind, 0);
    let first = value_mentions(kind, trimmed(value));
    let later = field_mentions(text, l, kind, n + 1 + value.len() as int);
    assert(here == first + later);
    lemma_parts_contain(first, later, m);
    let a = field_mentions(text, "person"@, EntityType::Person, 0);
    let b = field_mentions(text, "organization"@, EntityType::Organization, 0);
    let c = field_mentions(text, "organisation"@, EntityType::Organization, 0);
    let d = field_mentions(text, "place"@, EntityType::Location, 0);
    let e = field_mentions(text, "location"@, EntityType::Location, 0);
    let f = field_mentions(text, "event"@, EntityType::Event, 0);
    let g = field_mentions(text, "concept"@, EntityType::Concept, 0);
    let h = field_mentions(text, "product"@, EntityType::Product, 0);
    lemma_parts_contain(a, b, m);
    lemma_parts_contain(a + b, c, m);
    lemma_parts_contain(a + b + c, d, m);
    lemma_parts_contain(a + b + c + d, e, m);
    lemma_parts_contain(a + b + c + d + e, f, m);
    lemma_parts_contain(a + b + c + d + e + f, g, m);
    lemma_parts_contain(a + b + c + d + e + f + g, h, m);
    lemma_mentions_in(text, m);
}

} // verus!
