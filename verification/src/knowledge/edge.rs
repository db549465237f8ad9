//! Fact edges: the properties that an edge carries and how assertions merge into it.
//!
//! An edge stores its aggregation state as JSON: a bounded list of evidence chunk ids, a bounded
//! list of occurrence dates, and the caller's own properties. Identity is
//! `(subject, predicate, object)`; the assertions of several chunks merge into one edge that counts
//! its support.

use vstd::prelude::*;

use crate::knowledge::{FactCaps, KnowledgeError};
use crate::text::{contains_text, lemma_push_contains, less, same, text_less, texts};

verus! {

// ---------------------------------------------------------------------------------------------
// JSON properties.
// ---------------------------------------------------------------------------------------------
/// An element of a JSON array.
#[derive(Debug)]
pub enum Element {
    /// A string.
    Text(String),
    /// Any other value, by its JSON text.
    Other(String),
}

/// The value of a JSON property.
#[derive(Debug)]
pub enum PropertyValue {
    /// A string.
    Text(String),
    /// An array.
    Array(Vec<Element>),
    /// Any other value, by its JSON text.
    Other(String),
}

/// A property of a JSON object.
#[derive(Debug)]
pub struct Property {
    /// The name of the property.
    pub key: String,
    /// The value of the property.
    pub value: PropertyValue,
}

/// A JSON document.
#[derive(Debug)]
pub enum Json {
    /// An object, by its properties.
    Object(Vec<Property>),
    /// Any other value, by its JSON text.
    Other(String),
}

/// The model of an [`Element`].
pub enum ElementView {
    Text(Seq<char>),
    Other(Seq<char>),
}

/// The model of a [`PropertyValue`].
pub enum ValueView {
    Text(Seq<char>),
    Array(Seq<ElementView>),
    Other(Seq<char>),
}

/// The model of a [`Json`] document.
pub enum JsonView {
    Object(Map<Seq<char>, ValueView>),
    Other(Seq<char>),
}

impl View for Element {
    type V = ElementView;

    open spec fn view(&self) -> ElementView {
        match self {
            Element::Text(s) => ElementView::Text(s@),
            Element::Other(s) => ElementView::Other(s@),
        }
    }
}

impl View for PropertyValue {
    type V = ValueView;

    open spec fn view(&self) -> ValueView {
        match self {
            PropertyValue::Text(s) => ValueView::Text(s@),
            PropertyValue::Array(items) => ValueView::Array(
                items@.map_values(|e: Element| e@),
            ),
            PropertyValue::Other(s) => ValueView::Other(s@),
        }
    }
}

/// The object that a list of properties makes.
pub open spec fn object_of(entries: Seq<Property>) -> Map<Seq<char>, ValueView>
    decreases entries.len(),
{
    if entries.len() == 0 {
        Map::empty()
    } else {
        object_of(entries.drop_last()).insert(entries.last().key@, entries.last().value@)
    }
}

/// Whether no two properties of a list have one name.
pub open spec fn distinct_keys(entries: Seq<Property>) -> bool {
    forall|i: int, j: int|
        0 <= i < j < entries.len() ==> (#[trigger] entries[i]).key@ != (#[trigger] entries[j]).key@
}

impl View for Json {
    type V = JsonView;

    open spec fn view(&self) -> JsonView {
        match self {
            Json::Object(entries) => JsonView::Object(object_of(entries@)),
            Json::Other(s) => JsonView::Other(s@),
        }
    }
}

impl Json {
    /// Whether the properties of the document, where it is an object, have distinct names.
    pub open spec fn wf(self) -> bool {
        match self {
            Json::Object(entries) => distinct_keys(entries@),
            Json::Other(_) => true,
        }
    }
}

/// The model of an optional document.
pub open spec fn json_view(j: Option<Json>) -> Option<JsonView> {
    match j {
        Some(j) => Some(j@),
        None => None,
    }
}

/// The model of what reading a text gave.
pub open spec fn reading_view(r: Result<Json, String>) -> Result<JsonView, Seq<char>> {
    match r {
        Ok(j) => Ok(j@),
        Err(m) => Err(m@),
    }
}

/// What `serde_json` reads from a text: a document, or the message of its error.
pub uninterp spec fn parsed_json(raw: Seq<char>) -> Result<JsonView, Seq<char>>;

/// Whether a text is not empty and is read as this document.
pub open spec fn reads_as(raw: Seq<char>, j: JsonView) -> bool {
    raw.len() > 0 && match parsed_json(raw) {
        Ok(found) => found == j,
        Err(_) => false,
    }
}

/// The text that `serde_json` writes for an object.
pub uninterp spec fn object_text(object: Map<Seq<char>, ValueView>) -> Seq<char>;

/// Whether an object holds only strings and arrays of strings.
pub open spec fn holds_texts(object: Map<Seq<char>, ValueView>) -> bool {
    forall|k: Seq<char>| #[trigger] object.contains_key(k) ==> match object[k] {
        ValueView::Text(_) => true,
        ValueView::Array(items) => forall|i: int|
            0 <= i < items.len() ==> (#[trigger] items[i]) is Text,
        ValueView::Other(_) => false,
    }
}

/// Calls `serde_json::from_str` and hands the value over as a [`Json`]: strings as they are,
/// everything that is neither a string, an array nor an object by its JSON text. An object of
/// `serde_json` holds no name twice. An error is handed over by its message.
#[verifier::external_body]
pub(crate) fn parse_json(raw: &str) -> (res: Result<Json, String>)
    ensures
        reading_view(res) == parsed_json(raw@),
        res is Ok ==> res->Ok_0.wf(),
{
    let value: serde_json::Value = serde_json::from_str(raw).map_err(|e| e.to_string())?;
    Ok(match value {
        serde_json::Value::Object(map) => Json::Object(map.into_iter().map(|(key, value)| match value {
            serde_json::Value::String(s) => Property { key, value: PropertyValue::Text(s) },
            serde_json::Value::Array(items) => Property { key, value: PropertyValue::Array(items.into_iter().map(|item| match item {
                serde_json::Value::String(s) => Element::Text(s),
                other => Element::Other(other.to_string()),
            }).collect()) },
            other => Property { key, value: PropertyValue::Other(other.to_string()) },
        }).collect()),
        other => Json::Other(other.to_string()),
    })
}

/// Builds a `serde_json` object from its properties and writes it with `Value::to_string`. The text
/// depends on the properties alone, not on their order, and an object of strings and arrays of
/// strings is read back from it as it was. What is read back of other values is not claimed.
#[verifier::external_body]
fn render_object(entries: &Vec<Property>) -> (res: String)
    requires
        distinct_keys(entries@),
    ensures
        res@ == object_text(object_of(entries@)),
        holds_texts(object_of(entries@)) ==> reads_as(
            res@,
            JsonView::Object(object_of(entries@)),
        ),
{
    let map = entries.iter().map(|p| (p.key.clone(), match &p.value {
        PropertyValue::Text(s) => serde_json::Value::String(s.clone()),
        PropertyValue::Array(items) => serde_json::Value::Array(items.iter().map(|e| match e {
            Element::Text(s) => serde_json::Value::String(s.clone()),
            Element::Other(raw) => serde_json::from_str(raw).unwrap_or_default(),
        }).collect()),
        PropertyValue::Other(raw) => serde_json::from_str(raw).unwrap_or_default(),
    })).collect::<serde_json::Map<String, serde_json::Value>>();
    serde_json::Value::Object(map).to_string()
}

// ---------------------------------------------------------------------------------------------
// Objects as lists of properties.
// ---------------------------------------------------------------------------------------------
proof fn lemma_object_of(entries: Seq<Property>)
    requires
        distinct_keys(entries),
    ensures
        forall|i: int|
            0 <= i < entries.len() ==> object_of(entries).contains_key((#[trigger] entries[i]).key@)
                && object_of(entries)[entries[i].key@] == entries[i].value@,
        forall|k: Seq<char>| #[trigger]
            object_of(entries).contains_key(k) ==> exists|i: int|
                0 <= i < entries.len() && (#[trigger] entries[i]).key@ == k,
    decreases entries.len(),
{
    if entries.len() > 0 {
        let rest = entries.drop_last();
        assert forall|i: int, j: int| 0 <= i < j < rest.len() implies (#[trigger] rest[i]).key@ != (
        #[trigger] rest[j]).key@ by {
            assert(rest[i] == entries[i] && rest[j] == entries[j]);
        }
        lemma_object_of(rest);
        assert forall|i: int| 0 <= i < entries.len() implies object_of(entries).contains_key(
            (#[trigger] entries[i]).key@,
        ) && object_of(entries)[entries[i].key@] == entries[i].value@ by {
            if i < entries.len() - 1 {
                assert(rest[i] == entries[i]);
                assert(entries[i].key@ != entries[entries.len() - 1].key@);
            }
        }
        assert forall|k: Seq<char>| #[trigger]
            object_of(entries).contains_key(k) implies exists|i: int|
            0 <= i < entries.len() && (#[trigger] entries[i]).key@ == k by {
            if k == entries.last().key@ {
                assert(entries[entries.len() - 1].key@ == k);
            } else {
                assert(object_of(rest).contains_key(k));
                let i = choose|i: int| 0 <= i < rest.len() && (#[trigger] rest[i]).key@ == k;
                assert(entries[i].key@ == k);
            }
        }
    }
}

/// The value of the property `key`.
pub open spec fn property(object: Map<Seq<char>, ValueView>, key: Seq<char>) -> Option<ValueView> {
    if object.contains_key(key) {
        Some(object[key])
    } else {
        None
    }
}

/// The property `key` of a document; only objects have any.
pub open spec fn json_property(j: JsonView, key: Seq<char>) -> Option<ValueView> {
    match j {
        JsonView::Object(object) => property(object, key),
        JsonView::Other(_) => None,
    }
}

fn get<'a>(entries: &'a Vec<Property>, key: &str) -> (res: Option<&'a PropertyValue>)
    requires
        distinct_keys(entries@),
    ensures
        match res {
            Some(v) => property(object_of(entries@), key@) == Some(v@),
            None => property(object_of(entries@), key@) is None,
        },
{
    proof {
        lemma_object_of(entries@);
    }
    let mut i: usize = 0;
    while i < entries.len()
        invariant
            i <= entries@.len(),
            forall|j: int| 0 <= j < i ==> (#[trigger] entries@[j]).key@ != key@,
            forall|j: int|
                0 <= j < entries@.len() ==> object_of(entries@).contains_key(
                    (#[trigger] entries@[j]).key@,
                ) && object_of(entries@)[entries@[j].key@] == entries@[j].value@,
        decreases entries@.len() - i,
    {
        if same(entries[i].key.as_str(), key) {
            assert(entries@[i as int].key@ == key@);
            return Some(&entries[i].value);
        }
        i = i + 1;
    }
    None
}

fn without_key(entries: Vec<Property>, key: &str) -> (res: Vec<Property>)
    requires
        distinct_keys(entries@),
    ensures
        distinct_keys(res@),
        object_of(res@) == object_of(entries@).remove(key@),
{
    let mut rest = entries;
    let mut i: usize = 0;
    let ghost all = rest@;
    proof {
        lemma_object_of(all);
    }
    while i < rest.len()
        invariant
            i <= rest@.len(),
            rest@ == all,
            all == entries@,
            distinct_keys(all),
            forall|j: int| 0 <= j < i ==> (#[trigger] all[j]).key@ != key@,
        decreases rest@.len() - i,
    {
        proof {
            lemma_object_of(all);
        }
        if same(rest[i].key.as_str(), key) {
            let _ = rest.remove(i);
            proof {
                let kept = rest@;
                assert(kept =~= all.remove(i as int));
                assert forall|a: int, b: int| 0 <= a < b < kept.len() implies (
                #[trigger] kept[a]).key@ != (#[trigger] kept[b]).key@ by {
                    let x = if a < i { a } else { a + 1 };
                    let y = if b < i { b } else { b + 1 };
                    assert(kept[a] == all[x] && kept[b] == all[y]);
                }
                lemma_object_of(kept);
                assert(all[i as int].key@ == key@);
                assert forall|k: Seq<char>| #[trigger]
                    object_of(kept).contains_key(k) <==> object_of(all).remove(key@).contains_key(
                        k,
                    ) by {
                    if object_of(kept).contains_key(k) {
                        let a = choose|a: int| 0 <= a < kept.len() && (#[trigger] kept[a]).key@ == k;
                        let x = if a < i { a } else { a + 1 };
                        assert(kept[a] == all[x]);
                        assert(all[x].key@ != all[i as int].key@);
                    }
                    if object_of(all).remove(key@).contains_key(k) {
                        let x = choose|x: int| 0 <= x < all.len() && (#[trigger] all[x]).key@ == k;
                        let a = if x < i { x } else { x - 1 };
                        assert(kept[a] == all[x]);
                    }
                }
                assert forall|k: Seq<char>| #[trigger]
                    object_of(kept).contains_key(k) implies object_of(kept)[k] == object_of(
                    all,
                ).remove(key@)[k] by {
                    let a = choose|a: int| 0 <= a < kept.len() && (#[trigger] kept[a]).key@ == k;
                    let x = if a < i { a } else { a + 1 };
                    assert(kept[a] == all[x]);
                }
                assert(object_of(kept) =~= object_of(all).remove(key@));
            }
            return rest;
        }
        i = i + 1;
    }
    assert(!object_of(all).contains_key(key@));
    assert(object_of(all) =~= object_of(all).remove(key@));
    rest
}

fn with_property(entries: Vec<Property>, key: &str, value: PropertyValue) -> (res: Vec<Property>)
    requires
        distinct_keys(entries@),
    ensures
        distinct_keys(res@),
        object_of(res@) == object_of(entries@).insert(key@, value@),
{
    let mut rest = without_key(entries, key);
    let ghost before = rest@;
    proof {
        lemma_object_of(before);
    }
    let p = Property { key: key.to_owned(), value };
    rest.push(p);
    proof {
        assert(rest@.drop_last() =~= before);
        assert(object_of(before).insert(key@, value@) =~= object_of(entries@).insert(key@, value@));
        assert forall|a: int, b: int| 0 <= a < b < rest@.len() implies (#[trigger] rest@[a]).key@
            != (#[trigger] rest@[b]).key@ by {
            assert(rest@[a] == before[a]);
            if b == before.len() {
                if before[a].key@ == key@ {
                    assert(object_of(before).contains_key(key@));
                }
            }
        }
    }
    rest
}

fn copy_value(v: &PropertyValue) -> (res: PropertyValue)
    ensures
        res@ == v@,
{
    match v {
        PropertyValue::Text(s) => PropertyValue::Text(s.clone()),
        PropertyValue::Other(s) => PropertyValue::Other(s.clone()),
        PropertyValue::Array(items) => {
            let ghost image = items@.map_values(|e: Element| e@);
            let mut copy: Vec<Element> = Vec::new();
            let mut i: usize = 0;
            while i < items.len()
                invariant
                    i <= items@.len(),
                    image == items@.map_values(|e: Element| e@),
                    copy@.map_values(|e: Element| e@) == image.take(i as int),
                decreases items@.len() - i,
            {
                let ghost before = copy@.map_values(|e: Element| e@);
                let e = match &items[i] {
                    Element::Text(s) => Element::Text(s.clone()),
                    Element::Other(s) => Element::Other(s.clone()),
                };
                copy.push(e);
                assert(copy@.map_values(|e: Element| e@) =~= before.push(e@));
                assert(image[i as int] == items@[i as int]@);
                i = i + 1;
                assert(copy@.map_values(|e: Element| e@) =~= image.take(i as int));
            }
            assert(image.take(i as int) =~= image);
            PropertyValue::Array(copy)
        },
    }
}

// ---------------------------------------------------------------------------------------------
// Lists of texts within properties.
// ---------------------------------------------------------------------------------------------
/// The strings among the elements of an array.
pub open spec fn element_texts(items: Seq<ElementView>) -> Seq<Seq<char>>
    decreases items.len(),
{
    if items.len() == 0 {
        seq![]
    } else {
        let before = element_texts(items.drop_last());
        match items.last() {
            ElementView::Text(s) => before.push(s),
            ElementView::Other(_) => before,
        }
    }
}

/// The strings of an array property; none of any other.
pub open spec fn listed(value: Option<ValueView>) -> Seq<Seq<char>> {
    match value {
        Some(ValueView::Array(items)) => element_texts(items),
        _ => seq![],
    }
}

/// The texts of a property that is one string or an array of them.
pub open spec fn one_or_listed(value: Option<ValueView>) -> Seq<Seq<char>> {
    match value {
        Some(ValueView::Text(s)) => seq![s],
        _ => listed(value),
    }
}

fn array_texts(items: &Vec<Element>) -> (res: Vec<String>)
    ensures
        texts(res@) == element_texts(items@.map_values(|e: Element| e@)),
{
    let ghost image = items@.map_values(|e: Element| e@);
    let mut res: Vec<String> = Vec::new();
    let mut i: usize = 0;
    assert(texts(res@) =~= element_texts(image.take(0)));
    while i < items.len()
        invariant
            i <= items@.len(),
            image == items@.map_values(|e: Element| e@),
            texts(res@) == element_texts(image.take(i as int)),
        decreases items@.len() - i,
    {
        assert(image.take(i + 1).drop_last() =~= image.take(i as int));
        assert(image[i as int] == items@[i as int]@);
        if let Element::Text(s) = &items[i] {
            let ghost before = texts(res@);
            res.push(s.clone());
            assert(texts(res@) =~= before.push(s@));
        }
        i = i + 1;
    }
    assert(image.take(i as int) =~= image);
    res
}

/// Reads a JSON array of strings; everything else reads as empty.
pub fn string_list(value: Option<&PropertyValue>) -> (res: Vec<String>)
    ensures
        texts(res@) == listed(
            match value {
                Some(v) => Some(v@),
                None => None,
            },
        ),
{
    match value {
        Some(PropertyValue::Array(items)) => array_texts(items),
        _ => {
            let res: Vec<String> = Vec::new();
            assert(texts(res@) =~= seq![]);
            res
        },
    }
}

pub(crate) fn string_or_list(value: Option<&PropertyValue>) -> (res: Vec<String>)
    ensures
        texts(res@) == one_or_listed(
            match value {
                Some(v) => Some(v@),
                None => None,
            },
        ),
{
    match value {
        Some(PropertyValue::Text(s)) => {
            let mut res: Vec<String> = Vec::new();
            res.push(s.clone());
            assert(texts(res@) =~= seq![s@]);
            res
        },
        _ => string_list(value),
    }
}

/// A list of strings as an array.
pub open spec fn array_of(items: Seq<Seq<char>>) -> ValueView {
    ValueView::Array(items.map_values(|s: Seq<char>| ElementView::Text(s)))
}

pub(crate) fn list_value(items: &Vec<String>) -> (res: PropertyValue)
    ensures
        res@ == array_of(texts(items@)),
{
    let ghost image = texts(items@).map_values(|s: Seq<char>| ElementView::Text(s));
    let mut elements: Vec<Element> = Vec::new();
    let mut i: usize = 0;
    while i < items.len()
        invariant
            i <= items@.len(),
            image == texts(items@).map_values(|s: Seq<char>| ElementView::Text(s)),
            elements@.map_values(|e: Element| e@) == image.take(i as int),
        decreases items@.len() - i,
    {
        let ghost before = elements@.map_values(|e: Element| e@);
        let e = Element::Text(items[i].clone());
        elements.push(e);
        assert(elements@.map_values(|e: Element| e@) =~= before.push(e@));
        assert(image[i as int] == ElementView::Text(texts(items@)[i as int]));
        i = i + 1;
        assert(elements@.map_values(|e: Element| e@) =~= image.take(i as int));
    }
    assert(image.take(i as int) =~= image);
    PropertyValue::Array(elements)
}

/// A list with `item` added, unless it is there already, the bound is reached or is 0.
pub open spec fn capped_push(list: Seq<Seq<char>>, item: Seq<char>, max: nat) -> Seq<Seq<char>> {
    if list.contains(item) || list.len() >= max {
        list
    } else {
        list.push(item)
    }
}

/// A list with each of `items` added in turn as [`capped_push`] does.
pub open spec fn capped_union(list: Seq<Seq<char>>, items: Seq<Seq<char>>, max: nat) -> Seq<
    Seq<char>,
>
    decreases items.len(),
{
    if items.len() == 0 {
        list
    } else {
        capped_push(capped_union(list, items.drop_last(), max), items.last(), max)
    }
}

/// Pushes `item` onto `list` unless it is there or the bound is reached. Answers whether the list
/// gained an entry.
pub fn push_capped(list: &mut Vec<String>, item: &str, max: usize) -> (gained: bool)
    ensures
        texts(final(list)@) == capped_push(texts(old(list)@), item@, max as nat),
        gained == (texts(final(list)@).len() > texts(old(list)@).len()),
{
    if list.len() >= max || contains_text(list, item) {
        return false;
    }
    let ghost before = texts(list@);
    list.push(item.to_owned());
    assert(texts(list@) =~= before.push(item@));
    true
}

/// Whether a chunk has been counted: it is in the evidence or among the chunks counted beyond it.
pub open spec fn is_counted(
    evidence: Seq<Seq<char>>,
    counted: Seq<Seq<char>>,
    chunk: Seq<char>,
) -> bool {
    evidence.contains(chunk) || counted.contains(chunk)
}

/// The chunks counted beyond the evidence once `chunk` is counted too.
pub open spec fn counted_with(
    evidence: Seq<Seq<char>>,
    counted: Seq<Seq<char>>,
    chunk: Seq<char>,
) -> Seq<Seq<char>> {
    if is_counted(evidence, counted, chunk) {
        counted
    } else {
        counted.push(chunk)
    }
}

/// Computes [`counted_with`].
pub(crate) fn count_chunk(evidence: &Vec<String>, counted: &mut Vec<String>, chunk: &str)
    ensures
        texts(final(counted)@) == counted_with(texts(evidence@), texts(old(counted)@), chunk@),
{
    if !contains_text(evidence, chunk) && !contains_text(counted, chunk) {
        let ghost before = texts(counted@);
        counted.push(chunk.to_owned());
        assert(texts(counted@) =~= before.push(chunk@));
    }
}

pub(crate) fn union_capped(list: &mut Vec<String>, items: &Vec<String>, max: usize)
    ensures
        texts(final(list)@) == capped_union(texts(old(list)@), texts(items@), max as nat),
{
    let ghost before = texts(list@);
    let ghost all = texts(items@);
    let mut i: usize = 0;
    while i < items.len()
        invariant
            i <= items@.len(),
            all == texts(items@),
            texts(list@) == capped_union(before, all.take(i as int), max as nat),
        decreases items@.len() - i,
    {
        assert(all.take(i + 1).drop_last() =~= all.take(i as int));
        let _ = push_capped(list, items[i].as_str(), max);
        i = i + 1;
    }
    assert(all.take(i as int) =~= all);
}


// ---------------------------------------------------------------------------------------------
// The state of an edge.
// ---------------------------------------------------------------------------------------------
/// The reserved property of the evidence list.
pub const EVIDENCE_KEY: &'static str = "evidence";

/// The reserved property of the occurrences list.
pub const OCCURRENCES_KEY: &'static str = "occurrences";

/// The property that feeds the occurrences list. A caller's is never stored: in a stored edge it is the
/// list of the chunks counted beyond the evidence, which callers do not see.
pub const OCCURRED_ON_KEY: &'static str = "occurred_on";

/// The property that keeps its latest value.
pub const AS_OF_KEY: &'static str = "as_of";

/// The aggregation state of an edge.
#[derive(Debug)]
pub struct EdgeState {
    /// The ids of chunks that assert the fact.
    pub evidence: Vec<String>,
    /// The dates on which the fact occurred.
    pub occurrences: Vec<String>,
    /// The ids of chunks that assert the fact and that the evidence list had no room for.
    pub counted: Vec<String>,
    /// The caller's own properties.
    pub caller: Json,
}

/// The model of an [`EdgeState`].
pub struct EdgeView {
    pub evidence: Seq<Seq<char>>,
    pub occurrences: Seq<Seq<char>>,
    pub counted: Seq<Seq<char>>,
    pub caller: JsonView,
}

impl View for EdgeState {
    type V = EdgeView;

    open spec fn view(&self) -> EdgeView {
        EdgeView {
            evidence: texts(self.evidence@),
            occurrences: texts(self.occurrences@),
            counted: texts(self.counted@),
            caller: self.caller@,
        }
    }
}

/// A document without the reserved properties.
pub open spec fn without_reserved(j: JsonView) -> JsonView {
    match j {
        JsonView::Object(object) => JsonView::Object(
            object.remove(EVIDENCE_KEY@).remove(OCCURRENCES_KEY@).remove(OCCURRED_ON_KEY@),
        ),
        JsonView::Other(s) => JsonView::Other(s),
    }
}

/// The document that a stored text holds; an empty object where it holds none.
pub open spec fn stored_json(raw: Seq<char>) -> JsonView {
    if raw.len() == 0 {
        JsonView::Object(Map::empty())
    } else {
        match parsed_json(raw) {
            Ok(j) => j,
            Err(_) => JsonView::Object(Map::empty()),
        }
    }
}

/// The state that a stored text holds. Absent or malformed JSON holds the empty state.
pub open spec fn edge_state_of(raw: Seq<char>) -> EdgeView {
    let j = stored_json(raw);
    EdgeView {
        evidence: listed(json_property(j, EVIDENCE_KEY@)),
        occurrences: listed(json_property(j, OCCURRENCES_KEY@)),
        counted: listed(json_property(j, OCCURRED_ON_KEY@)),
        caller: without_reserved(j),
    }
}

pub(crate) fn json_get<'a>(j: &'a Json, key: &str) -> (res: Option<&'a PropertyValue>)
    requires
        j.wf(),
    ensures
        match res {
            Some(v) => json_property(j@, key@) == Some(v@),
            None => json_property(j@, key@) is None,
        },
{
    match j {
        Json::Object(entries) => get(entries, key),
        Json::Other(_) => None,
    }
}

/// Reads the aggregation state out of the stored properties of an edge.
pub fn edge_state(raw: &str) -> (res: EdgeState)
    ensures
        res@ == edge_state_of(raw@),
        res.caller.wf(),
{
    let entries: Vec<Property> = Vec::new();
    assert(object_of(entries@) =~= Map::empty());
    let parsed = if raw.is_empty() {
        Json::Object(entries)
    } else {
        match parse_json(raw) {
            Ok(j) => j,
            Err(_) => Json::Object(entries),
        }
    };
    let evidence = string_list(json_get(&parsed, EVIDENCE_KEY));
    let occurrences = string_list(json_get(&parsed, OCCURRENCES_KEY));
    let counted = string_list(json_get(&parsed, OCCURRED_ON_KEY));
    let caller = match parsed {
        Json::Object(entries) => {
            let entries = without_key(entries, EVIDENCE_KEY);
            let entries = without_key(entries, OCCURRENCES_KEY);
            Json::Object(without_key(entries, OCCURRED_ON_KEY))
        },
        Json::Other(s) => Json::Other(s),
    };
    EdgeState { evidence, occurrences, counted, caller }
}

/// The stored properties of an edge as callers see them: without the chunks counted beyond the evidence.
pub open spec fn shown_json(j: JsonView) -> JsonView {
    match j {
        JsonView::Object(object) => JsonView::Object(object.remove(OCCURRED_ON_KEY@)),
        JsonView::Other(s) => JsonView::Other(s),
    }
}

pub(crate) fn show_json(j: Json) -> (res: Json)
    requires
        j.wf(),
    ensures
        res.wf(),
        res@ == shown_json(j@),
{
    match j {
        Json::Object(entries) => Json::Object(without_key(entries, OCCURRED_ON_KEY)),
        Json::Other(s) => Json::Other(s),
    }
}

/// The properties of a document that is an object; none of any other.
pub open spec fn object_or_empty(j: JsonView) -> Map<Seq<char>, ValueView> {
    match j {
        JsonView::Object(object) => object,
        JsonView::Other(_) => Map::empty(),
    }
}

/// The object that stores a state whose own properties are `caller`. Chunks counted beyond the
/// evidence are stored only where there are any.
pub open spec fn state_object(e: EdgeView, caller: Map<Seq<char>, ValueView>) -> Map<
    Seq<char>,
    ValueView,
> {
    let lists = caller.insert(EVIDENCE_KEY@, array_of(e.evidence)).insert(
        OCCURRENCES_KEY@,
        array_of(e.occurrences),
    );
    if e.counted.len() == 0 {
        lists
    } else {
        lists.insert(OCCURRED_ON_KEY@, array_of(e.counted))
    }
}

fn render_state(
    evidence: &Vec<String>,
    occurrences: &Vec<String>,
    counted: &Vec<String>,
    caller: Vec<Property>,
    state: Ghost<EdgeView>,
) -> (res: String)
    requires
        distinct_keys(caller@),
        state@.evidence == texts(evidence@),
        state@.occurrences == texts(occurrences@),
        state@.counted == texts(counted@),
    ensures
        res@ == object_text(state_object(state@, object_of(caller@))),
        holds_texts(state_object(state@, object_of(caller@))) ==> reads_as(
            res@,
            JsonView::Object(state_object(state@, object_of(caller@))),
        ),
{
    let entries = with_property(caller, EVIDENCE_KEY, list_value(evidence));
    let entries = with_property(entries, OCCURRENCES_KEY, list_value(occurrences));
    if counted.len() == 0 {
        render_object(&entries)
    } else {
        let entries = with_property(entries, OCCURRED_ON_KEY, list_value(counted));
        render_object(&entries)
    }
}

/// The text that stores a state. Own properties that are no object are dropped.
pub open spec fn edge_text(e: EdgeView) -> Seq<char> {
    object_text(state_object(e, object_or_empty(e.caller)))
}

/// Whether a text reads back as the object that stores a state, where that holds texts alone.
pub open spec fn keeps_texts(text: Seq<char>, e: EdgeView) -> bool {
    holds_texts(state_object(e, object_or_empty(e.caller))) ==> reads_as(
        text,
        JsonView::Object(state_object(e, object_or_empty(e.caller))),
    )
}

/// Writes the aggregation state of an edge.
pub fn edge_json(state: EdgeState) -> (res: String)
    requires
        state.caller.wf(),
    ensures
        res@ == edge_text(state@),
        keeps_texts(res@, state@),
{
    let ghost view = state@;
    let caller = match state.caller {
        Json::Object(entries) => entries,
        Json::Other(_) => {
            let entries: Vec<Property> = Vec::new();
            assert(object_of(entries@) =~= Map::empty());
            entries
        },
    };
    render_state(&state.evidence, &state.occurrences, &state.counted, caller, Ghost(view))
}

// ---------------------------------------------------------------------------------------------
// Merging one assertion: the embedded store.
// ---------------------------------------------------------------------------------------------
/// The string of a property; the empty string where it is none.
pub open spec fn text_or_empty(value: Option<ValueView>) -> Seq<char> {
    match value {
        Some(ValueView::Text(s)) => s,
        _ => seq![],
    }
}

/// Whether a property `incoming` is a string later than `current`.
pub open spec fn is_later(current: Option<ValueView>, incoming: Option<ValueView>) -> bool {
    match incoming {
        Some(ValueView::Text(s)) => text_less(text_or_empty(current), s),
        _ => false,
    }
}

/// A state with the properties of one assertion merged in: `occurred_on` joins the occurrences and
/// `as_of` keeps the latest value. Properties that are no object change nothing.
pub open spec fn merged_properties(
    e: EdgeView,
    props: Option<JsonView>,
    max_occurrences: nat,
) -> EdgeView {
    match props {
        Some(JsonView::Object(incoming)) => EdgeView {
            evidence: e.evidence,
            counted: e.counted,
            occurrences: capped_union(
                e.occurrences,
                one_or_listed(property(incoming, OCCURRED_ON_KEY@)),
                max_occurrences,
            ),
            caller: match e.caller {
                JsonView::Object(stored) => if is_later(
                    property(stored, AS_OF_KEY@),
                    property(incoming, AS_OF_KEY@),
                ) {
                    JsonView::Object(stored.insert(AS_OF_KEY@, incoming[AS_OF_KEY@]))
                } else {
                    e.caller
                },
                JsonView::Other(_) => e.caller,
            },
        },
        _ => e,
    }
}

fn later_text(current: Option<&PropertyValue>, incoming: Option<&PropertyValue>) -> (res: Option<String>)
    ensures
        ({
            let c = match current {
                Some(v) => Some(v@),
                None => None,
            };
            let i = match incoming {
                Some(v) => Some(v@),
                None => None,
            };
            match res {
                Some(s) => is_later(c, i) && i == Some(ValueView::Text(s@)),
                None => !is_later(c, i),
            }
        }),
{
    match incoming {
        Some(PropertyValue::Text(s)) => {
            let known = match current {
                Some(PropertyValue::Text(c)) => c.clone(),
                _ => String::new(),
            };
            if less(known.as_str(), s.as_str()) {
                Some(s.clone())
            } else {
                None
            }
        },
        _ => None,
    }
}

/// Merges the properties of one assertion into a state.
pub fn merge_properties(state: EdgeState, props: Option<&Json>, caps: FactCaps) -> (res: EdgeState)
    requires
        state.caller.wf(),
        props is Some ==> props->0.wf(),
    ensures
        res.caller.wf(),
        res@ == merged_properties(
            state@,
            match props {
                Some(j) => Some(j@),
                None => None,
            },
            caps.max_occurrences as nat,
        ),
{
    match props {
        Some(Json::Object(incoming)) => {
            let dates = string_or_list(get(incoming, OCCURRED_ON_KEY));
            let mut occurrences = state.occurrences;
            union_capped(&mut occurrences, &dates, caps.max_occurrences);
            let caller = match state.caller {
                Json::Object(stored) => {
                    let later = later_text(get(&stored, AS_OF_KEY), get(incoming, AS_OF_KEY));
                    match later {
                        Some(s) => Json::Object(
                            with_property(stored, AS_OF_KEY, PropertyValue::Text(s)),
                        ),
                        None => Json::Object(stored),
                    }
                },
                Json::Other(s) => Json::Other(s),
            };
            EdgeState { evidence: state.evidence, occurrences, counted: state.counted, caller }
        },
        _ => state,
    }
}

/// A state in which the chunk `chunk` is counted: it joins the evidence, or the chunks counted beyond
/// it where the evidence list has no room.
pub open spec fn with_chunk(e: EdgeView, chunk: Seq<char>, max_evidence: nat) -> EdgeView {
    let evidence = capped_push(e.evidence, chunk, max_evidence);
    EdgeView {
        evidence,
        occurrences: e.occurrences,
        counted: counted_with(evidence, e.counted, chunk),
        caller: e.caller,
    }
}

/// The state of an edge after one assertion by the chunk `chunk`.
pub open spec fn asserted(
    e: EdgeView,
    chunk: Seq<char>,
    props: Option<JsonView>,
    caps: FactCaps,
) -> EdgeView {
    merged_properties(
        with_chunk(e, chunk, caps.max_evidence as nat),
        props,
        caps.max_occurrences as nat,
    )
}

/// A support once `chunk` asserted the fact of an edge: it grows by one where the chunk is new to
/// the edge, up to the largest count.
pub open spec fn support_with(support: int, e: EdgeView, chunk: Seq<char>, most: int) -> int {
    if !is_counted(e.evidence, e.counted, chunk) && support < most {
        support + 1
    } else {
        support
    }
}

/// The stored support and properties of an edge.
#[derive(Debug)]
pub struct EdgeRow {
    /// The number of chunks that assert the fact.
    pub support: i64,
    /// The stored properties, where there are any.
    pub properties: Option<String>,
}

/// The stored text of properties; the empty text where there are none.
pub open spec fn stored_text(raw: Option<String>) -> Seq<char> {
    match raw {
        Some(s) => s@,
        None => seq![],
    }
}

/// The support and the stored text of an edge after one assertion by the chunk `chunk`. A new edge
/// has support 1; on an existing one the support grows by one exactly where the chunk is new to it.
pub open spec fn fact_merged(
    existing: Option<(int, Seq<char>)>,
    chunk: Seq<char>,
    props: Option<JsonView>,
    caps: FactCaps,
) -> (int, Seq<char>) {
    match existing {
        None => (1, edge_text(asserted(edge_state_of(seq![]), chunk, props, caps))),
        Some((support, raw)) => (
            support_with(support, edge_state_of(raw), chunk, i64::MAX as int),
            edge_text(asserted(edge_state_of(raw), chunk, props, caps)),
        ),
    }
}

/// The model of an optional stored edge.
pub open spec fn row_view(row: Option<&EdgeRow>) -> Option<(int, Seq<char>)> {
    match row {
        None => None,
        Some(r) => Some((r.support as int, stored_text(r.properties))),
    }
}

/// The model of optional properties.
pub open spec fn props_view(properties: Option<&Json>) -> Option<JsonView> {
    match properties {
        Some(j) => Some(j@),
        None => None,
    }
}

/// How an edge changes when a chunk asserts its fact: [`fact_merged`]. Answers the new support and
/// the new stored properties; a negative stored support is an error.
pub fn merge_fact(
    existing: Option<&EdgeRow>,
    evidence_chunk: &str,
    properties: Option<&Json>,
    caps: FactCaps,
) -> (res: Result<(i64, String), KnowledgeError>)
    requires
        properties is Some ==> properties->0.wf(),
    ensures
        if existing is Some && existing->0.support < 0 {
            &&& res is Err
            &&& res->Err_0 is Backend
            &&& res->Err_0->Backend_0@ == "FACT support count cannot be negative"@
        } else {
            &&& res is Ok
            &&& (res->Ok_0.0 as int, res->Ok_0.1@) == fact_merged(
                row_view(existing),
                evidence_chunk@,
                props_view(properties),
                caps,
            )
            &&& keeps_texts(
                res->Ok_0.1@,
                asserted(
                    edge_state_of(
                        match row_view(existing) {
                            None => seq![],
                            Some((_, raw)) => raw,
                        },
                    ),
                    evidence_chunk@,
                    props_view(properties),
                    caps,
                ),
            )
        },
{
    let (support, raw) = match existing {
        None => (0i64, String::new()),
        Some(row) => {
            if row.support < 0 {
                return Err(
                    KnowledgeError::Backend("FACT support count cannot be negative".to_owned()),
                );
            }
            (
                row.support,
                match &row.properties {
                    Some(s) => s.clone(),
                    None => String::new(),
                },
            )
        },
    };
    assert(raw@ =~= match existing {
        None => seq![],
        Some(row) => stored_text(row.properties),
    });
    let mut state = edge_state(raw.as_str());
    let known = contains_text(&state.evidence, evidence_chunk) || contains_text(
        &state.counted,
        evidence_chunk,
    );
    let _ = push_capped(&mut state.evidence, evidence_chunk, caps.max_evidence);
    count_chunk(&state.evidence, &mut state.counted, evidence_chunk);
    let merged = merge_properties(state, properties, caps);
    let text = edge_json(merged);
    let new_support: i64 = match existing {
        None => 1,
        Some(_) => if !known && support < i64::MAX {
            support + 1
        } else {
            support
        },
    };
    Ok((new_support, text))
}

// ---------------------------------------------------------------------------------------------
// Merging one assertion: the remote store.
// ---------------------------------------------------------------------------------------------
/// An object with the properties of another laid over it, all but the reserved ones.
pub open spec fn overlaid(
    base: Map<Seq<char>, ValueView>,
    incoming: Map<Seq<char>, ValueView>,
) -> Map<Seq<char>, ValueView> {
    base.union_prefer_right(
        incoming.remove(EVIDENCE_KEY@).remove(OCCURRENCES_KEY@).remove(OCCURRED_ON_KEY@),
    )
}

fn overlay(base: Vec<Property>, incoming: &Vec<Property>) -> (res: Vec<Property>)
    requires
        distinct_keys(base@),
        distinct_keys(incoming@),
    ensures
        distinct_keys(res@),
        object_of(res@) == overlaid(object_of(base@), object_of(incoming@)),
{
    let ghost start = object_of(base@);
    let mut res = base;
    let mut i: usize = 0;
    assert(overlaid(start, object_of(incoming@.take(0))) =~= start);
    while i < incoming.len()
        invariant
            i <= incoming@.len(),
            distinct_keys(res@),
            distinct_keys(incoming@),
            object_of(res@) == overlaid(start, object_of(incoming@.take(i as int))),
        decreases incoming@.len() - i,
    {
        let p = &incoming[i];
        let ghost seen = object_of(incoming@.take(i as int));
        let ghost next = object_of(incoming@.take(i + 1));
        assert(incoming@.take(i + 1).drop_last() =~= incoming@.take(i as int));
        assert(next == seen.insert(p.key@, p.value@));
        if !same(p.key.as_str(), EVIDENCE_KEY) && !same(p.key.as_str(), OCCURRENCES_KEY) && !same(
            p.key.as_str(),
            OCCURRED_ON_KEY,
        ) {
            res = with_property(res, p.key.as_str(), copy_value(&p.value));
            assert(overlaid(start, next) =~= overlaid(start, seen).insert(p.key@, p.value@));
        } else {
            assert(overlaid(start, next) =~= overlaid(start, seen));
        }
        i = i + 1;
    }
    assert(incoming@.take(i as int) =~= incoming@);
    res
}

/// The state of a remote edge after one assertion by the chunk `chunk`: the caller's properties of
/// the assertion replace those of the edge.
pub open spec fn remotely_asserted(
    e: EdgeView,
    chunk: Seq<char>,
    props: Option<JsonView>,
    caps: FactCaps,
) -> EdgeView {
    let counted = with_chunk(e, chunk, caps.max_evidence as nat);
    match props {
        None => counted,
        Some(props) => EdgeView {
            evidence: counted.evidence,
            counted: counted.counted,
            occurrences: capped_union(
                e.occurrences,
                one_or_listed(json_property(props, OCCURRED_ON_KEY@)),
                caps.max_occurrences as nat,
            ),
            caller: match (e.caller, props) {
                (JsonView::Object(base), JsonView::Object(incoming)) => JsonView::Object(
                    overlaid(base, incoming),
                ),
                _ => e.caller,
            },
        },
    }
}

/// The text that stores the state of a remote edge. Own properties that are no object stand alone.
pub open spec fn remote_edge_text(e: EdgeView) -> Seq<char> {
    match e.caller {
        JsonView::Object(object) => object_text(state_object(e, object)),
        JsonView::Other(s) => s,
    }
}

/// Whether a text reads back as the object that stores the state of a remote edge, where that is an object
/// that holds texts alone.
pub open spec fn keeps_object(text: Seq<char>, e: EdgeView) -> bool {
    e.caller is Object ==> keeps_texts(text, e)
}

fn remote_edge_json(state: EdgeState) -> (res: String)
    requires
        state.caller.wf(),
    ensures
        res@ == remote_edge_text(state@),
        keeps_object(res@, state@),
{
    let ghost view = state@;
    match state.caller {
        Json::Object(entries) => render_state(
            &state.evidence,
            &state.occurrences,
            &state.counted,
            entries,
            Ghost(view),
        ),
        Json::Other(s) => s,
    }
}

/// How a remote edge changes when a chunk asserts its fact: the support grows by one exactly where
/// the chunk is new to the edge, up to the largest count.
pub fn merge_new_assertion(
    existing_properties: Option<&str>,
    existing_support: u64,
    evidence_chunk: &str,
    properties: Option<&Json>,
    caps: FactCaps,
) -> (res: (u64, String))
    requires
        properties is Some ==> properties->0.wf(),
    ensures
        ({
            let state = edge_state_of(text_or_none(existing_properties));
            &&& res.0 == support_with(
                existing_support as int,
                state,
                evidence_chunk@,
                u64::MAX as int,
            )
            &&& res.1@ == remote_edge_text(
                remotely_asserted(state, evidence_chunk@, props_view(properties), caps),
            )
            &&& keeps_object(
                res.1@,
                remotely_asserted(state, evidence_chunk@, props_view(properties), caps),
            )
        }),
{
    let state = match existing_properties {
        Some(s) => edge_state(s),
        None => {
            let empty = String::new();
            edge_state(empty.as_str())
        },
    };
    let is_new = !contains_text(&state.evidence, evidence_chunk) && !contains_text(
        &state.counted,
        evidence_chunk,
    );
    let mut evidence = state.evidence;
    let _ = push_capped(&mut evidence, evidence_chunk, caps.max_evidence);
    let mut counted = state.counted;
    count_chunk(&evidence, &mut counted, evidence_chunk);
    let mut occurrences = state.occurrences;
    let caller = match properties {
        None => state.caller,
        Some(props) => {
            let dates = string_or_list(json_get(props, OCCURRED_ON_KEY));
            union_capped(&mut occurrences, &dates, caps.max_occurrences);
            match (state.caller, props) {
                (Json::Object(base), Json::Object(incoming)) => Json::Object(
                    overlay(base, incoming),
                ),
                (caller, _) => caller,
            }
        },
    };
    let text = remote_edge_json(EdgeState { evidence, occurrences, counted, caller });
    let support = if is_new && existing_support < u64::MAX {
        existing_support + 1
    } else {
        existing_support
    };
    (support, text)
}

// ---------------------------------------------------------------------------------------------
// Merging two edges.
// ---------------------------------------------------------------------------------------------
/// The union of the lists of two states.
pub open spec fn united(left: EdgeView, right: EdgeView, caller: JsonView) -> EdgeView {
    EdgeView {
        evidence: capped_union(left.evidence, right.evidence, usize::MAX as nat),
        occurrences: capped_union(left.occurrences, right.occurrences, usize::MAX as nat),
        counted: capped_union(left.counted, right.counted, usize::MAX as nat),
        caller,
    }
}

/// The properties of one object kept and those of another added, but `as_of`, which keeps the later
/// value.
pub open spec fn kept_properties(
    left: Map<Seq<char>, ValueView>,
    right: Map<Seq<char>, ValueView>,
) -> Map<Seq<char>, ValueView> {
    let later = is_later(property(left, AS_OF_KEY@), property(right, AS_OF_KEY@));
    let rest = right.remove(AS_OF_KEY@).union_prefer_right(left);
    if later {
        rest.insert(AS_OF_KEY@, right[AS_OF_KEY@])
    } else {
        rest
    }
}

/// The state of two edges merged into one in the embedded store.
pub open spec fn folded_edge(left: EdgeView, right: EdgeView) -> EdgeView {
    united(
        left,
        right,
        match (left.caller, right.caller) {
            (JsonView::Object(l), JsonView::Object(r)) => JsonView::Object(kept_properties(l, r)),
            _ => left.caller,
        },
    )
}

/// The state of two edges merged into one in the remote store.
pub open spec fn remotely_folded_edge(left: EdgeView, right: EdgeView) -> EdgeView {
    united(
        left,
        right,
        match (left.caller, right.caller) {
            (JsonView::Object(l), JsonView::Object(r)) => JsonView::Object(l.union_prefer_right(r)),
            _ => left.caller,
        },
    )
}

/// The stored text of optional properties; the empty text where there are none.
pub open spec fn text_or_none(raw: Option<&str>) -> Seq<char> {
    match raw {
        Some(s) => s@,
        None => seq![],
    }
}

fn keep_properties(left: Vec<Property>, right: &Vec<Property>) -> (res: Vec<Property>)
    requires
        distinct_keys(left@),
        distinct_keys(right@),
    ensures
        distinct_keys(res@),
        object_of(res@) == kept_properties(object_of(left@), object_of(right@)),
{
    let ghost start = object_of(left@);
    let later = later_text(get(&left, AS_OF_KEY), get(right, AS_OF_KEY));
    let mut res = left;
    let mut i: usize = 0;
    let ghost as_of = AS_OF_KEY@;
    assert(object_of(right@.take(0)).remove(as_of).union_prefer_right(start) =~= start);
    while i < right.len()
        invariant
            i <= right@.len(),
            distinct_keys(res@),
            distinct_keys(right@),
            as_of == AS_OF_KEY@,
            object_of(res@) == object_of(right@.take(i as int)).remove(as_of).union_prefer_right(
                start,
            ),
        decreases right@.len() - i,
    {
        let p = &right[i];
        let ghost seen = object_of(right@.take(i as int));
        let ghost next = object_of(right@.take(i + 1));
        assert(right@.take(i + 1).drop_last() =~= right@.take(i as int));
        assert(next == seen.insert(p.key@, p.value@));
        proof {
            lemma_object_of(right@.take(i as int));
            if seen.contains_key(p.key@) {
                let j = choose|j: int|
                    0 <= j < i && (#[trigger] right@.take(i as int)[j]).key@ == p.key@;
                assert(right@[j].key@ == right@[i as int].key@);
            }
        }
        if !same(p.key.as_str(), AS_OF_KEY) && get(&res, p.key.as_str()).is_none() {
            assert(!start.contains_key(p.key@));
            res = with_property(res, p.key.as_str(), copy_value(&p.value));
            assert(next.remove(as_of).union_prefer_right(start) =~= seen.remove(
                as_of,
            ).union_prefer_right(start).insert(p.key@, p.value@));
        } else {
            assert(p.key@ == as_of || start.contains_key(p.key@));
            assert(next.remove(as_of).union_prefer_right(start) =~= seen.remove(
                as_of,
            ).union_prefer_right(start));
        }
        i = i + 1;
    }
    assert(right@.take(i as int) =~= right@);
    match later {
        Some(s) => with_property(res, AS_OF_KEY, PropertyValue::Text(s)),
        None => res,
    }
}

fn replace_properties(left: Vec<Property>, right: &Vec<Property>) -> (res: Vec<Property>)
    requires
        distinct_keys(left@),
        distinct_keys(right@),
    ensures
        distinct_keys(res@),
        object_of(res@) == object_of(left@).union_prefer_right(object_of(right@)),
{
    let ghost start = object_of(left@);
    let mut res = left;
    let mut i: usize = 0;
    assert(start.union_prefer_right(object_of(right@.take(0))) =~= start);
    while i < right.len()
        invariant
            i <= right@.len(),
            distinct_keys(res@),
            object_of(res@) == start.union_prefer_right(object_of(right@.take(i as int))),
        decreases right@.len() - i,
    {
        let p = &right[i];
        let ghost seen = object_of(right@.take(i as int));
        assert(right@.take(i + 1).drop_last() =~= right@.take(i as int));
        res = with_property(res, p.key.as_str(), copy_value(&p.value));
        assert(start.union_prefer_right(seen.insert(p.key@, p.value@)) =~= start.union_prefer_right(
            seen,
        ).insert(p.key@, p.value@));
        i = i + 1;
    }
    assert(right@.take(i as int) =~= right@);
    res
}

fn state_of_optional(raw: Option<&str>) -> (res: EdgeState)
    ensures
        res@ == edge_state_of(text_or_none(raw)),
        res.caller.wf(),
{
    match raw {
        Some(s) => edge_state(s),
        None => {
            let empty = String::new();
            edge_state(empty.as_str())
        },
    }
}

/// Unions the stored properties of two edges of the embedded store.
pub fn merge_edge_properties(left: Option<&str>, right: Option<&str>) -> (res: String)
    ensures
        res@ == edge_text(
            folded_edge(edge_state_of(text_or_none(left)), edge_state_of(text_or_none(right))),
        ),
        keeps_texts(
            res@,
            folded_edge(edge_state_of(text_or_none(left)), edge_state_of(text_or_none(right))),
        ),
{
    let l = state_of_optional(left);
    let r = state_of_optional(right);
    let mut evidence = l.evidence;
    union_capped(&mut evidence, &r.evidence, usize::MAX);
    let mut occurrences = l.occurrences;
    union_capped(&mut occurrences, &r.occurrences, usize::MAX);
    let mut counted = l.counted;
    union_capped(&mut counted, &r.counted, usize::MAX);
    let caller = match (l.caller, &r.caller) {
        (Json::Object(a), Json::Object(b)) => Json::Object(keep_properties(a, b)),
        (caller, _) => caller,
    };
    edge_json(EdgeState { evidence, occurrences, counted, caller })
}

/// Unions the stored properties of two edges of the remote store.
pub fn merge_remote_edge_properties(existing: Option<&str>, incoming: Option<&str>) -> (res: String)
    ensures
        res@ == remote_edge_text(
            remotely_folded_edge(
                edge_state_of(text_or_none(existing)),
                edge_state_of(text_or_none(incoming)),
            ),
        ),
        keeps_object(
            res@,
            remotely_folded_edge(
                edge_state_of(text_or_none(existing)),
                edge_state_of(text_or_none(incoming)),
            ),
        ),
{
    let l = state_of_optional(existing);
    let r = state_of_optional(incoming);
    let mut evidence = l.evidence;
    union_capped(&mut evidence, &r.evidence, usize::MAX);
    let mut occurrences = l.occurrences;
    union_capped(&mut occurrences, &r.occurrences, usize::MAX);
    let mut counted = l.counted;
    union_capped(&mut counted, &r.counted, usize::MAX);
    let caller = match (l.caller, &r.caller) {
        (Json::Object(a), Json::Object(b)) => Json::Object(replace_properties(a, b)),
        (caller, _) => caller,
    };
    remote_edge_json(EdgeState { evidence, occurrences, counted, caller })
}


// ---------------------------------------------------------------------------------------------
// Laws.
// ---------------------------------------------------------------------------------------------
pub(crate) proof fn lemma_capped_union(list: Seq<Seq<char>>, items: Seq<Seq<char>>, max: nat)
    ensures
        list.len() <= capped_union(list, items, max).len(),
        capped_union(list, items, max).take(list.len() as int) == list,
        capped_union(list, items, max).len() <= if list.len() > max {
            list.len()
        } else {
            max
        },
        forall|i: int|
            0 <= i < items.len() ==> capped_union(list, items, max).contains(#[trigger] items[i])
                || capped_union(list, items, max).len() >= max,
    decreases items.len(),
{
    if items.len() == 0 {
        assert(list.take(list.len() as int) =~= list);
    } else {
        let rest = items.drop_last();
        let before = capped_union(list, rest, max);
        let after = capped_union(list, items, max);
        lemma_capped_union(list, rest, max);
        lemma_push_contains(before, items.last());
        assert(after.take(list.len() as int) =~= before.take(list.len() as int));
        assert forall|i: int| 0 <= i < items.len() implies after.contains(#[trigger] items[i])
            || after.len() >= max by {
            if i < items.len() - 1 {
                assert(rest[i] == items[i]);
            }
        }
    }
}

pub(crate) proof fn lemma_capped_union_noop(list: Seq<Seq<char>>, items: Seq<Seq<char>>, max: nat)
    requires
        forall|i: int| 0 <= i < items.len() ==> list.contains(#[trigger] items[i]) || list.len() >= max,
    ensures
        capped_union(list, items, max) == list,
    decreases items.len(),
{
    if items.len() > 0 {
        let rest = items.drop_last();
        assert forall|i: int| 0 <= i < rest.len() implies list.contains(#[trigger] rest[i])
            || list.len() >= max by {
            assert(rest[i] == items[i]);
        }
        lemma_capped_union_noop(list, rest, max);
        assert(items[items.len() - 1] == items.last());
    }
}

/// The lists of an edge stay within their bounds: merging an assertion never grows one past its
/// bound, and never drops what it held.
pub proof fn law_lists_stay_bounded(
    e: EdgeView,
    chunk: Seq<char>,
    props: Option<JsonView>,
    caps: FactCaps,
)
    requires
        e.evidence.len() <= caps.max_evidence,
        e.occurrences.len() <= caps.max_occurrences,
    ensures
        asserted(e, chunk, props, caps).evidence.len() <= caps.max_evidence,
        asserted(e, chunk, props, caps).occurrences.len() <= caps.max_occurrences,
        asserted(e, chunk, props, caps).evidence.take(e.evidence.len() as int) == e.evidence,
        asserted(e, chunk, props, caps).occurrences.take(e.occurrences.len() as int)
            == e.occurrences,
{
    let after = asserted(e, chunk, props, caps);
    assert(after.evidence.take(e.evidence.len() as int) =~= e.evidence);
    if let Some(JsonView::Object(incoming)) = props {
        lemma_capped_union(
            e.occurrences,
            one_or_listed(property(incoming, OCCURRED_ON_KEY@)),
            caps.max_occurrences as nat,
        );
    }
    assert(e.occurrences.take(e.occurrences.len() as int) =~= e.occurrences);
}

/// Replaying an assertion changes nothing of the state that the first merge left, on an embedded and
/// on a remote edge.
pub proof fn law_replay_keeps_the_state(
    e: EdgeView,
    chunk: Seq<char>,
    props: Option<JsonView>,
    caps: FactCaps,
)
    ensures
        asserted(asserted(e, chunk, props, caps), chunk, props, caps) == asserted(
            e,
            chunk,
            props,
            caps,
        ),
        remotely_asserted(remotely_asserted(e, chunk, props, caps), chunk, props, caps)
            == remotely_asserted(e, chunk, props, caps),
{
    let once = asserted(e, chunk, props, caps);
    let twice = asserted(once, chunk, props, caps);
    let far = remotely_asserted(e, chunk, props, caps);
    let farther = remotely_asserted(far, chunk, props, caps);
    lemma_push_contains(e.evidence, chunk);
    lemma_push_contains(e.counted, chunk);
    assert(twice.evidence == once.evidence && twice.counted == once.counted);
    assert(farther.evidence == far.evidence && farther.counted == far.counted);
    if let Some(p) = props {
        let dates = one_or_listed(json_property(p, OCCURRED_ON_KEY@));
        lemma_capped_union(e.occurrences, dates, caps.max_occurrences as nat);
        lemma_capped_union_noop(far.occurrences, dates, caps.max_occurrences as nat);
    }
    if let Some(JsonView::Object(incoming)) = props {
        if let JsonView::Object(stored) = once.caller {
            crate::text::lemma_text_less_total(
                text_or_empty(property(incoming, AS_OF_KEY@)),
                text_or_empty(property(stored, AS_OF_KEY@)),
            );
            assert(!is_later(property(stored, AS_OF_KEY@), property(incoming, AS_OF_KEY@)));
        }
        if let JsonView::Object(base) = e.caller {
            assert(overlaid(overlaid(base, incoming), incoming) =~= overlaid(base, incoming));
        }
    }
}

/// A chunk counts once: however full the evidence list is, its assertion is no longer new once it
/// was merged, and a replay leaves the support as it is.
pub proof fn law_a_chunk_counts_once(
    e: EdgeView,
    chunk: Seq<char>,
    props: Option<JsonView>,
    caps: FactCaps,
    support: int,
    most: int,
)
    ensures
        ({
            let once = support_with(support, e, chunk, most);
            &&& support_with(once, asserted(e, chunk, props, caps), chunk, most) == once
            &&& support_with(once, remotely_asserted(e, chunk, props, caps), chunk, most) == once
        }),
{
    lemma_push_contains(e.evidence, chunk);
    lemma_push_contains(e.counted, chunk);
}

/// The chunks that an edge has counted.
pub open spec fn known_chunks(e: EdgeView) -> Set<Seq<char>> {
    e.evidence.to_set().union(e.counted.to_set())
}

/// The support reflects every distinct chunk: an assertion adds its chunk to those that were counted,
/// and the support grows as their number does.
pub proof fn law_support_counts_distinct_chunks(
    e: EdgeView,
    chunk: Seq<char>,
    props: Option<JsonView>,
    caps: FactCaps,
    support: int,
    most: int,
)
    requires
        support < most,
    ensures
        known_chunks(asserted(e, chunk, props, caps)) == known_chunks(e).insert(chunk),
        known_chunks(remotely_asserted(e, chunk, props, caps)) == known_chunks(e).insert(chunk),
        support_with(support, e, chunk, most) - support == known_chunks(e).insert(chunk).len()
            - known_chunks(e).len(),
{
    let counted = with_chunk(e, chunk, caps.max_evidence as nat);
    lemma_push_contains(e.evidence, chunk);
    lemma_push_contains(e.counted, chunk);
    assert forall|c: Seq<char>|
        is_counted(counted.evidence, counted.counted, c) <==> is_counted(
            e.evidence,
            e.counted,
            c,
        ) || c == chunk by {}
    assert(known_chunks(counted) =~= known_chunks(e).insert(chunk));
    assert(known_chunks(asserted(e, chunk, props, caps)) =~= known_chunks(counted));
    assert(known_chunks(remotely_asserted(e, chunk, props, caps)) =~= known_chunks(counted));
    assert(is_counted(e.evidence, e.counted, chunk) <==> known_chunks(e).contains(chunk));
    vstd::seq_lib::seq_to_set_is_finite(e.evidence);
    vstd::seq_lib::seq_to_set_is_finite(e.counted);
}

/// `as_of` never goes back: after an assertion the stored value is no earlier than the value before
/// nor than the asserted one.
pub proof fn law_as_of_keeps_the_latest(
    e: EdgeView,
    chunk: Seq<char>,
    stored: Map<Seq<char>, ValueView>,
    incoming: Map<Seq<char>, ValueView>,
    date: Seq<char>,
    caps: FactCaps,
)
    requires
        e.caller == JsonView::Object(stored),
        property(incoming, AS_OF_KEY@) == Some(ValueView::Text(date)),
    ensures
        ({
            let after = asserted(e, chunk, Some(JsonView::Object(incoming)), caps);
            let now = text_or_empty(json_property(after.caller, AS_OF_KEY@));
            &&& !text_less(now, date)
            &&& !text_less(now, text_or_empty(property(stored, AS_OF_KEY@)))
        }),
{
    let before = text_or_empty(property(stored, AS_OF_KEY@));
    crate::text::lemma_text_less_total(before, date);
    crate::text::lemma_text_less_total(date, date);
}

proof fn lemma_listed_array(items: Seq<Seq<char>>)
    ensures
        element_texts(items.map_values(|s: Seq<char>| ElementView::Text(s))) == items,
    decreases items.len(),
{
    let image = items.map_values(|s: Seq<char>| ElementView::Text(s));
    if items.len() > 0 {
        let rest = items.drop_last();
        lemma_listed_array(rest);
        assert(image.drop_last() =~= rest.map_values(|s: Seq<char>| ElementView::Text(s)));
        assert(image.last() == ElementView::Text(items.last()));
        assert(rest.push(items.last()) =~= items);
    } else {
        assert(items =~= seq![]);
    }
}

/// Whether no property has a reserved name.
pub open spec fn owns_no_reserved(own: Map<Seq<char>, ValueView>) -> bool {
    &&& !own.contains_key(EVIDENCE_KEY@)
    &&& !own.contains_key(OCCURRENCES_KEY@)
    &&& !own.contains_key(OCCURRED_ON_KEY@)
}

proof fn lemma_reserved_names()
    ensures
        EVIDENCE_KEY@ != OCCURRENCES_KEY@,
        AS_OF_KEY@ != EVIDENCE_KEY@,
        AS_OF_KEY@ != OCCURRENCES_KEY@,
        AS_OF_KEY@ != OCCURRED_ON_KEY@,
        OCCURRED_ON_KEY@ != EVIDENCE_KEY@,
        OCCURRED_ON_KEY@ != OCCURRENCES_KEY@,
{
    reveal_strlit("evidence");
    reveal_strlit("occurrences");
    reveal_strlit("occurred_on");
    reveal_strlit("as_of");
    assert("evidence"@.len() == 8 && "occurrences"@.len() == 11 && "occurred_on"@.len() == 11);
    assert("as_of"@.len() == 5);
    assert("occurrences"@[7] == 'n' && "occurred_on"@[7] == 'd');
}

/// A stored state is read back as it was, wherever its text reads back as the object it was written
/// from.
pub proof fn law_stored_state_reads_back(e: EdgeView, own: Map<Seq<char>, ValueView>)
    requires
        e.caller == JsonView::Object(own),
        owns_no_reserved(own),
        reads_as(edge_text(e), JsonView::Object(state_object(e, own))),
    ensures
        edge_state_of(edge_text(e)) == e,
{
    lemma_reserved_names();
    lemma_listed_array(e.evidence);
    lemma_listed_array(e.occurrences);
    lemma_listed_array(e.counted);
    let stored = state_object(e, own);
    assert(stored.remove(EVIDENCE_KEY@).remove(OCCURRENCES_KEY@).remove(OCCURRED_ON_KEY@) =~= own);
    if e.counted.len() == 0 {
        assert(e.counted =~= seq![]);
    }
}

/// Of a stored state callers see their own properties, the evidence and the occurrences, and nothing
/// else.
pub proof fn law_counted_chunks_are_not_shown(e: EdgeView, own: Map<Seq<char>, ValueView>)
    requires
        owns_no_reserved(own),
    ensures
        shown_json(JsonView::Object(state_object(e, own))) == JsonView::Object(
            own.insert(EVIDENCE_KEY@, array_of(e.evidence)).insert(
                OCCURRENCES_KEY@,
                array_of(e.occurrences),
            ),
        ),
{
    lemma_reserved_names();
    assert(state_object(e, own).remove(OCCURRED_ON_KEY@) =~= own.insert(
        EVIDENCE_KEY@,
        array_of(e.evidence),
    ).insert(OCCURRENCES_KEY@, array_of(e.occurrences)));
}

/// Merging is replay-safe end to end: an assertion merged into the stored outcome of the same
/// assertion leaves its support and its text as they are, wherever that text reads back as written.
/// The properties stored before, if any, are an object.
pub proof fn law_replayed_assertion_changes_nothing(
    existing: Option<(int, Seq<char>)>,
    chunk: Seq<char>,
    props: Option<JsonView>,
    caps: FactCaps,
)
    requires
        ({
            let before = edge_state_of(
                match existing {
                    None => seq![],
                    Some((_, raw)) => raw,
                },
            );
            let once = asserted(before, chunk, props, caps);
            &&& before.caller is Object
            &&& reads_as(
                edge_text(once),
                JsonView::Object(state_object(once, object_or_empty(once.caller))),
            )
        }),
    ensures
        fact_merged(Some(fact_merged(existing, chunk, props, caps)), chunk, props, caps)
            == fact_merged(existing, chunk, props, caps),
{
    let before = edge_state_of(
        match existing {
            None => seq![],
            Some((_, raw)) => raw,
        },
    );
    let once = asserted(before, chunk, props, caps);
    lemma_reserved_names();
    law_stored_state_reads_back(once, object_or_empty(once.caller));
    law_replay_keeps_the_state(before, chunk, props, caps);
    let support = match existing {
        None => 0,
        Some((n, _)) => n,
    };
    law_a_chunk_counts_once(before, chunk, props, caps, support, i64::MAX as int);
    if existing is None {
        lemma_push_contains(before.evidence, chunk);
        lemma_push_contains(before.counted, chunk);
        assert(is_counted(once.evidence, once.counted, chunk));
    }
}

/// The same holds of a remote edge: an assertion merged into the stored outcome of the same assertion
/// leaves its support and its text as they are, wherever that text reads back as written.
pub proof fn law_replayed_remote_assertion_changes_nothing(
    raw: Seq<char>,
    support: int,
    chunk: Seq<char>,
    props: Option<JsonView>,
    caps: FactCaps,
)
    requires
        ({
            let once = remotely_asserted(edge_state_of(raw), chunk, props, caps);
            &&& edge_state_of(raw).caller is Object
            &&& reads_as(
                edge_text(once),
                JsonView::Object(state_object(once, object_or_empty(once.caller))),
            )
        }),
    ensures
        ({
            let once = remotely_asserted(edge_state_of(raw), chunk, props, caps);
            let stored = edge_state_of(remote_edge_text(once));
            let counted = support_with(support, edge_state_of(raw), chunk, u64::MAX as int);
            &&& remote_edge_text(remotely_asserted(stored, chunk, props, caps))
                == remote_edge_text(once)
            &&& support_with(counted, stored, chunk, u64::MAX as int) == counted
        }),
{
    let before = edge_state_of(raw);
    let once = remotely_asserted(before, chunk, props, caps);
    lemma_reserved_names();
    assert(once.caller is Object);
    assert(owns_no_reserved(object_or_empty(once.caller)));
    law_stored_state_reads_back(once, object_or_empty(once.caller));
    law_replay_keeps_the_state(before, chunk, props, caps);
    law_a_chunk_counts_once(before, chunk, props, caps, support, u64::MAX as int);
}

// ---------------------------------------------------------------------------------------------
// Folding one entity into another.
// ---------------------------------------------------------------------------------------------
/// A fact edge of the folded entity: its other endpoint, predicate, support and properties.
#[derive(Debug)]
pub struct FactRow {
    /// The other endpoint.
    pub other: String,
    /// The predicate.
    pub predicate: String,
    /// The support.
    pub support: i64,
    /// The stored properties.
    pub properties: Option<String>,
}

/// A fact edge to move to the kept entity.
#[derive(Debug)]
pub struct FactTransfer {
    /// The subject.
    pub subject_id: String,
    /// The predicate.
    pub predicate: String,
    /// The object.
    pub object_id: String,
    /// The support.
    pub support: i64,
    /// The stored properties.
    pub properties: Option<String>,
}

/// The model of a [`FactTransfer`].
pub struct TransferView {
    pub subject: Seq<char>,
    pub predicate: Seq<char>,
    pub object: Seq<char>,
    pub support: int,
    pub properties: Option<Seq<char>>,
}

impl View for FactTransfer {
    type V = TransferView;

    open spec fn view(&self) -> TransferView {
        TransferView {
            subject: self.subject_id@,
            predicate: self.predicate@,
            object: self.object_id@,
            support: self.support as int,
            properties: crate::text::opt_text(self.properties),
        }
    }
}

/// The identity of a fact.
pub open spec fn transfer_key(t: TransferView) -> (Seq<char>, Seq<char>, Seq<char>) {
    (t.subject, t.predicate, t.object)
}

/// The order of fact identities.
pub open spec fn triple_less(
    a: (Seq<char>, Seq<char>, Seq<char>),
    b: (Seq<char>, Seq<char>, Seq<char>),
) -> bool {
    ||| text_less(a.0, b.0)
    ||| a.0 == b.0 && text_less(a.1, b.1)
    ||| a.0 == b.0 && a.1 == b.1 && text_less(a.2, b.2)
}

proof fn lemma_triple_less(
    a: (Seq<char>, Seq<char>, Seq<char>),
    b: (Seq<char>, Seq<char>, Seq<char>),
    c: (Seq<char>, Seq<char>, Seq<char>),
)
    ensures
        triple_less(a, b) || triple_less(b, a) || a == b,
        !(triple_less(a, b) && triple_less(b, a)),
        !triple_less(a, a),
        triple_less(a, b) && triple_less(b, c) ==> triple_less(a, c),
{
    crate::text::lemma_text_less_total(a.0, b.0);
    crate::text::lemma_text_less_total(a.1, b.1);
    crate::text::lemma_text_less_total(a.2, b.2);
    crate::text::lemma_text_less_total(b.0, c.0);
    crate::text::lemma_text_less_total(b.1, c.1);
    if text_less(a.0, b.0) && text_less(b.0, c.0) {
        crate::text::lemma_text_less_trans(a.0, b.0, c.0);
    }
    if text_less(a.1, b.1) && text_less(b.1, c.1) {
        crate::text::lemma_text_less_trans(a.1, b.1, c.1);
    }
    if text_less(a.2, b.2) && text_less(b.2, c.2) {
        crate::text::lemma_text_less_trans(a.2, b.2, c.2);
    }
}

/// The sum of two counts, held to the range of stored counts.
pub open spec fn saturated(a: int, b: int) -> int {
    if a + b > i64::MAX {
        i64::MAX as int
    } else if a + b < i64::MIN {
        i64::MIN as int
    } else {
        a + b
    }
}

/// Computes [`saturated`].
pub fn saturating_sum(a: i64, b: i64) -> (res: i64)
    ensures
        res == saturated(a as int, b as int),
{
    let sum: i128 = a as i128 + b as i128;
    if sum > i64::MAX as i128 {
        i64::MAX
    } else if sum < i64::MIN as i128 {
        i64::MIN
    } else {
        sum as i64
    }
}

/// The text of merged properties.
pub open spec fn folded_text(left: Option<Seq<char>>, right: Option<Seq<char>>) -> Seq<char> {
    let l = match left {
        Some(s) => s,
        None => seq![],
    };
    let r = match right {
        Some(s) => s,
        None => seq![],
    };
    edge_text(folded_edge(edge_state_of(l), edge_state_of(r)))
}

/// The other endpoint of a row once `loser` is folded into `winner`.
pub open spec fn moved_endpoint(row: FactRow, loser: Seq<char>, winner: Seq<char>) -> Seq<char> {
    if row.other@ == loser {
        winner
    } else {
        row.other@
    }
}

/// A row as it moves from `loser` to `winner`: an outgoing row keeps its object, an incoming one its
/// subject, but where that is `loser` itself it is `winner` too.
pub open spec fn transferred(
    row: FactRow,
    loser: Seq<char>,
    winner: Seq<char>,
    outgoing: bool,
) -> TransferView {
    let other = moved_endpoint(row, loser, winner);
    TransferView {
        subject: if outgoing {
            winner
        } else {
            other
        },
        predicate: row.predicate@,
        object: if outgoing {
            other
        } else {
            winner
        },
        support: row.support as int,
        properties: crate::text::opt_text(row.properties),
    }
}

/// Rows as they move from `loser` to `winner`. A fact of `loser` with itself is an outgoing and an
/// incoming row; it is taken from the outgoing ones alone.
pub open spec fn moved_rows(
    rows: Seq<FactRow>,
    loser: Seq<char>,
    winner: Seq<char>,
    outgoing: bool,
) -> Seq<TransferView>
    decreases rows.len(),
{
    if rows.len() == 0 {
        seq![]
    } else {
        let before = moved_rows(rows.drop_last(), loser, winner, outgoing);
        if !outgoing && rows.last().other@ == loser {
            before
        } else {
            before.push(transferred(rows.last(), loser, winner, outgoing))
        }
    }
}

/// All rows as they move from `loser` to `winner`, the outgoing ones first.
pub open spec fn all_transfers(
    outgoing: Seq<FactRow>,
    incoming: Seq<FactRow>,
    loser: Seq<char>,
    winner: Seq<char>,
) -> Seq<TransferView> {
    moved_rows(outgoing, loser, winner, true) + moved_rows(incoming, loser, winner, false)
}

/// The support and properties that the rows of identity `k` add up to.
pub open spec fn combined(
    rows: Seq<TransferView>,
    k: (Seq<char>, Seq<char>, Seq<char>),
) -> Option<(int, Option<Seq<char>>)>
    decreases rows.len(),
{
    if rows.len() == 0 {
        None
    } else {
        let before = combined(rows.drop_last(), k);
        let row = rows.last();
        if transfer_key(row) != k {
            before
        } else {
            match before {
                None => Some((row.support, row.properties)),
                Some((support, properties)) => Some(
                    (saturated(support, row.support), Some(folded_text(properties, row.properties))),
                ),
            }
        }
    }
}

/// Whether `ts` lists the facts that `rows` add up to: one for each identity, in order.
pub open spec fn transfers_of(rows: Seq<TransferView>, ts: Seq<TransferView>) -> bool {
    &&& forall|i: int, j: int|
        0 <= i < j < ts.len() ==> triple_less(
            transfer_key(#[trigger] ts[i]),
            transfer_key(#[trigger] ts[j]),
        )
    &&& forall|i: int|
        0 <= i < ts.len() ==> combined(rows, transfer_key(#[trigger] ts[i])) == Some(
            (ts[i].support, ts[i].properties),
        )
    &&& forall|k: (Seq<char>, Seq<char>, Seq<char>)| #[trigger]
        combined(rows, k) is Some ==> exists|i: int|
            0 <= i < ts.len() && transfer_key(#[trigger] ts[i]) == k
}

/// The models of a list of transfers.
pub open spec fn transfer_views(v: Seq<FactTransfer>) -> Seq<TransferView> {
    v.map_values(|t: FactTransfer| t@)
}

fn triple_before(a: &FactTransfer, b: &FactTransfer) -> (res: bool)
    ensures
        res == triple_less(transfer_key(a@), transfer_key(b@)),
{
    if !same(a.subject_id.as_str(), b.subject_id.as_str()) {
        proof {
            crate::text::lemma_text_less_total(a.subject_id@, b.subject_id@);
        }
        return less(a.subject_id.as_str(), b.subject_id.as_str());
    }
    proof {
        crate::text::lemma_text_less_total(a.subject_id@, a.subject_id@);
    }
    if !same(a.predicate.as_str(), b.predicate.as_str()) {
        return less(a.predicate.as_str(), b.predicate.as_str());
    }
    proof {
        crate::text::lemma_text_less_total(a.predicate@, a.predicate@);
    }
    less(a.object_id.as_str(), b.object_id.as_str())
}

fn opt_str(s: &Option<String>) -> (res: Option<&str>)
    ensures
        match res {
            Some(t) => *s is Some && t@ == s->0@,
            None => *s is None,
        },
{
    match s {
        Some(t) => Some(t.as_str()),
        None => None,
    }
}

fn add_transfer(ts: &mut Vec<FactTransfer>, row: FactTransfer, rows: Ghost<Seq<TransferView>>)
    requires
        transfers_of(rows@, transfer_views(old(ts)@)),
    ensures
        transfers_of(rows@.push(row@), transfer_views(final(ts)@)),
{
    let ghost before = transfer_views(ts@);
    let ghost key = transfer_key(row@);
    let ghost after_rows = rows@.push(row@);
    assert(after_rows.drop_last() =~= rows@);
    let mut pos: usize = 0;
    while pos < ts.len() && triple_before(&ts[pos], &row)
        invariant
            pos <= ts@.len(),
            transfer_views(ts@) == before,
            key == transfer_key(row@),
            forall|j: int| 0 <= j < pos ==> triple_less(transfer_key(#[trigger] before[j]), key),
        ensures
            pos <= ts@.len(),
            transfer_views(ts@) == before,
            forall|j: int| 0 <= j < pos ==> triple_less(transfer_key(#[trigger] before[j]), key),
            pos < ts@.len() ==> !triple_less(transfer_key(before[pos as int]), key),
        decreases ts@.len() - pos,
    {
        assert(before[pos as int] == ts@[pos as int]@);
        pos = pos + 1;
    }
    assert(before.len() == ts@.len());
    proof {
        if pos < ts@.len() {
            assert(before[pos as int] == ts@[pos as int]@);
        }
    }
    if pos < ts.len() && same(ts[pos].subject_id.as_str(), row.subject_id.as_str()) && same(
        ts[pos].predicate.as_str(),
        row.predicate.as_str(),
    ) && same(ts[pos].object_id.as_str(), row.object_id.as_str()) {
        let known = ts.remove(pos);
        let merged_text = merge_edge_properties(opt_str(&known.properties), opt_str(&row.properties));
        let merged = FactTransfer {
            subject_id: known.subject_id,
            predicate: known.predicate,
            object_id: known.object_id,
            support: saturating_sum(known.support, row.support),
            properties: Some(merged_text),
        };
        ts.insert(pos, merged);
        proof {
            let after = transfer_views(ts@);
            assert(after =~= before.update(pos as int, merged@));
            assert(combined(rows@, key) == Some(
                (before[pos as int].support, before[pos as int].properties),
            ));
            assert forall|i: int| 0 <= i < after.len() implies combined(
                after_rows,
                transfer_key(#[trigger] after[i]),
            ) == Some((after[i].support, after[i].properties)) by {
                if i != pos {
                    lemma_triple_less(
                        transfer_key(before[i]),
                        transfer_key(before[pos as int]),
                        key,
                    );
                    if i < pos {
                        assert(triple_less(
                            transfer_key(before[i]),
                            transfer_key(before[pos as int]),
                        ));
                    } else {
                        assert(triple_less(
                            transfer_key(before[pos as int]),
                            transfer_key(before[i]),
                        ));
                    }
                    assert(transfer_key(before[i]) != key);
                }
            }
            assert forall|k: (Seq<char>, Seq<char>, Seq<char>)| #[trigger]
                combined(after_rows, k) is Some implies exists|i: int|
                0 <= i < after.len() && transfer_key(#[trigger] after[i]) == k by {
                if k == key {
                    assert(transfer_key(after[pos as int]) == k);
                } else {
                    assert(combined(rows@, k) is Some);
                    let i = choose|i: int|
                        0 <= i < before.len() && transfer_key(#[trigger] before[i]) == k;
                    assert(transfer_key(after[i]) == k);
                }
            }
        }
    } else {
        proof {
            if pos < before.len() {
                lemma_triple_less(transfer_key(before[pos as int]), key, key);
                assert(transfer_key(before[pos as int]) != key);
            }
            assert forall|j: int| pos <= j < before.len() implies triple_less(
                key,
                transfer_key(#[trigger] before[j]),
            ) by {
                if j > pos {
                    lemma_triple_less(
                        key,
                        transfer_key(before[pos as int]),
                        transfer_key(before[j]),
                    );
                }
            }
            assert forall|j: int| 0 <= j < before.len() implies transfer_key(#[trigger] before[j])
                != key by {
                lemma_triple_less(key, transfer_key(before[j]), key);
            }
            if combined(rows@, key) is Some {
                let i = choose|i: int|
                    0 <= i < before.len() && transfer_key(#[trigger] before[i]) == key;
                assert(false);
            }
        }
        let ghost added = row@;
        ts.insert(pos, row);
        proof {
            let after = transfer_views(ts@);
            assert(after =~= before.insert(pos as int, added));
            assert forall|i: int, j: int| 0 <= i < j < after.len() implies triple_less(
                transfer_key(#[trigger] after[i]),
                transfer_key(#[trigger] after[j]),
            ) by {
                let a = if i < pos { i } else { i - 1 };
                let b = if j < pos { j } else { j - 1 };
                if i != pos {
                    assert(after[i] == before[a]);
                }
                if j != pos {
                    assert(after[j] == before[b]);
                }
            }
            assert forall|i: int| 0 <= i < after.len() implies combined(
                after_rows,
                transfer_key(#[trigger] after[i]),
            ) == Some((after[i].support, after[i].properties)) by {
                if i != pos {
                    let a = if i < pos { i } else { i - 1 };
                    assert(after[i] == before[a]);
                }
            }
            assert forall|k: (Seq<char>, Seq<char>, Seq<char>)| #[trigger]
                combined(after_rows, k) is Some implies exists|i: int|
                0 <= i < after.len() && transfer_key(#[trigger] after[i]) == k by {
                if k == key {
                    assert(transfer_key(after[pos as int]) == k);
                } else {
                    assert(combined(rows@, k) is Some);
                    let i = choose|i: int|
                        0 <= i < before.len() && transfer_key(#[trigger] before[i]) == k;
                    if i < pos {
                        assert(after[i] == before[i]);
                    } else {
                        assert(after[i + 1] == before[i]);
                    }
                }
            }
        }
    }
}

fn transfer(row: &FactRow, loser: &str, winner: &str, outgoing: bool) -> (res: FactTransfer)
    ensures
        res@ == transferred(*row, loser@, winner@, outgoing),
{
    let other = if same(row.other.as_str(), loser) {
        winner.to_owned()
    } else {
        row.other.clone()
    };
    let (subject_id, object_id) = if outgoing {
        (winner.to_owned(), other)
    } else {
        (other, winner.to_owned())
    };
    FactTransfer {
        subject_id,
        predicate: row.predicate.clone(),
        object_id,
        support: row.support,
        properties: crate::text::copy_opt(&row.properties),
    }
}

fn add_rows(
    ts: &mut Vec<FactTransfer>,
    rows: &Vec<FactRow>,
    loser: &str,
    winner: &str,
    outgoing: bool,
    known: Ghost<Seq<TransferView>>,
)
    requires
        transfers_of(known@, transfer_views(old(ts)@)),
    ensures
        transfers_of(
            known@ + moved_rows(rows@, loser@, winner@, outgoing),
            transfer_views(final(ts)@),
        ),
{
    let mut i: usize = 0;
    assert(known@ + moved_rows(rows@.take(0), loser@, winner@, outgoing) =~= known@);
    while i < rows.len()
        invariant
            i <= rows@.len(),
            transfers_of(
                known@ + moved_rows(rows@.take(i as int), loser@, winner@, outgoing),
                transfer_views(ts@),
            ),
        decreases rows@.len() - i,
    {
        let ghost before = moved_rows(rows@.take(i as int), loser@, winner@, outgoing);
        assert(rows@.take(i + 1).drop_last() =~= rows@.take(i as int));
        if outgoing || !same(rows[i].other.as_str(), loser) {
            let row = transfer(&rows[i], loser, winner, outgoing);
            assert((known@ + before).push(row@) =~= known@ + before.push(row@));
            add_transfer(ts, row, Ghost(known@ + before));
        }
        i = i + 1;
    }
    assert(rows@.take(i as int) =~= rows@);
}

proof fn lemma_combined_has_row(rows: Seq<TransferView>, k: (Seq<char>, Seq<char>, Seq<char>)) -> (at: int)
    requires
        combined(rows, k) is Some,
    ensures
        0 <= at < rows.len(),
        transfer_key(rows[at]) == k,
    decreases rows.len(),
{
    if transfer_key(rows.last()) == k {
        rows.len() - 1
    } else {
        lemma_combined_has_row(rows.drop_last(), k)
    }
}

proof fn lemma_moved_rows(rows: Seq<FactRow>, loser: Seq<char>, winner: Seq<char>, outgoing: bool)
    requires
        loser != winner,
    ensures
        forall|i: int|
            0 <= i < moved_rows(rows, loser, winner, outgoing).len() ==> !names(
                #[trigger] moved_rows(rows, loser, winner, outgoing)[i],
                loser,
            ),
    decreases rows.len(),
{
    if rows.len() > 0 {
        lemma_moved_rows(rows.drop_last(), loser, winner, outgoing);
        let before = moved_rows(rows.drop_last(), loser, winner, outgoing);
        let all = moved_rows(rows, loser, winner, outgoing);
        assert forall|i: int| 0 <= i < all.len() implies !names(#[trigger] all[i], loser) by {
            if i < before.len() {
                assert(all[i] == before[i]);
            }
        }
    }
}

/// Whether a fact has an entity as an endpoint.
pub open spec fn names(t: TransferView, entity: Seq<char>) -> bool {
    t.subject == entity || t.object == entity
}

/// The fact edges that move to `winner` when `loser`, the entity with these edges, is folded into it.
/// None of them names `loser` any more. Edges that become one add up their support and union their
/// properties.
pub fn fact_transfers(
    outgoing: &Vec<FactRow>,
    incoming: &Vec<FactRow>,
    loser: &str,
    winner: &str,
) -> (res: Vec<FactTransfer>)
    ensures
        transfers_of(all_transfers(outgoing@, incoming@, loser@, winner@), transfer_views(res@)),
        loser@ != winner@ ==> forall|i: int|
            0 <= i < res@.len() ==> !names((#[trigger] res@[i])@, loser@),
{
    let ghost rows = all_transfers(outgoing@, incoming@, loser@, winner@);
    let ghost none: Seq<TransferView> = seq![];
    let mut ts: Vec<FactTransfer> = Vec::new();
    assert(transfers_of(none, transfer_views(ts@)));
    add_rows(&mut ts, outgoing, loser, winner, true, Ghost(none));
    let ghost first = moved_rows(outgoing@, loser@, winner@, true);
    assert(none + first =~= first);
    add_rows(&mut ts, incoming, loser, winner, false, Ghost(first));
    proof {
        if loser@ != winner@ {
            lemma_moved_rows(outgoing@, loser@, winner@, true);
            lemma_moved_rows(incoming@, loser@, winner@, false);
            assert forall|i: int| 0 <= i < ts@.len() implies !names(
                (#[trigger] ts@[i])@,
                loser@,
            ) by {
                let t = transfer_views(ts@)[i];
                assert(t == ts@[i]@);
                let at = lemma_combined_has_row(rows, transfer_key(t));
                assert(!names(rows[at], loser@));
            }
        }
    }
    ts
}

/// The support of the rows of identity `k`.
pub open spec fn support_of(rows: Seq<TransferView>, k: (Seq<char>, Seq<char>, Seq<char>)) -> int
    decreases rows.len(),
{
    if rows.len() == 0 {
        0
    } else {
        support_of(rows.drop_last(), k) + if transfer_key(rows.last()) == k {
            rows.last().support
        } else {
            0
        }
    }
}

proof fn lemma_support_of(rows: Seq<TransferView>, k: (Seq<char>, Seq<char>, Seq<char>))
    requires
        forall|i: int| 0 <= i < rows.len() ==> (#[trigger] rows[i]).support >= 0,
    ensures
        support_of(rows, k) >= 0,
        combined(rows, k) is None ==> support_of(rows, k) == 0,
    decreases rows.len(),
{
    if rows.len() > 0 {
        assert(rows.last() == rows[rows.len() - 1]);
        assert forall|i: int| 0 <= i < rows.drop_last().len() implies (
        #[trigger] rows.drop_last()[i]).support >= 0 by {
            assert(rows.drop_last()[i] == rows[i]);
        }
        lemma_support_of(rows.drop_last(), k);
    }
}

/// A fold loses no support: every transfer has the sum of the supports of the rows that become it,
/// where that sum can be counted.
pub proof fn law_transfers_add_up(rows: Seq<TransferView>, ts: Seq<TransferView>, i: int)
    requires
        transfers_of(rows, ts),
        0 <= i < ts.len(),
        forall|j: int| 0 <= j < rows.len() ==> (#[trigger] rows[j]).support >= 0,
        support_of(rows, transfer_key(ts[i])) <= i64::MAX,
    ensures
        ts[i].support == support_of(rows, transfer_key(ts[i])),
{
    lemma_combined_adds_up(rows, transfer_key(ts[i]));
}

proof fn lemma_combined_adds_up(rows: Seq<TransferView>, k: (Seq<char>, Seq<char>, Seq<char>))
    requires
        forall|j: int| 0 <= j < rows.len() ==> (#[trigger] rows[j]).support >= 0,
        support_of(rows, k) <= i64::MAX,
    ensures
        combined(rows, k) matches Some((n, _)) ==> n == support_of(rows, k),
    decreases rows.len(),
{
    if rows.len() > 0 {
        let rest = rows.drop_last();
        assert(rows.last() == rows[rows.len() - 1]);
        assert forall|j: int| 0 <= j < rest.len() implies (#[trigger] rest[j]).support >= 0 by {
            assert(rest[j] == rows[j]);
        }
        lemma_support_of(rest, k);
        lemma_combined_adds_up(rest, k);
    }
}

/// The support and properties of a mention edge that takes over those of a folded entity: the
/// supports add up, and the properties that were there first stay.
pub fn rewired_mention(existing: Option<&EdgeRow>, support: i64, properties: &Option<String>) -> (res: EdgeRow)
    ensures
        match existing {
            Some(row) => {
                &&& res.support == saturated(row.support as int, support as int)
                &&& res.properties == if row.properties is Some {
                    row.properties
                } else {
                    *properties
                }
            },
            None => res.support == support && res.properties == *properties,
        },
{
    match existing {
        Some(row) => EdgeRow {
            support: saturating_sum(row.support, support),
            properties: match &row.properties {
                Some(s) => Some(s.clone()),
                None => crate::text::copy_opt(properties),
            },
        },
        None => EdgeRow { support, properties: crate::text::copy_opt(properties) },
    }
}

/// The support and properties of a fact edge that takes over those of a transfer.
pub fn rewired_fact(existing: Option<&EdgeRow>, fact: &FactTransfer) -> (res: (i64, String))
    ensures
        match existing {
            Some(row) => {
                &&& res.0 == saturated(row.support as int, fact.support as int)
                &&& res.1@ == folded_text(
                    crate::text::opt_text(row.properties),
                    crate::text::opt_text(fact.properties),
                )
            },
            None => {
                &&& res.0 == fact.support
                &&& res.1@ == folded_text(None, crate::text::opt_text(fact.properties))
            },
        },
{
    match existing {
        Some(row) => (
            saturating_sum(row.support, fact.support),
            merge_edge_properties(opt_str(&row.properties), opt_str(&fact.properties)),
        ),
        None => (fact.support, merge_edge_properties(None, opt_str(&fact.properties))),
    }
}

proof fn lemma_union_members(list: Seq<Seq<char>>, items: Seq<Seq<char>>, max: nat, x: Seq<char>)
    requires
        list.len() + items.len() <= max,
    ensures
        capped_union(list, items, max).len() <= list.len() + items.len(),
        capped_union(list, items, max).contains(x) <==> list.contains(x) || items.contains(x),
    decreases items.len(),
{
    if items.len() > 0 {
        let rest = items.drop_last();
        lemma_union_members(list, rest, max, x);
        let before = capped_union(list, rest, max);
        lemma_push_contains(before, items.last());
        lemma_push_contains(rest, items.last());
        assert(rest.push(items.last()) =~= items);
        if before.contains(items.last()) {
            lemma_union_members(list, rest, max, items.last());
        }
    }
}

/// Merging two edges loses nothing and makes nothing up: every date and every chunk of either edge is
/// in the result, what the first edge listed stays first and in its order, and what neither had is not
/// there.
pub proof fn law_merging_edges_loses_nothing(left: EdgeView, right: EdgeView, x: Seq<char>)
    requires
        left.evidence.len() + right.evidence.len() <= usize::MAX,
        left.occurrences.len() + right.occurrences.len() <= usize::MAX,
        left.counted.len() + right.counted.len() <= usize::MAX,
    ensures
        forall|merged: EdgeView| #![trigger merged.evidence]
            merged == folded_edge(left, right) || merged == remotely_folded_edge(left, right) ==> {
                &&& merged.evidence.contains(x) <==> left.evidence.contains(x)
                    || right.evidence.contains(x)
                &&& merged.occurrences.contains(x) <==> left.occurrences.contains(x)
                    || right.occurrences.contains(x)
                &&& merged.counted.contains(x) <==> left.counted.contains(x)
                    || right.counted.contains(x)
                &&& merged.evidence.len() >= left.evidence.len() && merged.evidence.take(
                    left.evidence.len() as int,
                ) == left.evidence
                &&& merged.occurrences.len() >= left.occurrences.len() && merged.occurrences.take(
                    left.occurrences.len() as int,
                ) == left.occurrences
            },
{
    let max = usize::MAX as nat;
    lemma_union_members(left.evidence, right.evidence, max, x);
    lemma_union_members(left.occurrences, right.occurrences, max, x);
    lemma_union_members(left.counted, right.counted, max, x);
    lemma_capped_union(left.evidence, right.evidence, max);
    lemma_capped_union(left.occurrences, right.occurrences, max);
}

/// The stored text of two merged edges tells every date and every chunk of either, wherever that text
/// reads back as the object it was written from.
pub proof fn law_merged_text_tells_both_edges(
    left: Seq<char>,
    right: Seq<char>,
    own: Map<Seq<char>, ValueView>,
    x: Seq<char>,
)
    requires
        ({
            let (l, r) = (edge_state_of(left), edge_state_of(right));
            let e = folded_edge(l, r);
            &&& l.evidence.len() + r.evidence.len() <= usize::MAX
            &&& l.occurrences.len() + r.occurrences.len() <= usize::MAX
            &&& l.counted.len() + r.counted.len() <= usize::MAX
            &&& e.caller == JsonView::Object(own)
            &&& owns_no_reserved(own)
            &&& reads_as(edge_text(e), JsonView::Object(state_object(e, own)))
        }),
    ensures
        ({
            let (l, r) = (edge_state_of(left), edge_state_of(right));
            let merged = edge_state_of(folded_text(Some(left), Some(right)));
            &&& merged.evidence.contains(x) <==> l.evidence.contains(x) || r.evidence.contains(x)
            &&& merged.occurrences.contains(x) <==> l.occurrences.contains(x)
                || r.occurrences.contains(x)
            &&& merged.counted.contains(x) <==> l.counted.contains(x) || r.counted.contains(x)
        }),
{
    let (l, r) = (edge_state_of(left), edge_state_of(right));
    law_merging_edges_loses_nothing(l, r, x);
    law_stored_state_reads_back(folded_edge(l, r), own);
    let merged = folded_edge(l, r);
    assert(merged.evidence == folded_edge(l, r).evidence);
}

/// Merging two edges keeps the callers' properties: in the embedded store those of the first edge win
/// and those that only the second has are added, with the later `as_of`; in the remote store those of
/// the second win.
pub proof fn law_merging_edges_keeps_properties(
    left: EdgeView,
    right: EdgeView,
    l: Map<Seq<char>, ValueView>,
    r: Map<Seq<char>, ValueView>,
    key: Seq<char>,
)
    requires
        left.caller == JsonView::Object(l),
        right.caller == JsonView::Object(r),
    ensures
        json_property(folded_edge(left, right).caller, key) is Some <==> ({
            ||| l.contains_key(key)
            ||| r.contains_key(key) && (key != AS_OF_KEY@ || is_later(None, property(r, key)))
        }),
        key != AS_OF_KEY@ ==> json_property(folded_edge(left, right).caller, key)
            == if l.contains_key(key) {
            Some(l[key])
        } else {
            property(r, key)
        },
        json_property(remotely_folded_edge(left, right).caller, key) == if r.contains_key(key) {
            Some(r[key])
        } else {
            property(l, key)
        },
        ({
            let now = text_or_empty(json_property(folded_edge(left, right).caller, AS_OF_KEY@));
            &&& !text_less(now, text_or_empty(property(l, AS_OF_KEY@)))
            &&& !text_less(now, text_or_empty(property(r, AS_OF_KEY@)))
            &&& now == text_or_empty(property(l, AS_OF_KEY@)) || now == text_or_empty(
                property(r, AS_OF_KEY@),
            )
        }),
{
    let (a, b) = (
        text_or_empty(property(l, AS_OF_KEY@)),
        text_or_empty(property(r, AS_OF_KEY@)),
    );
    crate::text::lemma_text_less_total(a, b);
    crate::text::lemma_text_less_total(b, b);
    crate::text::lemma_text_less_total(a, a);
    let e: Seq<char> = seq![];
    if b.len() == 0 {
        assert(b =~= e);
    }
    crate::text::lemma_text_less_total(e, b);
}

/// An assertion leaves its traces: its chunk is known to the edge and listed as evidence where there was
/// room, and its date is among the occurrences where there was room for it.
pub proof fn law_assertions_leave_their_traces(
    e: EdgeView,
    chunk: Seq<char>,
    incoming: Map<Seq<char>, ValueView>,
    date: Seq<char>,
    caps: FactCaps,
)
    requires
        property(incoming, OCCURRED_ON_KEY@) == Some(ValueView::Text(date)),
    ensures
        forall|after: EdgeView| #![trigger after.evidence]
            after == asserted(e, chunk, Some(JsonView::Object(incoming)), caps) || after
                == remotely_asserted(e, chunk, Some(JsonView::Object(incoming)), caps) ==> {
                &&& e.evidence.len() < caps.max_evidence ==> after.evidence.contains(chunk)
                &&& after.evidence.contains(chunk) || after.counted.contains(chunk)
                &&& e.occurrences.len() < caps.max_occurrences ==> after.occurrences.contains(date)
                &&& forall|x: Seq<char>| #[trigger]
                    after.occurrences.contains(x) ==> e.occurrences.contains(x) || x == date
                &&& forall|x: Seq<char>| #[trigger]
                    after.evidence.contains(x) ==> e.evidence.contains(x) || x == chunk
            },
{
    let dates: Seq<Seq<char>> = seq![date];
    assert(dates.drop_last() =~= seq![]);
    assert(capped_union(e.occurrences, dates.drop_last(), caps.max_occurrences as nat)
        == e.occurrences);
    assert(capped_union(e.occurrences, dates, caps.max_occurrences as nat) == capped_push(
        e.occurrences,
        date,
        caps.max_occurrences as nat,
    ));
    lemma_push_contains(e.evidence, chunk);
    lemma_push_contains(e.counted, chunk);
    lemma_push_contains(e.occurrences, date);
}

/// On a remote edge the properties of the latest assertion count: each of its properties that is not
/// reserved replaces the stored one, and the others stay. On an embedded edge the stored ones stay, but
/// for `as_of`.
pub proof fn law_assertions_set_properties(
    e: EdgeView,
    chunk: Seq<char>,
    stored: Map<Seq<char>, ValueView>,
    incoming: Map<Seq<char>, ValueView>,
    caps: FactCaps,
    key: Seq<char>,
)
    requires
        e.caller == JsonView::Object(stored),
        key != EVIDENCE_KEY@,
        key != OCCURRENCES_KEY@,
        key != OCCURRED_ON_KEY@,
    ensures
        json_property(
            remotely_asserted(e, chunk, Some(JsonView::Object(incoming)), caps).caller,
            key,
        ) == if incoming.contains_key(key) {
            Some(incoming[key])
        } else {
            property(stored, key)
        },
        key != AS_OF_KEY@ ==> json_property(
            asserted(e, chunk, Some(JsonView::Object(incoming)), caps).caller,
            key,
        ) == property(stored, key),
{
}

/// The first assertion of a fact makes an edge that one chunk supports: that chunk.
pub proof fn law_a_new_edge_has_one_chunk(
    chunk: Seq<char>,
    props: Option<JsonView>,
    caps: FactCaps,
)
    requires
        props is Some ==> props->0 is Object,
    ensures
        fact_merged(None, chunk, props, caps).0 == 1,
        support_with(0, edge_state_of(seq![]), chunk, u64::MAX as int) == 1,
        known_chunks(asserted(edge_state_of(seq![]), chunk, props, caps)) == set![chunk],
        known_chunks(remotely_asserted(edge_state_of(seq![]), chunk, props, caps)) == set![chunk],
{
    let empty = edge_state_of(seq![]);
    assert(empty.evidence =~= seq![] && empty.counted =~= seq![]);
    law_support_counts_distinct_chunks(empty, chunk, props, caps, 0, 1);
    assert(known_chunks(empty) =~= Set::empty());
    assert(known_chunks(empty).insert(chunk) =~= set![chunk]);
}

proof fn lemma_rows_moved(
    rows: Seq<FactRow>,
    loser: Seq<char>,
    winner: Seq<char>,
    outgoing: bool,
)
    ensures
        forall|i: int|
            #![trigger rows[i]]
            0 <= i < rows.len() && (outgoing || rows[i].other@ != loser) ==> moved_rows(
                rows,
                loser,
                winner,
                outgoing,
            ).contains(transferred(rows[i], loser, winner, outgoing)),
        forall|t: TransferView| #[trigger]
            moved_rows(rows, loser, winner, outgoing).contains(t) ==> exists|i: int|
                0 <= i < rows.len() && t == transferred(#[trigger] rows[i], loser, winner, outgoing),
    decreases rows.len(),
{
    if rows.len() > 0 {
        let rest = rows.drop_last();
        let before = moved_rows(rest, loser, winner, outgoing);
        let all = moved_rows(rows, loser, winner, outgoing);
        lemma_rows_moved(rest, loser, winner, outgoing);
        let last = transferred(rows.last(), loser, winner, outgoing);
        lemma_push_contains(before, last);
        assert forall|i: int|
            #![trigger rows[i]]
            0 <= i < rows.len() && (outgoing || rows[i].other@ != loser) implies all.contains(
            transferred(rows[i], loser, winner, outgoing),
        ) by {
            if i < rest.len() {
                assert(rest[i] == rows[i]);
            }
        }
        assert forall|t: TransferView| #[trigger] all.contains(t) implies exists|i: int|
            0 <= i < rows.len() && t == transferred(#[trigger] rows[i], loser, winner, outgoing) by {
            if before.contains(t) {
                let i = choose|i: int|
                    0 <= i < rest.len() && t == transferred(
                        #[trigger] rest[i],
                        loser,
                        winner,
                        outgoing,
                    );
                assert(rest[i] == rows[i]);
            } else {
                assert(t == transferred(rows[rows.len() - 1], loser, winner, outgoing));
            }
        }
    }
}

/// A fold rewires every fact of the loser to the winner: a fact that left the loser leaves the winner
/// for the same other end, one that led to the loser leads to the winner, with the same predicate,
/// support and properties; no moved fact touches the loser, and each touches the winner.
pub proof fn law_facts_move_to_the_winner(
    outgoing: Seq<FactRow>,
    incoming: Seq<FactRow>,
    loser: Seq<char>,
    winner: Seq<char>,
    i: int,
)
    requires
        loser != winner,
    ensures
        ({
            let moved = all_transfers(outgoing, incoming, loser, winner);
            &&& 0 <= i < outgoing.len() ==> moved.contains(
                TransferView {
                    subject: winner,
                    predicate: outgoing[i].predicate@,
                    object: if outgoing[i].other@ == loser {
                        winner
                    } else {
                        outgoing[i].other@
                    },
                    support: outgoing[i].support as int,
                    properties: crate::text::opt_text(outgoing[i].properties),
                },
            )
            &&& 0 <= i < incoming.len() && incoming[i].other@ != loser ==> moved.contains(
                TransferView {
                    subject: incoming[i].other@,
                    predicate: incoming[i].predicate@,
                    object: winner,
                    support: incoming[i].support as int,
                    properties: crate::text::opt_text(incoming[i].properties),
                },
            )
            &&& forall|t: TransferView| #[trigger]
                moved.contains(t) ==> t.subject != loser && t.object != loser && (t.subject == winner
                    || t.object == winner)
        }),
{
    let moved = all_transfers(outgoing, incoming, loser, winner);
    let (a, b) = (
        moved_rows(outgoing, loser, winner, true),
        moved_rows(incoming, loser, winner, false),
    );
    lemma_rows_moved(outgoing, loser, winner, true);
    lemma_rows_moved(incoming, loser, winner, false);
    assert forall|t: TransferView| #[trigger] moved.contains(t) <==> a.contains(t) || b.contains(t) by {
        if moved.contains(t) {
            let k = choose|k: int| 0 <= k < moved.len() && moved[k] == t;
            if k < a.len() {
                assert(a[k] == t);
            } else {
                assert(b[k - a.len()] == t);
            }
        }
        if a.contains(t) {
            let k = choose|k: int| 0 <= k < a.len() && a[k] == t;
            assert(moved[k] == t);
        }
        if b.contains(t) {
            let k = choose|k: int| 0 <= k < b.len() && b[k] == t;
            assert(moved[a.len() + k] == t);
        }
    }
    if 0 <= i < outgoing.len() {
        assert(a.contains(transferred(outgoing[i], loser, winner, true)));
    }
    if 0 <= i < incoming.len() && incoming[i].other@ != loser {
        assert(b.contains(transferred(incoming[i], loser, winner, false)));
    }
}

/// Whether a stored text is that of an edge: an object of texts that lists these chunks and these dates.
pub open spec fn lists_of(
    raw: Seq<char>,
    object: Map<Seq<char>, ValueView>,
    evidence: Seq<Seq<char>>,
    dates: Seq<Seq<char>>,
) -> bool {
    &&& raw.len() > 0
    &&& parsed_json(raw) == Ok::<JsonView, Seq<char>>(JsonView::Object(object))
    &&& holds_texts(object)
    &&& object.contains_key("evidence"@)
    &&& object["evidence"@] == array_of(evidence)
    &&& object.contains_key("occurrences"@)
    &&& object["occurrences"@] == array_of(dates)
}

proof fn lemma_lists_of(
    raw: Seq<char>,
    object: Map<Seq<char>, ValueView>,
    evidence: Seq<Seq<char>>,
    dates: Seq<Seq<char>>,
)
    requires
        lists_of(raw, object, evidence, dates),
    ensures
        edge_state_of(raw).evidence == evidence,
        edge_state_of(raw).occurrences == dates,
        edge_state_of(raw).caller == without_reserved(JsonView::Object(object)),
        !object.contains_key("occurred_on"@) ==> edge_state_of(raw).counted.len() == 0,
{
    lemma_listed_array(evidence);
    lemma_listed_array(dates);
}

proof fn lemma_state_holds_texts(e: EdgeView, own: Map<Seq<char>, ValueView>)
    requires
        holds_texts(own),
    ensures
        holds_texts(state_object(e, own)),
{
    lemma_reserved_names();
    let all = state_object(e, own);
    assert forall|k: Seq<char>| #[trigger] all.contains_key(k) implies match all[k] {
        ValueView::Text(_) => true,
        ValueView::Array(items) => forall|i: int|
            0 <= i < items.len() ==> (#[trigger] items[i]) is Text,
        ValueView::Other(_) => false,
    } by {
        if all[k] == array_of(e.evidence) || all[k] == array_of(e.occurrences) || all[k] == array_of(
            e.counted,
        ) {
        } else {
            assert(own.contains_key(k));
        }
    }
}

/// The stored text of two merged edges lists the chunks and the dates of both: of two edges that each list
/// chunks and dates, every one of either is in the result, and nothing that neither had. This is so in the
/// embedded and in the remote store.
pub proof fn law_merged_edges_list_both(
    left: &str,
    right: &str,
    res: String,
    remote: bool,
    l: Map<Seq<char>, ValueView>,
    r: Map<Seq<char>, ValueView>,
    chunks: (Seq<Seq<char>>, Seq<Seq<char>>),
    dates: (Seq<Seq<char>>, Seq<Seq<char>>),
    x: Seq<char>,
) -> (lists: (Map<Seq<char>, ValueView>, Seq<Seq<char>>, Seq<Seq<char>>))
    requires
        !remote ==> call_ensures(merge_edge_properties, (Some(left), Some(right)), res),
        remote ==> call_ensures(merge_remote_edge_properties, (Some(left), Some(right)), res),
        lists_of(left@, l, chunks.0, dates.0),
        lists_of(right@, r, chunks.1, dates.1),
        chunks.0.len() + chunks.1.len() <= usize::MAX,
        dates.0.len() + dates.1.len() <= usize::MAX,
    ensures
        lists_of(res@, lists.0, lists.1, lists.2),
        lists.1.contains(x) <==> chunks.0.contains(x) || chunks.1.contains(x),
        lists.2.contains(x) <==> dates.0.contains(x) || dates.1.contains(x),
        lists.1.take(chunks.0.len() as int) == chunks.0,
        lists.2.take(dates.0.len() as int) == dates.0,
{
    let max = usize::MAX as nat;
    lemma_reserved_names();
    lemma_lists_of(left@, l, chunks.0, dates.0);
    lemma_lists_of(right@, r, chunks.1, dates.1);
    let (a, b) = (edge_state_of(left@), edge_state_of(right@));
    let (p, q) = (object_or_empty(a.caller), object_or_empty(b.caller));
    assert(holds_texts(p) && holds_texts(q));
    let e = if remote {
        remotely_folded_edge(a, b)
    } else {
        folded_edge(a, b)
    };
    let own = object_or_empty(e.caller);
    assert(holds_texts(own)) by {
        assert forall|k: Seq<char>| #[trigger] own.contains_key(k) implies (p.contains_key(k) && own[k]
            == p[k]) || (q.contains_key(k) && own[k] == q[k]) by {}
        assert forall|k: Seq<char>| #[trigger] own.contains_key(k) implies match own[k] {
            ValueView::Text(_) => true,
            ValueView::Array(items) => forall|i: int|
                0 <= i < items.len() ==> (#[trigger] items[i]) is Text,
            ValueView::Other(_) => false,
        } by {
            if p.contains_key(k) && own[k] == p[k] {
                assert(p.contains_key(k));
            } else {
                assert(q.contains_key(k));
            }
        }
    }
    lemma_state_holds_texts(e, own);
    lemma_union_members(chunks.0, chunks.1, max, x);
    lemma_union_members(dates.0, dates.1, max, x);
    lemma_capped_union(chunks.0, chunks.1, max);
    lemma_capped_union(dates.0, dates.1, max);
    (state_object(e, own), e.evidence, e.occurrences)
}

/// An assertion is counted once per chunk and leaves its chunk and its date: merged into a stored edge with
/// these chunks and dates, the support grows by one where the chunk is not listed and stays where it is,
/// a chunk that is not listed joins the evidence while there is room, and a date joins the dates.
pub proof fn law_merged_assertions_are_counted(
    existing: &EdgeRow,
    raw: String,
    chunk: &str,
    properties: &Json,
    caps: FactCaps,
    res: Result<(i64, String), KnowledgeError>,
    object: Map<Seq<char>, ValueView>,
    incoming: Map<Seq<char>, ValueView>,
    evidence: Seq<Seq<char>>,
    dates: Seq<Seq<char>>,
    date: Seq<char>,
) -> (lists: (Map<Seq<char>, ValueView>, Seq<Seq<char>>, Seq<Seq<char>>))
    requires
        call_ensures(merge_fact, (Some(existing), chunk, Some(properties), caps), res),
        existing.properties == Some(raw),
        lists_of(raw@, object, evidence, dates),
        !object.contains_key("occurred_on"@),
        properties@ == JsonView::Object(incoming),
        holds_texts(incoming),
        property(incoming, "occurred_on"@) == Some(ValueView::Text(date)),
        0 <= existing.support < i64::MAX,
    ensures
        res is Ok,
        res->Ok_0.0 == existing.support + if evidence.contains(chunk@) {
            0int
        } else {
            1int
        },
        lists_of(res->Ok_0.1@, lists.0, lists.1, lists.2),
        evidence.contains(chunk@) ==> lists.1 == evidence,
        !evidence.contains(chunk@) && evidence.len() < caps.max_evidence ==> lists.1 == evidence.push(
            chunk@,
        ),
        evidence.len() >= caps.max_evidence ==> lists.1 == evidence,
        dates.contains(date) ==> lists.2 == dates,
        !dates.contains(date) && dates.len() < caps.max_occurrences ==> lists.2 == dates.push(date),
        dates.len() >= caps.max_occurrences ==> lists.2 == dates,
{
    lemma_reserved_names();
    lemma_lists_of(raw@, object, evidence, dates);
    let before = edge_state_of(raw@);
    assert(before.counted =~= seq![]);
    let e = asserted(before, chunk@, Some(JsonView::Object(incoming)), caps);
    let own = object_or_empty(e.caller);
    let stored = object_or_empty(before.caller);
    assert(holds_texts(stored));
    assert(holds_texts(own)) by {
        assert forall|k: Seq<char>| #[trigger] own.contains_key(k) implies match own[k] {
            ValueView::Text(_) => true,
            ValueView::Array(items) => forall|i: int|
                0 <= i < items.len() ==> (#[trigger] items[i]) is Text,
            ValueView::Other(_) => false,
        } by {
            if k == AS_OF_KEY@ && is_later(
                property(stored, AS_OF_KEY@),
                property(incoming, AS_OF_KEY@),
            ) {
                assert(incoming.contains_key(k));
            } else {
                assert(stored.contains_key(k));
            }
        }
    }
    lemma_state_holds_texts(e, own);
    let one: Seq<Seq<char>> = seq![date];
    assert(one.drop_last() =~= seq![]);
    assert(capped_union(dates, one.drop_last(), caps.max_occurrences as nat) == dates);
    assert(capped_union(dates, one, caps.max_occurrences as nat) == capped_push(
        dates,
        date,
        caps.max_occurrences as nat,
    ));
    (state_object(e, own), e.evidence, e.occurrences)
}

/// A fold carries every fact of the loser over: for each outgoing fact there is a transfer from the winner to
/// the same other end, for each incoming one a transfer from the same other end to the winner, with the
/// predicate of the fact; the loser itself becomes the winner, and the support of a transfer is the sum
/// over the facts that become it.
pub proof fn law_fold_transfers_every_fact(
    outgoing: &Vec<FactRow>,
    incoming: &Vec<FactRow>,
    loser: &str,
    winner: &str,
    res: Vec<FactTransfer>,
    i: int,
    t: int,
)
    requires
        call_ensures(fact_transfers, (outgoing, incoming, loser, winner), res),
        loser@ != winner@,
    ensures
        0 <= i < outgoing@.len() ==> exists|n: int|
            {
                &&& 0 <= n < res@.len()
                &&& (#[trigger] res@[n]).subject_id@ == winner@
                &&& res@[n].predicate@ == outgoing@[i].predicate@
                &&& res@[n].object_id@ == if outgoing@[i].other@ == loser@ {
                    winner@
                } else {
                    outgoing@[i].other@
                }
            },
        0 <= i < incoming@.len() && incoming@[i].other@ != loser@ ==> exists|n: int|
            {
                &&& 0 <= n < res@.len()
                &&& (#[trigger] res@[n]).subject_id@ == incoming@[i].other@
                &&& res@[n].predicate@ == incoming@[i].predicate@
                &&& res@[n].object_id@ == winner@
            },
        0 <= t < res@.len() ==> {
            let rows = all_transfers(outgoing@, incoming@, loser@, winner@);
            &&& res@[t].subject_id@ != loser@ && res@[t].object_id@ != loser@
            &&& res@[t].subject_id@ == winner@ || res@[t].object_id@ == winner@
            &&& (forall|j: int| 0 <= j < rows.len() ==> (#[trigger] rows[j]).support >= 0)
                && support_of(rows, transfer_key(res@[t]@)) <= i64::MAX ==> res@[t].support
                == support_of(rows, transfer_key(res@[t]@))
        },
{
    let rows = all_transfers(outgoing@, incoming@, loser@, winner@);
    let ts = transfer_views(res@);
    law_facts_move_to_the_winner(outgoing@, incoming@, loser@, winner@, i);
    if 0 <= i < outgoing@.len() {
        let row = TransferView {
            subject: winner@,
            predicate: outgoing@[i].predicate@,
            object: if outgoing@[i].other@ == loser@ {
                winner@
            } else {
                outgoing@[i].other@
            },
            support: outgoing@[i].support as int,
            properties: crate::text::opt_text(outgoing@[i].properties),
        };
        lemma_row_is_combined(rows, row);
        let n = choose|n: int| 0 <= n < ts.len() && transfer_key(#[trigger] ts[n]) == transfer_key(row);
        assert(ts[n] == res@[n]@);
        assert(res@[n].subject_id@ == winner@);
    }
    if 0 <= i < incoming@.len() && incoming@[i].other@ != loser@ {
        let row = TransferView {
            subject: incoming@[i].other@,
            predicate: incoming@[i].predicate@,
            object: winner@,
            support: incoming@[i].support as int,
            properties: crate::text::opt_text(incoming@[i].properties),
        };
        lemma_row_is_combined(rows, row);
        let n = choose|n: int| 0 <= n < ts.len() && transfer_key(#[trigger] ts[n]) == transfer_key(row);
        assert(ts[n] == res@[n]@);
        assert(res@[n].object_id@ == winner@);
    }
    if 0 <= t < res@.len() {
        assert(ts[t] == res@[t]@);
        assert(combined(rows, transfer_key(ts[t])) is Some);
        let at = lemma_combined_has_row(rows, transfer_key(ts[t]));
        assert(rows.contains(rows[at]));
        if (forall|j: int| 0 <= j < rows.len() ==> (#[trigger] rows[j]).support >= 0) && support_of(
            rows,
            transfer_key(ts[t]),
        ) <= i64::MAX {
            law_transfers_add_up(rows, ts, t);
        }
    }
}

proof fn lemma_row_is_combined(rows: Seq<TransferView>, row: TransferView)
    requires
        rows.contains(row),
    ensures
        combined(rows, transfer_key(row)) is Some,
    decreases rows.len(),
{
    let k = choose|k: int| 0 <= k < rows.len() && rows[k] == row;
    if k < rows.len() - 1 {
        assert(rows.drop_last()[k] == row);
        lemma_row_is_combined(rows.drop_last(), row);
    }
}

/// The edges that take over a fold's facts and mentions add the supports up, whatever was there, and a taken
/// over edge without one before keeps the support it had.
pub proof fn law_taken_over_edges_add_up(
    row: &EdgeRow,
    fact: &FactTransfer,
    known: (i64, String),
    fresh: (i64, String),
    support: i64,
    properties: &Option<String>,
    mention: EdgeRow,
    new_mention: EdgeRow,
)
    requires
        call_ensures(rewired_fact, (Some(row), fact), known),
        call_ensures(rewired_fact, (None, fact), fresh),
        call_ensures(rewired_mention, (Some(row), support, properties), mention),
        call_ensures(rewired_mention, (None, support, properties), new_mention),
        0 <= row.support,
        0 <= fact.support,
        0 <= support,
        row.support + fact.support <= i64::MAX,
        row.support + support <= i64::MAX,
    ensures
        known.0 == row.support + fact.support,
        fresh.0 == fact.support,
        mention.support == row.support + support,
        new_mention.support == support,
        new_mention.properties == *properties,
        row.properties is Some ==> mention.properties == row.properties,
        row.properties is None ==> mention.properties == *properties,
{
}

/// Supports are added up, and a sum that cannot be counted stops at the largest number.
pub proof fn law_sums_of_support_stop_at_the_largest(a: i64, b: i64, res: i64)
    requires
        call_ensures(saturating_sum, (a, b), res),
    ensures
        i64::MIN <= a + b <= i64::MAX ==> res == a + b,
        a + b > i64::MAX ==> res == i64::MAX,
{
}

} // verus!
