//! Articles in RSS and Atom feeds, out of the events of the `quick-xml` reader.

use quick_xml::events::Event;
use vstd::prelude::*;
use vstd::string::StringExecFns;
use vstd::utf8::{decode_utf8, valid_utf8};

use crate::text::{same, utf8_error, utf8_lossy, utf8_string, utf8_string_lossy};

verus! {

/// The reader of `quick-xml`.
#[verifier::external_type_specification]
#[verifier::external_body]
#[verifier::reject_recursive_types(R)]
pub struct ExReader<R>(quick_xml::Reader<R>);

/// A kind of event with the bytes that it carries.
#[derive(Debug)]
pub enum XmlEvent {
    /// An element opens.
    Start(Vec<u8>),
    /// An element opens and closes at once.
    Empty(Vec<u8>),
    /// Text, still escaped.
    Text(Vec<u8>),
    /// A reference to a character or an entity.
    Reference(Vec<u8>),
    /// Text that needs no escapes.
    CData(Vec<u8>),
    /// An element closes.
    End(Vec<u8>),
    /// Comments, declarations and the like.
    Other,
    /// The input is malformed.
    Failed(String),
    /// The input ends.
    Eof,
}

/// An attribute: its name and its value, still escaped.
pub type RawAttribute = (Vec<u8>, Vec<u8>);

/// The model of an event. An attribute that is malformed is none.
pub enum EventView {
    Start(Seq<u8>),
    Empty(Seq<u8>, Seq<Option<(Seq<u8>, Seq<u8>)>>),
    Text(Seq<u8>),
    Reference(Seq<u8>),
    CData(Seq<u8>),
    End(Seq<u8>),
    Other,
    Failed(Seq<char>),
}

impl XmlEvent {
    /// Whether this is the event `v`, but for its attributes.
    pub open spec fn is_event(self, v: EventView) -> bool {
        match (self, v) {
            (XmlEvent::Start(a), EventView::Start(b)) => a@ == b,
            (XmlEvent::Empty(a), EventView::Empty(b, _)) => a@ == b,
            (XmlEvent::Text(a), EventView::Text(b)) => a@ == b,
            (XmlEvent::Reference(a), EventView::Reference(b)) => a@ == b,
            (XmlEvent::CData(a), EventView::CData(b)) => a@ == b,
            (XmlEvent::End(a), EventView::End(b)) => a@ == b,
            (XmlEvent::Other, EventView::Other) => true,
            (XmlEvent::Failed(a), EventView::Failed(b)) => a@ == b,
            _ => false,
        }
    }
}

/// The models of attributes.
pub open spec fn attribute_views(list: Seq<Option<RawAttribute>>) -> Seq<
    Option<(Seq<u8>, Seq<u8>)>,
> {
    list.map_values(
        |a: Option<RawAttribute>|
            match a {
                Some((k, v)) => Some((k@, v@)),
                None => None,
            },
    )
}

/// The events still ahead of a reader, up to the end of the input or the first failure.
pub uninterp spec fn pending(reader: quick_xml::Reader<&[u8]>) -> Seq<EventView>;

/// The events of a document whose texts are trimmed.
pub uninterp spec fn xml_events(body: Seq<u8>) -> Seq<EventView>;

/// Calls `quick_xml::Reader::from_reader`, with the trimming of texts switched on. The events ahead
/// are a function of the bytes.
#[verifier::external_body]
fn open_reader<'a>(body: &'a [u8]) -> (res: quick_xml::Reader<&'a [u8]>)
    ensures
        pending(res) == xml_events(body@),
{
    let mut reader = quick_xml::Reader::from_reader(body);
    reader.config_mut().trim_text(true);
    reader
}

/// Calls `quick_xml::Reader::read_event_into` on a copy of the reader: the next event, without its
/// attributes.
#[verifier::external_body]
fn peek_event(reader: &quick_xml::Reader<&[u8]>) -> (res: XmlEvent)
    ensures
        if pending(*reader).len() == 0 {
            res is Eof
        } else {
            res.is_event(pending(*reader)[0])
        },
{
    match reader.clone().read_event_into(&mut Vec::new()) {
        Ok(Event::Start(e)) => XmlEvent::Start(e.name().0.to_vec()),
        Ok(Event::Empty(e)) => XmlEvent::Empty(e.name().0.to_vec()),
        Ok(Event::Text(t)) => XmlEvent::Text(t.to_vec()),
        Ok(Event::GeneralRef(r)) => XmlEvent::Reference(r.to_vec()),
        Ok(Event::CData(t)) => XmlEvent::CData(t.to_vec()),
        Ok(Event::End(e)) => XmlEvent::End(e.name().0.to_vec()),
        Ok(Event::Eof) => XmlEvent::Eof,
        Ok(_) => XmlEvent::Other,
        Err(e) => XmlEvent::Failed(e.to_string()),
    }
}

/// Calls `quick_xml::events::BytesStart::attributes` on the next event, where it is an empty element:
/// its attributes in their order, a malformed one as none.
#[verifier::external_body]
fn next_attributes(reader: &quick_xml::Reader<&[u8]>) -> (res: Vec<Option<RawAttribute>>)
    ensures
        pending(*reader).len() > 0 && pending(*reader)[0] is Empty ==> attribute_views(res@)
            == pending(*reader)[0]->Empty_1,
{
    match reader.clone().read_event_into(&mut Vec::new()) {
        Ok(Event::Empty(e)) => e.attributes().map(
            |a| a.ok().map(|a| (a.key.0.to_vec(), a.value.to_vec())),
        ).collect(),
        _ => Vec::new(),
    }
}

/// Calls `quick_xml::Reader::read_event_into`: the next event is behind the reader.
#[verifier::external_body]
fn advance(reader: &mut quick_xml::Reader<&[u8]>)
    requires
        pending(*old(reader)).len() > 0,
        !(pending(*old(reader))[0] is Failed),
    ensures
        pending(*final(reader)) == pending(*old(reader)).drop_first(),
{
    let _ = reader.read_event_into(&mut Vec::new());
}

/// A text with its line ends normalized.
pub uninterp spec fn xml_content(text: Seq<char>) -> Seq<char>;

/// Calls `quick_xml::events::BytesText::xml_content` on a text: its line ends are normalized, a
/// function of the text.
#[verifier::external_body]
fn normalize_content(text: &str) -> (res: String)
    ensures
        res@ == xml_content(text@),
{
    match quick_xml::events::BytesText::from_escaped(text).xml_content() {
        Ok(c) => c.into_owned(),
        Err(_) => text.to_string(),
    }
}

/// A text without its escapes, or why an escape is malformed or unknown.
pub uninterp spec fn unescaped(text: Seq<char>) -> Result<Seq<char>, Seq<char>>;

/// Whether a reading of a text is the one named.
pub open spec fn reads_text(named: Result<Seq<char>, Seq<char>>, res: Result<String, String>) -> bool {
    match res {
        Ok(s) => named == Ok::<Seq<char>, Seq<char>>(s@),
        Err(e) => named == Err::<Seq<char>, Seq<char>>(e@),
    }
}

/// Calls `quick_xml::escape::unescape`: the text without its escapes, or the wording of the error,
/// both functions of the text.
#[verifier::external_body]
fn unescape_text(text: &str) -> (res: Result<String, String>)
    ensures
        reads_text(unescaped(text@), res),
{
    match quick_xml::escape::unescape(text) {
        Ok(s) => Ok(s.into_owned()),
        Err(e) => Err(e.to_string()),
    }
}

/// The value of an attribute, or why it is malformed.
pub uninterp spec fn attribute_value(raw: Seq<u8>) -> Result<Seq<char>, Seq<char>>;

/// Calls `quick_xml::events::attributes::Attribute::unescape_value`: the value without its escapes,
/// or the wording of the error, both functions of the bytes.
#[verifier::external_body]
fn unescape_attribute(raw: &[u8]) -> (res: Result<String, String>)
    ensures
        reads_text(attribute_value(raw@), res),
{
    let attribute = quick_xml::events::attributes::Attribute::from((&b"href"[..], raw));
    match attribute.unescape_value() {
        Ok(s) => Ok(s.into_owned()),
        Err(e) => Err(e.to_string()),
    }
}

/// The character that a reference names by its number, where it does; an error where the number is
/// none of a character.
pub uninterp spec fn referenced_char(name: Seq<char>) -> Result<Option<char>, Seq<char>>;

/// Calls `quick_xml::events::BytesRef::resolve_char_ref`. What the reference names, and the wording
/// of the error, are functions of its text.
#[verifier::external_body]
fn resolve_char(name: &str) -> (res: Result<Option<char>, String>)
    ensures
        match res {
            Ok(c) => referenced_char(name@) == Ok::<Option<char>, Seq<char>>(c),
            Err(e) => referenced_char(name@) == Err::<Option<char>, Seq<char>>(e@),
        },
{
    match quick_xml::events::BytesRef::new(name).resolve_char_ref() {
        Ok(c) => Ok(c),
        Err(e) => Err(e.to_string()),
    }
}

/// What the entities that XML predefines stand for.
pub open spec fn predefined(name: Seq<char>) -> Option<Seq<char>> {
    if name == "lt"@ {
        Some("<"@)
    } else if name == "gt"@ {
        Some(">"@)
    } else if name == "amp"@ {
        Some("&"@)
    } else if name == "apos"@ {
        Some("'"@)
    } else if name == "quot"@ {
        Some("\""@)
    } else {
        None
    }
}

fn resolve_predefined(name: &str) -> (res: Option<&'static str>)
    ensures
        match res {
            Some(s) => predefined(name@) == Some(s@),
            None => predefined(name@) is None,
        },
{
    if same(name, "lt") {
        Some("<")
    } else if same(name, "gt") {
        Some(">")
    } else if same(name, "amp") {
        Some("&")
    } else if same(name, "apos") {
        Some("'")
    } else if same(name, "quot") {
        Some("\"")
    } else {
        None
    }
}

// ---------------------------------------------------------------------------------------------
// Values.
// ---------------------------------------------------------------------------------------------
/// Bytes as a text: those of a document are UTF-8.
pub open spec fn decoded(raw: Seq<u8>) -> Result<Seq<char>, Seq<char>> {
    if valid_utf8(raw) {
        Ok(decode_utf8(raw))
    } else {
        Err("cannot decode input using UTF-8: "@ + utf8_error(raw))
    }
}

fn decode(raw: &[u8]) -> (res: Result<String, String>)
    ensures
        match res {
            Ok(s) => decoded(raw@) == Ok::<Seq<char>, Seq<char>>(s@),
            Err(e) => decoded(raw@) == Err::<Seq<char>, Seq<char>>(e@),
        },
{
    match utf8_string(raw) {
        Ok(s) => Ok(s),
        Err(e) => {
            let mut m = "cannot decode input using UTF-8: ".to_owned();
            m.append(e.as_str());
            Err(m)
        },
    }
}

/// The value of a text event.
pub open spec fn text_value(raw: Seq<u8>) -> Result<Seq<char>, Seq<char>> {
    match decoded(raw) {
        Err(e) => Err(e),
        Ok(s) => unescaped(xml_content(s)),
    }
}

/// The value of a reference event. `shown` is what an unknown entity is called.
pub open spec fn reference_value(raw: Seq<u8>, shown: Seq<char>) -> Result<Seq<char>, Seq<char>> {
    match decoded(raw) {
        Err(e) => Err(e),
        Ok(name) => match referenced_char(name) {
            Err(e) => Err(e),
            Ok(Some(c)) => Ok(seq![c]),
            Ok(None) => match predefined(name) {
                Some(v) => Ok(v),
                None => Err("unsupported "@ + shown + " &"@ + name + ";"@),
            },
        },
    }
}

fn value_of_text(raw: &[u8]) -> (res: Result<String, String>)
    ensures
        match res {
            Ok(s) => text_value(raw@) == Ok::<Seq<char>, Seq<char>>(s@),
            Err(e) => text_value(raw@) == Err::<Seq<char>, Seq<char>>(e@),
        },
{
    match decode(raw) {
        Err(e) => Err(e),
        Ok(s) => {
            let content = normalize_content(s.as_str());
            unescape_text(content.as_str())
        },
    }
}

fn value_of_reference(raw: &[u8], shown: &str) -> (res: Result<String, String>)
    ensures
        match res {
            Ok(s) => reference_value(raw@, shown@) == Ok::<Seq<char>, Seq<char>>(s@),
            Err(e) => reference_value(raw@, shown@) == Err::<Seq<char>, Seq<char>>(e@),
        },
{
    match decode(raw) {
        Err(e) => Err(e),
        Ok(name) => match resolve_char(name.as_str()) {
            Err(e) => Err(e),
            Ok(Some(c)) => {
                let mut s = String::new();
                s.push(c);
                assert(s@ =~= seq![c]);
                Ok(s)
            },
            Ok(None) => match resolve_predefined(name.as_str()) {
                Some(v) => Ok(v.to_owned()),
                None => {
                    let mut m = "unsupported ".to_owned();
                    m.append(shown);
                    m.append(" &");
                    m.append(name.as_str());
                    m.append(";");
                    Err(m)
                },
            },
        },
    }
}

// ---------------------------------------------------------------------------------------------
// Items.
// ---------------------------------------------------------------------------------------------
/// The feeds that are read.
#[derive(Debug, Clone, Copy, PartialEq, Eq, Structural)]
pub enum Dialect {
    /// RSS items whose link is a text.
    News,
    /// RSS items and Atom entries, whose link may stand in an attribute.
    Syndication,
}

/// The part of an item that text belongs to.
#[derive(Debug, Clone, Copy, PartialEq, Eq, Structural)]
pub enum Field {
    /// The title.
    Title,
    /// The link.
    Link,
}

/// The bytes of `item`.
pub open spec fn item_tag() -> Seq<u8> {
    seq![105u8, 116u8, 101u8, 109u8]
}

/// The bytes of `entry`.
pub open spec fn entry_tag() -> Seq<u8> {
    seq![101u8, 110u8, 116u8, 114u8, 121u8]
}

/// The bytes of `title`.
pub open spec fn title_tag() -> Seq<u8> {
    seq![116u8, 105u8, 116u8, 108u8, 101u8]
}

/// The bytes of `link`.
pub open spec fn link_tag() -> Seq<u8> {
    seq![108u8, 105u8, 110u8, 107u8]
}

/// The bytes of `href`.
pub open spec fn href_key() -> Seq<u8> {
    seq![104u8, 114u8, 101u8, 102u8]
}

/// Whether an element is an article.
pub open spec fn is_article(dialect: Dialect, tag: Seq<u8>) -> bool {
    tag == item_tag() || (dialect == Dialect::Syndication && tag == entry_tag())
}

/// What an unknown entity is called in messages.
pub open spec fn entity_word(dialect: Dialect) -> Seq<char> {
    match dialect {
        Dialect::News => "XML entity"@,
        Dialect::Syndication => "entity"@,
    }
}

/// The first well-formed `href` among attributes.
pub open spec fn first_href(attributes: Seq<Option<(Seq<u8>, Seq<u8>)>>) -> Option<Seq<u8>>
    decreases attributes.len(),
{
    if attributes.len() == 0 {
        None
    } else {
        match attributes[0] {
            Some((key, value)) => if key == href_key() {
                Some(value)
            } else {
                first_href(attributes.drop_first())
            },
            None => first_href(attributes.drop_first()),
        }
    }
}

/// What a reader is in the middle of.
#[verifier::ext_equal]
pub struct ItemView {
    pub inside: bool,
    pub field: Option<Field>,
    pub title: Seq<char>,
    pub link: Seq<char>,
}

/// Outside any article.
pub open spec fn outside() -> ItemView {
    ItemView { inside: false, field: None, title: seq![], link: seq![] }
}

/// The item once a value was read.
pub open spec fn add_value(item: ItemView, value: Seq<char>) -> ItemView {
    match item.field {
        Some(Field::Title) => ItemView { title: item.title + value, ..item },
        Some(Field::Link) => ItemView { link: item.link + value, ..item },
        None => item,
    }
}

/// What comes of one event.
pub enum Step {
    /// Reading goes on.
    On(ItemView),
    /// An article is complete.
    Done(Seq<char>, Seq<char>),
    /// The feed cannot be read.
    Failed(Seq<char>),
}

/// What comes of an event inside or outside an article.
pub open spec fn step(dialect: Dialect, item: ItemView, event: EventView) -> Step {
    match event {
        EventView::Start(tag) => if is_article(dialect, tag) {
            Step::On(ItemView { inside: true, field: None, title: seq![], link: seq![] })
        } else if item.inside && tag == title_tag() {
            Step::On(ItemView { field: Some(Field::Title), ..item })
        } else if item.inside && tag == link_tag() {
            Step::On(ItemView { field: Some(Field::Link), ..item })
        } else {
            Step::On(item)
        },
        EventView::Text(raw) => if item.inside {
            match text_value(raw) {
                Ok(v) => Step::On(add_value(item, v)),
                Err(e) => Step::Failed(e),
            }
        } else {
            Step::On(item)
        },
        EventView::Reference(raw) => if item.inside {
            match reference_value(raw, entity_word(dialect)) {
                Ok(v) => Step::On(add_value(item, v)),
                Err(e) => Step::Failed(e),
            }
        } else {
            Step::On(item)
        },
        EventView::CData(raw) => if item.inside {
            Step::On(add_value(item, utf8_lossy(raw)))
        } else {
            Step::On(item)
        },
        EventView::Empty(tag, attributes) => if dialect == Dialect::Syndication && item.inside && tag
            == link_tag() {
            match first_href(attributes) {
                None => Step::On(item),
                Some(raw) => match attribute_value(raw) {
                    Ok(v) => Step::On(ItemView { link: v, ..item }),
                    Err(e) => Step::Failed(e),
                },
            }
        } else {
            Step::On(item)
        },
        EventView::End(tag) => if is_article(dialect, tag) {
            Step::Done(item.title, item.link)
        } else if item.inside && (tag == title_tag() || tag == link_tag()) {
            Step::On(ItemView { field: None, ..item })
        } else {
            Step::On(item)
        },
        EventView::Other => Step::On(item),
        EventView::Failed(e) => Step::Failed(e),
    }
}

/// What comes next in a feed.
pub enum Next {
    /// An article, and the events behind it.
    Article(Seq<char>, Seq<char>, Seq<EventView>),
    /// No further article.
    End,
    /// The feed cannot be read.
    Failed(Seq<char>),
}

/// The next article among events.
pub open spec fn next_article(dialect: Dialect, item: ItemView, events: Seq<EventView>) -> Next
    decreases events.len(),
{
    if events.len() == 0 {
        Next::End
    } else {
        match step(dialect, item, events[0]) {
            Step::On(later) => next_article(dialect, later, events.drop_first()),
            Step::Done(title, link) => Next::Article(title, link, events.drop_first()),
            Step::Failed(e) => Next::Failed(e),
        }
    }
}

/// An article takes events up.
pub proof fn lemma_article_advances(dialect: Dialect, item: ItemView, events: Seq<EventView>)
    ensures
        next_article(dialect, item, events) matches Next::Article(_, _, rest) ==> rest.len()
            < events.len(),
    decreases events.len(),
{
    if events.len() > 0 {
        if let Step::On(later) = step(dialect, item, events[0]) {
            lemma_article_advances(dialect, later, events.drop_first());
        }
    }
}

fn is_tag(tag: &Vec<u8>, a: &[u8]) -> (res: bool)
    ensures
        res == (tag@ == a@),
{
    let n: usize = tag.len();
    if n != a.len() {
        return false;
    }
    let mut i: usize = 0;
    while i < n
        invariant
            i <= n == tag@.len() == a@.len(),
            forall|j: int| 0 <= j < i ==> tag@[j] == a@[j],
        decreases n - i,
    {
        if tag[i] != a[i] {
            return false;
        }
        i = i + 1;
    }
    assert(tag@ =~= a@);
    true
}

fn tag_is_article(dialect: Dialect, tag: &Vec<u8>) -> (res: bool)
    ensures
        res == is_article(dialect, tag@),
{
    let item: [u8; 4] = [105, 116, 101, 109];
    let entry: [u8; 5] = [101, 110, 116, 114, 121];
    assert(item@ =~= item_tag());
    assert(entry@ =~= entry_tag());
    is_tag(tag, &item) || (dialect == Dialect::Syndication && is_tag(tag, &entry))
}

fn tag_is_title(tag: &Vec<u8>) -> (res: bool)
    ensures
        res == (tag@ == title_tag()),
{
    let title: [u8; 5] = [116, 105, 116, 108, 101];
    assert(title@ =~= title_tag());
    is_tag(tag, &title)
}

fn tag_is_link(tag: &Vec<u8>) -> (res: bool)
    ensures
        res == (tag@ == link_tag()),
{
    let link: [u8; 4] = [108, 105, 110, 107];
    assert(link@ =~= link_tag());
    is_tag(tag, &link)
}

fn href_of(attributes: &Vec<Option<RawAttribute>>) -> (res: Option<Vec<u8>>)
    ensures
        match res {
            Some(raw) => first_href(attribute_views(attributes@)) == Some(raw@),
            None => first_href(attribute_views(attributes@)) is None,
        },
{
    let ghost all = attribute_views(attributes@);
    let href: [u8; 4] = [104, 114, 101, 102];
    assert(href@ =~= href_key());
    assert(all.skip(0) =~= all);
    let mut i: usize = 0;
    while i < attributes.len()
        invariant
            i <= attributes@.len(),
            all == attribute_views(attributes@),
            href@ == href_key(),
            first_href(all) == first_href(all.skip(i as int)),
        decreases attributes@.len() - i,
    {
        proof {
            assert(all.skip(i as int)[0] == all[i as int]);
            assert(all.skip(i as int).drop_first() =~= all.skip(i + 1));
        }
        if let Some(attribute) = &attributes[i] {
            if is_tag(&attribute.0, &href) {
                let mut raw: Vec<u8> = Vec::new();
                raw.extend_from_slice(attribute.1.as_slice());
                assert(raw@ =~= attribute.1@);
                return Some(raw);
            }
        }
        i = i + 1;
    }
    None
}

/// An article of a feed: its title and its link.
#[derive(Debug)]
pub struct Article {
    /// The title.
    pub title: String,
    /// The link.
    pub link: String,
}

fn push_value(title: &mut String, link: &mut String, field: Option<Field>, value: &str)
    ensures
        final(title)@ == if field == Some(Field::Title) {
            old(title)@ + value@
        } else {
            old(title)@
        },
        final(link)@ == if field == Some(Field::Link) {
            old(link)@ + value@
        } else {
            old(link)@
        },
{
    match field {
        Some(Field::Title) => {
            title.append(value);
        },
        Some(Field::Link) => {
            link.append(value);
        },
        None => {},
    }
}

/// A feed being read.
pub struct FeedReader<'a> {
    reader: quick_xml::Reader<&'a [u8]>,
    dialect: Dialect,
}

impl<'a> FeedReader<'a> {
    /// The events ahead.
    pub closed spec fn ahead(self) -> Seq<EventView> {
        pending(self.reader)
    }

    /// The kind of feed.
    pub closed spec fn kind(self) -> Dialect {
        self.dialect
    }

    /// Opens a feed.
    pub fn new(body: &'a [u8], dialect: Dialect) -> (res: FeedReader<'a>)
        ensures
            res.ahead() == xml_events(body@),
            res.kind() == dialect,
    {
        FeedReader { reader: open_reader(body), dialect }
    }

    /// Reads up to the end of the next article.
    pub fn next(&mut self) -> (res: Result<Option<Article>, String>)
        ensures
            final(self).kind() == old(self).kind(),
            match next_article(old(self).kind(), outside(), old(self).ahead()) {
                Next::Article(title, link, rest) => {
                    &&& final(self).ahead() == rest
                    &&& res matches Ok(Some(a)) && a.title@ == title && a.link@ == link
                },
                Next::End => res matches Ok(None),
                Next::Failed(e) => res matches Err(m) && m@ == e,
            },
    {
        let mut inside = false;
        let mut field: Option<Field> = None;
        let mut title = String::new();
        let mut link = String::new();
        let ghost goal = next_article(self.kind(), outside(), self.ahead());
        let dialect = self.dialect;
        let ghost mut item = outside();
        assert(title@ =~= seq![]);
        loop
            invariant
                self.dialect == dialect,
                old(self).dialect == dialect,
                item == (ItemView { inside, field, title: title@, link: link@ }),
                goal == next_article(old(self).kind(), outside(), old(self).ahead()),
                goal == next_article(dialect, item, pending(self.reader)),
            decreases pending(self.reader).len(),
        {
            let event = peek_event(&self.reader);
            let ghost ahead = pending(self.reader);
            match event {
                XmlEvent::Eof => {
                    return Ok(None);
                },
                XmlEvent::Failed(e) => {
                    return Err(e);
                },
                XmlEvent::Start(tag) => {
                    if tag_is_article(dialect, &tag) {
                        inside = true;
                        field = None;
                        title = String::new();
                        link = String::new();
                        assert(title@ =~= seq![]);
                        assert(link@ =~= seq![]);
                    } else if inside && tag_is_title(&tag) {
                        field = Some(Field::Title);
                    } else if inside && tag_is_link(&tag) {
                        field = Some(Field::Link);
                    }
                },
                XmlEvent::Text(raw) => {
                    if inside {
                        match value_of_text(raw.as_slice()) {
                            Ok(v) => push_value(&mut title, &mut link, field, v.as_str()),
                            Err(e) => {
                                return Err(e);
                            },
                        }
                    }
                },
                XmlEvent::Reference(raw) => {
                    if inside {
                        let word = match dialect {
                            Dialect::News => "XML entity",
                            Dialect::Syndication => "entity",
                        };
                        match value_of_reference(raw.as_slice(), word) {
                            Ok(v) => push_value(&mut title, &mut link, field, v.as_str()),
                            Err(e) => {
                                return Err(e);
                            },
                        }
                    }
                },
                XmlEvent::CData(raw) => {
                    if inside {
                        let v = utf8_string_lossy(raw.as_slice());
                        push_value(&mut title, &mut link, field, v.as_str());
                    }
                },
                XmlEvent::Empty(tag) => {
                    if dialect == Dialect::Syndication && inside && tag_is_link(&tag) {
                        let attributes = next_attributes(&self.reader);
                        if let Some(raw) = href_of(&attributes) {
                            match unescape_attribute(raw.as_slice()) {
                                Ok(v) => {
                                    link = v;
                                },
                                Err(e) => {
                                    return Err(e);
                                },
                            }
                        }
                    }
                },
                XmlEvent::End(tag) => {
                    if tag_is_article(dialect, &tag) {
                        advance(&mut self.reader);
                        return Ok(Some(Article { title, link }));
                    }
                    if inside && (tag_is_title(&tag) || tag_is_link(&tag)) {
                        field = None;
                    }
                },
                XmlEvent::Other => {},
            }
            proof {
                let later = ItemView { inside, field, title: title@, link: link@ };
                assert(step(dialect, item, ahead[0]) == Step::On(later));
                item = later;
            }
            advance(&mut self.reader);
        }
    }
}

/// An article is read from its parts, whatever stands in them: of an `item` with a `title` and a `link`, in
/// either order, the texts are the title and the link of the article, and the feed goes on behind it.
pub proof fn law_articles_are_read(
    reader: &mut FeedReader,
    res: Result<Option<Article>, String>,
    title: Seq<u8>,
    link: Seq<u8>,
    told: Seq<char>,
    address: Seq<char>,
    rest: Seq<EventView>,
)
    requires
        call_ensures(FeedReader::next, (reader,), res),
        text_value(title) == Ok::<Seq<char>, Seq<char>>(told),
        text_value(link) == Ok::<Seq<char>, Seq<char>>(address),
        ({
            let item = seq![105u8, 116u8, 101u8, 109u8];
            let t = seq![116u8, 105u8, 116u8, 108u8, 101u8];
            let l = seq![108u8, 105u8, 110u8, 107u8];
            ||| old(reader).ahead() == seq![
                EventView::Start(item),
                EventView::Start(t),
                EventView::Text(title),
                EventView::End(t),
                EventView::Start(l),
                EventView::Text(link),
                EventView::End(l),
                EventView::End(item),
            ] + rest
            ||| old(reader).ahead() == seq![
                EventView::Start(item),
                EventView::Start(l),
                EventView::Text(link),
                EventView::End(l),
                EventView::Start(t),
                EventView::Text(title),
                EventView::End(t),
                EventView::End(item),
            ] + rest
        }),
    ensures
        res matches Ok(Some(a)) && a.title@ == told && a.link@ == address,
        final(reader).ahead() == rest,
{
    let e0 = old(reader).ahead();
    let d = old(reader).kind();
    let item = seq![105u8, 116u8, 101u8, 109u8];
    let t = seq![116u8, 105u8, 116u8, 108u8, 101u8];
    let l = seq![108u8, 105u8, 110u8, 107u8];
    assert(item.len() == 4 && t.len() == 5 && l.len() == 4 && item[0] != l[0]);
    assert(entry_tag()[0] != t[0] && entry_tag().len() == 5 && entry_tag() != item && entry_tag() != l);
    assert(item == item_tag() && t == title_tag() && l == link_tag());
    assert(Seq::<char>::empty() + told =~= told);
    assert(Seq::<char>::empty() + address =~= address);
    let e1 = e0.drop_first();
    let e2 = e1.drop_first();
    let e3 = e2.drop_first();
    let e4 = e3.drop_first();
    let e5 = e4.drop_first();
    let e6 = e5.drop_first();
    let e7 = e6.drop_first();
    let e8 = e7.drop_first();
    assert(e8 =~= rest);
    reveal_with_fuel(next_article, 9);
}

/// The links of a syndicated feed may stand in an attribute: inside an article the first well-formed `href`
/// of an empty `link` is its link; a news feed knows no such links.
pub proof fn law_href_is_the_link(
    item: ItemView,
    before: Seq<Option<(Seq<u8>, Seq<u8>)>>,
    value: Seq<u8>,
    after: Seq<Option<(Seq<u8>, Seq<u8>)>>,
    address: Seq<char>,
)
    requires
        item.inside,
        forall|i: int|
            0 <= i < before.len() ==> ((#[trigger] before[i]) matches Some((k, _)) ==> k != seq![
                104u8,
                114u8,
                101u8,
                102u8,
            ]),
        attribute_value(value) == Ok::<Seq<char>, Seq<char>>(address),
    ensures
        ({
            let href = Some((seq![104u8, 114u8, 101u8, 102u8], value));
            let event = EventView::Empty(
                seq![108u8, 105u8, 110u8, 107u8],
                before + seq![href] + after,
            );
            &&& step(Dialect::Syndication, item, event) == Step::On(ItemView { link: address, ..item })
            &&& step(Dialect::News, item, event) == Step::On(item)
        }),
{
    lemma_first_href(before, value, after);
}

proof fn lemma_first_href(
    before: Seq<Option<(Seq<u8>, Seq<u8>)>>,
    value: Seq<u8>,
    after: Seq<Option<(Seq<u8>, Seq<u8>)>>,
)
    requires
        forall|i: int|
            0 <= i < before.len() ==> ((#[trigger] before[i]) matches Some((k, _)) ==> k != href_key()),
    ensures
        first_href(before + seq![Some((href_key(), value))] + after) == Some(value),
    decreases before.len(),
{
    let all = before + seq![Some((href_key(), value))] + after;
    if before.len() == 0 {
        assert(all[0] == Some((href_key(), value)));
    } else {
        let rest = before.drop_first();
        assert(all[0] == before[0]);
        assert(all.drop_first() =~= rest + seq![Some((href_key(), value))] + after);
        assert forall|i: int| 0 <= i < rest.len() implies ((#[trigger] rest[i]) matches Some((k, _))
            ==> k != href_key()) by {
            assert(rest[i] == before[i + 1]);
        }
        lemma_first_href(rest, value, after);
    }
}

} // verus!
