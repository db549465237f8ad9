//! Addresses on the web, as the `url` crate reads and writes them.
//!
//! An address is held by its serialization. What the crate reads in it has a name below.

use vstd::prelude::*;

use crate::text::{lower_ascii, opt_text, same};

verus! {

/// The parts of an address that the library looks at.
#[derive(Debug)]
pub struct UrlParts {
    /// The serialization.
    pub href: String,
    /// The scheme, in lower case.
    pub scheme: String,
    /// The host, where there is one.
    pub host: Option<String>,
}

/// The model of [`UrlParts`].
#[verifier::ext_equal]
pub struct UrlView {
    pub href: Seq<char>,
    pub scheme: Seq<char>,
    pub host: Option<Seq<char>>,
}

impl View for UrlParts {
    type V = UrlView;

    open spec fn view(&self) -> UrlView {
        UrlView { href: self.href@, scheme: self.scheme@, host: opt_text(self.host) }
    }
}

impl UrlView {
    /// Whether the scheme is one that is fetched.
    pub open spec fn is_web(self) -> bool {
        self.scheme == "http"@ || self.scheme == "https"@
    }
}

/// The model of a list of query parameters.
pub open spec fn pair_views(pairs: Seq<(String, String)>) -> Seq<(Seq<char>, Seq<char>)> {
    pairs.map_values(|p: (String, String)| (p.0@, p.1@))
}

/// The text of an optional argument.
pub open spec fn opt_ref(s: Option<&str>) -> Option<Seq<char>> {
    match s {
        Some(t) => Some(t@),
        None => None,
    }
}

/// What `url` reads in an absolute address, or why it does not read one.
pub uninterp spec fn parsed_url(text: Seq<char>) -> Result<UrlView, Seq<char>>;

/// What `url` reads in an address relative to another, or why it does not read one.
pub uninterp spec fn joined_url(base: Seq<char>, text: Seq<char>) -> Result<UrlView, Seq<char>>;

/// What is read in an absolute address; nothing where it is none.
pub open spec fn url_parts(text: Seq<char>) -> Option<UrlView> {
    parsed_url(text).ok()
}

/// Why an address is not read.
pub open spec fn url_error(text: Seq<char>) -> Seq<char> {
    parsed_url(text)->Err_0
}

/// What is read in an address relative to another.
pub open spec fn joined_parts(base: Seq<char>, text: Seq<char>) -> Option<UrlView> {
    joined_url(base, text).ok()
}

/// Why an address relative to another is not read.
pub open spec fn joined_error(base: Seq<char>, text: Seq<char>) -> Seq<char> {
    joined_url(base, text)->Err_0
}

/// Whether a reading of an address is the one named.
pub open spec fn reads_url(named: Result<UrlView, Seq<char>>, res: Result<UrlParts, String>) -> bool {
    match res {
        Ok(p) => named == Ok::<UrlView, Seq<char>>(p@),
        Err(e) => named == Err::<UrlView, Seq<char>>(e@),
    }
}

/// The decoded query parameters of an address.
pub uninterp spec fn query_of(href: Seq<char>) -> Seq<(Seq<char>, Seq<char>)>;

/// The encoding of parameters as a query.
pub uninterp spec fn encoded_pairs(pairs: Seq<(Seq<char>, Seq<char>)>) -> Seq<char>;

/// An address without its fragment.
pub uninterp spec fn unfragmented(href: Seq<char>) -> Seq<char>;

/// An address with another query.
pub uninterp spec fn with_query(href: Seq<char>, query: Option<Seq<char>>) -> Seq<char>;

/// An address with parameters added to its query.
pub uninterp spec fn with_pairs(
    href: Seq<char>,
    pairs: Seq<(Seq<char>, Seq<char>)>,
) -> Seq<char>;

/// Whether a text is the serialization of an address that can be fetched, with the parts `v`.
pub open spec fn serializes(text: Seq<char>, v: UrlView) -> bool {
    url_parts(text) == Some(v) && v.href == text && v.is_web()
}

/// Whether what was read of an address that can be fetched is settled: its serialization reads as
/// itself, and its host is in lower case.
pub open spec fn settled(v: UrlView) -> bool {
    &&& serializes(v.href, v)
    &&& v.host matches Some(h) ==> lower_ascii(h) == h
}

/// Calls `url::Url::parse`. What it reads, and the wording of its error, are functions of the text.
/// The serialization of an `http` or `https` address reads as itself, and its host is in lower case.
#[verifier::external_body]
pub(crate) fn parse_url(text: &str) -> (res: Result<UrlParts, String>)
    ensures
        reads_url(parsed_url(text@), res),
        res matches Ok(p) ==> (p@.is_web() ==> settled(p@)),
{
    match url::Url::parse(text) {
        Ok(u) => Ok(
            UrlParts {
                href: u.as_str().to_string(),
                scheme: u.scheme().to_string(),
                host: u.host_str().map(|h| h.to_string()),
            },
        ),
        Err(e) => Err(e.to_string()),
    }
}

/// Calls `url::Url::options().base_url(..).parse(..)`: reads an address relative to another. What it
/// reads, and the wording of its error, are functions of the two texts. The serialization of an
/// `http` or `https` address reads as itself, and its host is in lower case.
#[verifier::external_body]
pub(crate) fn join_url(base: &str, text: &str) -> (res: Result<UrlParts, String>)
    requires
        url_parts(base@) is Some,
    ensures
        reads_url(joined_url(base@, text@), res),
        res matches Ok(p) ==> (p@.is_web() ==> settled(p@)),
{
    let base = url::Url::parse(base).ok();
    match url::Url::options().base_url(base.as_ref()).parse(text) {
        Ok(u) => Ok(
            UrlParts {
                href: u.as_str().to_string(),
                scheme: u.scheme().to_string(),
                host: u.host_str().map(|h| h.to_string()),
            },
        ),
        Err(e) => Err(e.to_string()),
    }
}

/// Calls `url::Url::query_pairs`: the decoded parameters in the order of the query, a function of
/// the address.
#[verifier::external_body]
pub(crate) fn query_pairs(href: &str) -> (res: Vec<(String, String)>)
    requires
        url_parts(href@) is Some,
    ensures
        pair_views(res@) == query_of(href@),
{
    match url::Url::parse(href) {
        Ok(u) => u.query_pairs().map(|(k, v)| (k.into_owned(), v.into_owned())).collect(),
        Err(_) => Vec::new(),
    }
}

/// Calls `url::form_urlencoded::Serializer::extend_pairs`: the encoding of the parameters, a
/// function of them. It is empty exactly where there are none, since each parameter writes its `=`.
#[verifier::external_body]
pub(crate) fn encode_pairs(pairs: &Vec<(String, String)>) -> (res: String)
    ensures
        res@ == encoded_pairs(pair_views(pairs@)),
        res@.len() == 0 <==> pairs@.len() == 0,
{
    url::form_urlencoded::Serializer::new(String::new()).extend_pairs(pairs).finish()
}

/// Calls `url::Url::set_fragment` with none. The address keeps its scheme and host, reads as itself,
/// and has no fragment left to drop.
#[verifier::external_body]
pub(crate) fn drop_fragment(href: &str) -> (res: String)
    requires
        exists|v: UrlView| serializes(href@, v),
    ensures
        res@ == unfragmented(href@),
        unfragmented(res@) == res@,
        forall|v: UrlView| #[trigger]
            serializes(href@, v) ==> serializes(res@, (UrlView { href: res@, ..v })),
{
    match url::Url::parse(href) {
        Ok(mut u) => {
            u.set_fragment(None);
            u.as_str().to_string()
        },
        Err(_) => href.to_string(),
    }
}

/// Calls `url::Url::set_query` on an address without a fragment. The address keeps its scheme and
/// host, reads as itself, and stays as it is where the same query is set again. Where the query is
/// an encoding of parameters, those are what is read in it, since the encoding holds no character
/// that a query escapes; without a query there are none.
#[verifier::external_body]
pub(crate) fn replace_query(href: &str, query: Option<&str>) -> (res: String)
    requires
        exists|v: UrlView| serializes(href@, v),
        unfragmented(href@) == href@,
    ensures
        res@ == with_query(href@, opt_ref(query)),
        unfragmented(res@) == res@,
        with_query(res@, opt_ref(query)) == res@,
        forall|v: UrlView| #[trigger]
            serializes(href@, v) ==> serializes(res@, (UrlView { href: res@, ..v })),
        query is None ==> query_of(res@) == Seq::<(Seq<char>, Seq<char>)>::empty(),
        forall|pairs: Seq<(Seq<char>, Seq<char>)>|
            opt_ref(query) == Some(#[trigger] encoded_pairs(pairs)) ==> query_of(res@) == pairs,
{
    match url::Url::parse(href) {
        Ok(mut u) => {
            u.set_query(query);
            u.as_str().to_string()
        },
        Err(_) => href.to_string(),
    }
}

/// Calls `url::Url::query_pairs_mut` and adds parameters to the query of an address. The result is a
/// function of the address and the parameters.
#[verifier::external_body]
pub(crate) fn append_pairs(href: &str, pairs: &Vec<(String, String)>) -> (res: String)
    requires
        url_parts(href@) is Some,
    ensures
        res@ == with_pairs(href@, pair_views(pairs@)),
{
    match url::Url::parse(href) {
        Ok(mut u) => {
            u.query_pairs_mut().extend_pairs(pairs);
            u.as_str().to_string()
        },
        Err(_) => href.to_string(),
    }
}

/// The port that an address names, other than the default one of its scheme.
pub uninterp spec fn port_named(href: Seq<char>) -> Option<u16>;

/// Calls `url::Url::port`: a function of the address.
#[verifier::external_body]
pub(crate) fn port_of(href: &str) -> (res: Option<u16>)
    requires
        url_parts(href@) is Some,
    ensures
        res == port_named(href@),
{
    match url::Url::parse(href) {
        Ok(u) => u.port(),
        Err(_) => None,
    }
}

/// The path of an address.
pub uninterp spec fn path_named(href: Seq<char>) -> Seq<char>;

/// Calls `url::Url::path`: a function of the address.
#[verifier::external_body]
pub(crate) fn path_of(href: &str) -> (res: String)
    requires
        url_parts(href@) is Some,
    ensures
        res@ == path_named(href@),
{
    match url::Url::parse(href) {
        Ok(u) => u.path().to_string(),
        Err(_) => String::new(),
    }
}

/// The query of an address, where there is one.
pub uninterp spec fn query_named(href: Seq<char>) -> Option<Seq<char>>;

/// Calls `url::Url::query`: a function of the address.
#[verifier::external_body]
pub(crate) fn query_text(href: &str) -> (res: Option<String>)
    requires
        url_parts(href@) is Some,
    ensures
        opt_text(res) == query_named(href@),
{
    match url::Url::parse(href) {
        Ok(u) => u.query().map(|q| q.to_string()),
        Err(_) => None,
    }
}

/// Whether a scheme is one that is fetched.
pub fn is_web_scheme(scheme: &str) -> (res: bool)
    ensures
        res == (scheme@ == "http"@ || scheme@ == "https"@),
{
    same(scheme, "http") || same(scheme, "https")
}

} // verus!
