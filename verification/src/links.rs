//! Destinations behind the redirect links of search providers.

use vstd::prelude::*;
use vstd::string::StringExecFns;

use crate::text::{
    chars_of, find_str, find_text, lower_ascii, lowercase_ascii, same, same_ignoring_ascii_case,
    string_of, trim, trimmed,
};
use crate::web::{pair_views, parse_url, query_of, query_pairs, url_parts};

verus! {

/// The value of the first parameter whose name meets a condition.
pub open spec fn first_value(
    pairs: Seq<(Seq<char>, Seq<char>)>,
    which: spec_fn(Seq<char>) -> bool,
) -> Option<Seq<char>>
    decreases pairs.len(),
{
    if pairs.len() == 0 {
        None
    } else if which(pairs[0].0) {
        Some(pairs[0].1)
    } else {
        first_value(pairs.drop_first(), which)
    }
}

/// The condition of being one of two names, whatever the case of the letters.
pub open spec fn either_name(a: Seq<char>, b: Seq<char>) -> spec_fn(Seq<char>) -> bool {
    |key: Seq<char>| lower_ascii(key) == lower_ascii(a) || lower_ascii(key) == lower_ascii(b)
}

/// The condition of being a name.
pub open spec fn exact_name(a: Seq<char>) -> spec_fn(Seq<char>) -> bool {
    |key: Seq<char>| key == a
}

fn value_of_either(pairs: &Vec<(String, String)>, a: &str, b: &str) -> (res: Option<String>)
    ensures
        crate::text::opt_text(res) == first_value(pair_views(pairs@), either_name(a@, b@)),
{
    let ghost all = pair_views(pairs@);
    let ghost which = either_name(a@, b@);
    assert(all.skip(0) =~= all);
    let mut i: usize = 0;
    while i < pairs.len()
        invariant
            i <= pairs@.len(),
            all == pair_views(pairs@),
            which == either_name(a@, b@),
            first_value(all, which) == first_value(all.skip(i as int), which),
        decreases pairs@.len() - i,
    {
        let pair = &pairs[i];
        assert(all.skip(i as int)[0] == (pair.0@, pair.1@));
        assert(all.skip(i as int).drop_first() =~= all.skip(i + 1));
        if same_ignoring_ascii_case(pair.0.as_str(), a) || same_ignoring_ascii_case(
            pair.0.as_str(),
            b,
        ) {
            return Some(pair.1.clone());
        }
        i = i + 1;
    }
    None
}

fn value_of_name(pairs: &Vec<(String, String)>, a: &str) -> (res: Option<String>)
    ensures
        crate::text::opt_text(res) == first_value(pair_views(pairs@), exact_name(a@)),
{
    let ghost all = pair_views(pairs@);
    let ghost which = exact_name(a@);
    assert(all.skip(0) =~= all);
    let mut i: usize = 0;
    while i < pairs.len()
        invariant
            i <= pairs@.len(),
            all == pair_views(pairs@),
            which == exact_name(a@),
            first_value(all, which) == first_value(all.skip(i as int), which),
        decreases pairs@.len() - i,
    {
        let pair = &pairs[i];
        assert(all.skip(i as int)[0] == (pair.0@, pair.1@));
        assert(all.skip(i as int).drop_first() =~= all.skip(i + 1));
        if same(pair.0.as_str(), a) {
            return Some(pair.1.clone());
        }
        i = i + 1;
    }
    None
}

/// The encoded destination inside a link whose redirect parameters were collapsed into one value:
/// what follows `url%3D`, up to `mkt%3D`.
pub open spec fn collapsed_part(link: Seq<char>) -> Option<Seq<char>> {
    match find_text(lower_ascii(link), "url%3d"@, 0) {
        None => None,
        Some(at) => {
            let encoded = link.skip(at + "url%3d"@.len());
            Some(
                match find_text(lower_ascii(encoded), "mkt%3d"@, 0) {
                    Some(end) => encoded.take(end),
                    None => encoded,
                },
            )
        },
    }
}

/// An address whose only parameter holds the encoded destination.
pub open spec fn helper_address(encoded: Seq<char>) -> Seq<char> {
    "https://example.invalid/?value="@ + encoded
}

/// The destination inside a link whose redirect parameters were collapsed.
pub open spec fn collapsed_destination(link: Seq<char>) -> Option<Seq<char>> {
    match collapsed_part(link) {
        None => None,
        Some(encoded) => if url_parts(helper_address(encoded)) is Some {
            first_value(query_of(helper_address(encoded)), exact_name("value"@))
        } else {
            None
        },
    }
}

fn collapsed_text(link: &str) -> (res: Option<String>)
    ensures
        crate::text::opt_text(res) == collapsed_part(link@),
{
    let low = lowercase_ascii(link);
    let low_chars = chars_of(low.as_str());
    let marker = chars_of("url%3d");
    let stop = chars_of("mkt%3d");
    match find_str(low_chars.as_slice(), marker.as_slice(), 0) {
        None => None,
        Some(at) => {
            let chars = chars_of(link);
            let n: usize = chars.len();
            proof {
                crate::text::lemma_find_text(lower_ascii(link@), "url%3d"@, 0);
                assert(lower_ascii(link@).len() == link@.len());
            }
            let from: usize = at + marker.len();
            let encoded = string_of(chars.as_slice(), from, n);
            assert(encoded@ =~= link@.skip(at + "url%3d"@.len()));
            let encoded_low = lowercase_ascii(encoded.as_str());
            let encoded_chars = chars_of(encoded_low.as_str());
            match find_str(encoded_chars.as_slice(), stop.as_slice(), 0) {
                None => Some(encoded),
                Some(end) => {
                    let kept = chars_of(encoded.as_str());
                    proof {
                        crate::text::lemma_find_text(lower_ascii(encoded@), "mkt%3d"@, 0);
                        assert(lower_ascii(encoded@).len() == encoded@.len());
                    }
                    let part = string_of(kept.as_slice(), 0, end);
                    assert(part@ =~= encoded@.take(end as int));
                    Some(part)
                },
            }
        },
    }
}

/// The destination inside a link whose redirect parameters were collapsed.
pub fn collapsed_target(link: &str) -> (res: Option<String>)
    ensures
        crate::text::opt_text(res) == collapsed_destination(link@),
{
    match collapsed_text(link) {
        None => None,
        Some(encoded) => {
            let mut helper = "https://example.invalid/?value=".to_owned();
            helper.append(encoded.as_str());
            match parse_url(helper.as_str()) {
                Err(_) => None,
                Ok(_) => {
                    let pairs = query_pairs(helper.as_str());
                    value_of_name(&pairs, "value")
                },
            }
        },
    }
}

/// The article behind a link of the news search: its `url` parameter, else what collapsed
/// parameters hold.
pub open spec fn news_target(link: Seq<char>) -> Option<Seq<char>> {
    if url_parts(link) is None {
        None
    } else {
        match first_value(query_of(link), either_name("url"@, "url"@)) {
            Some(v) => Some(v),
            None => match collapsed_destination(link) {
                Some(d) => if d.len() > 0 {
                    Some(d)
                } else {
                    None
                },
                None => None,
            },
        }
    }
}

/// The article behind a link of the news search.
pub fn bing_destination(link: &str) -> (res: Option<String>)
    ensures
        crate::text::opt_text(res) == news_target(link@),
{
    if parse_url(link).is_err() {
        return None;
    }
    let pairs = query_pairs(link);
    if let Some(v) = value_of_either(&pairs, "url", "url") {
        return Some(v);
    }
    match collapsed_target(link) {
        None => None,
        Some(d) => if d.as_str().is_empty() {
            None
        } else {
            Some(d)
        },
    }
}

/// The page behind the link of any provider: its `url` or `uddg` parameter, else what collapsed
/// parameters hold, else the link itself.
pub open spec fn redirect_target(link: Seq<char>) -> Seq<char> {
    let bare = trimmed(link);
    if url_parts(bare) is None {
        bare
    } else {
        match first_value(query_of(bare), either_name("url"@, "uddg"@)) {
            Some(v) => v,
            None => match collapsed_destination(link) {
                Some(d) => d,
                None => bare,
            },
        }
    }
}

/// The page behind the link of any provider.
pub fn redirect_destination(link: &str) -> (res: String)
    ensures
        res@ == redirect_target(link@),
{
    let bare = trim(link);
    if parse_url(bare.as_str()).is_err() {
        return bare;
    }
    let pairs = query_pairs(bare.as_str());
    if let Some(v) = value_of_either(&pairs, "url", "uddg") {
        return v;
    }
    match collapsed_target(link) {
        Some(d) => d,
        None => bare,
    }
}

proof fn lemma_first_value(
    pairs: Seq<(Seq<char>, Seq<char>)>,
    which: spec_fn(Seq<char>) -> bool,
    i: int,
)
    requires
        0 <= i <= pairs.len(),
        forall|k: int| 0 <= k < i ==> !which((#[trigger] pairs[k]).0),
        i < pairs.len() ==> which(pairs[i].0),
    ensures
        i < pairs.len() ==> first_value(pairs, which) == Some(pairs[i].1),
        i == pairs.len() ==> first_value(pairs, which) is None,
    decreases pairs.len(),
{
    if i > 0 {
        let rest = pairs.drop_first();
        assert(!which(pairs[0].0));
        assert forall|k: int| 0 <= k < i - 1 implies !which((#[trigger] rest[k]).0) by {
            assert(rest[k] == pairs[k + 1]);
        }
        lemma_first_value(rest, which, i - 1);
    }
}

/// A redirecting link leads to what its parameter names: to the value of the first `url` or `uddg`, however
/// capitalized; a link without one, and without a collapsed destination, leads to itself. The news search
/// knows `url` alone.
pub proof fn law_redirects_lead_to_their_target(
    link: &str,
    page: String,
    article: Option<String>,
    i: int,
)
    requires
        call_ensures(redirect_destination, (link,), page),
        call_ensures(bing_destination, (link,), article),
        url_parts(trimmed(link@)) is Some,
        trimmed(link@) == link@,
        0 <= i <= query_of(link@).len(),
        forall|k: int|
            0 <= k < i ==> lower_ascii((#[trigger] query_of(link@)[k]).0) != "url"@ && lower_ascii(
                query_of(link@)[k].0,
            ) != "uddg"@,
        i < query_of(link@).len() ==> lower_ascii(query_of(link@)[i].0) == "url"@ || lower_ascii(
            query_of(link@)[i].0,
        ) == "uddg"@,
    ensures
        i < query_of(link@).len() ==> page@ == query_of(link@)[i].1,
        i < query_of(link@).len() && lower_ascii(query_of(link@)[i].0) == "url"@ ==> (
        article matches Some(a) && a@ == query_of(link@)[i].1),
        i == query_of(link@).len() && find_text(lower_ascii(link@), "url%3d"@, 0) is None ==> page@
            == link@ && article is None,
{
    reveal_strlit("url");
    reveal_strlit("uddg");
    assert(lower_ascii("url"@) =~= "url"@);
    assert(lower_ascii("uddg"@) =~= "uddg"@);
    let pairs = query_of(link@);
    let both = either_name("url"@, "uddg"@);
    let one = either_name("url"@, "url"@);
    assert forall|k: int| 0 <= k < i implies !both((#[trigger] pairs[k]).0) && !one(pairs[k].0) by {}
    lemma_first_value(pairs, both, i);
    if i == pairs.len() || lower_ascii(pairs[i].0) == "url"@ {
        lemma_first_value(pairs, one, i);
    }
}

} // verus!
