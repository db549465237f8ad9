//! The nesting of lists in the HTML of an article.
//!
//! The markup is taken as a serializer writes it: every start tag has an end tag but for those that
//! have no content, end tags come in the reverse order of start tags, and the values of attributes
//! stand in double quotes. Of such markup the tags alone tell which elements are open around a list
//! item, so long as no tag closes an element that is not its own. What does not have this shape is
//! not vouched for.

use vstd::prelude::*;

use crate::text::{
    chars_of, contains, find_str, find_text, has_text, is_ascii_alnum, lower_ascii, lowercase_ascii,
    matches_at, occurs_at, same, string_of, texts,
};

verus! {

// ---------------------------------------------------------------------------------------------
// Names of elements.
// ---------------------------------------------------------------------------------------------
/// The elements without content, which have no end tag.
pub const VOID: &'static str = " area base basefont bgsound br col embed hr img input keygen link meta param source track wbr ";

/// The elements whose content is text up to their end tag.
pub const RAW: &'static str = " iframe noembed noframes noscript style textarea title xmp ";

/// The elements whose tags open or close others in ways that are not followed here.
pub const UNFOLLOWED: &'static str = " frame frameset image isindex plaintext script selectedcontent ";

/// The elements that hold drawings and formulas.
pub const FOREIGN: &'static str = " svg math ";

/// The elements that may stand in drawings and formulas.
pub const FOREIGN_CONTENT: &'static str = " animate animatemotion animatetransform annotation circle clippath defs desc ellipse feblend fecolormatrix fecomponenttransfer fecomposite feconvolvematrix fediffuselighting fedisplacementmap fedistantlight fedropshadow feflood fefunca fefuncb fefuncg fefuncr fegaussianblur feimage femerge femergenode femorphology feoffset fepointlight fespecularlighting fespotlight fetile feturbulence filter g line lineargradient maction marker mask math menclose merror metadata mfenced mfrac mi mlabeledtr mmultiscripts mn mo mover mpadded mpath mphantom mprescripts mroot mrow ms mspace msqrt mstyle msub msubsup msup mtable mtd mtext mtr munder munderover none path pattern polygon polyline radialgradient rect semantics set stop svg switch symbol text textpath title tspan use view ";

/// The lists.
pub const LISTS: &'static str = " ul ol menu ";

/// The elements whose conversion remembers where they began: quotations, links and styles.
pub const PLACED: &'static str = " a b blockquote cite del em i q s strong ";

/// The cells of tables, which are converted on their own.
pub const CELLS: &'static str = " td th ";

/// The headings.
pub const HEADINGS: &'static str = " h1 h2 h3 h4 h5 h6 ";

/// The elements of which none may stand in another of its name, at any depth.
pub const ALONE: &'static str = " dialog form ruby search ";

/// What ends the search for an enclosing term of a definition list.
pub const TERM_BOUNDS: &'static str = " dl ul ol menu td th ";

/// The parts of tables.
pub const TABLE_PARTS: &'static str = " caption col colgroup tbody td tfoot th thead tr ";

/// Whether a name is among names that stand between spaces.
pub open spec fn among(name: Seq<char>, names: Seq<char>) -> bool {
    has_text(names, seq![' '] + name + seq![' '])
}

/// Computes [`among`].
pub fn is_among(name: &str, names: &str) -> (res: bool)
    ensures
        res == among(name@, names@),
{
    let mut spaced = String::new();
    spaced.push(' ');
    spaced.append(name);
    spaced.push(' ');
    assert(spaced@ =~= seq![' '] + name@ + seq![' ']);
    contains(names, spaced.as_str())
}

// ---------------------------------------------------------------------------------------------
// Open elements, the innermost last.
// ---------------------------------------------------------------------------------------------
/// Whether none of `names` is open, up to the innermost of `bounds`.
pub open spec fn clear_of(open: Seq<Seq<char>>, names: Seq<char>, bounds: Seq<char>) -> bool
    decreases open.len(),
{
    if open.len() == 0 || among(open.last(), bounds) {
        true
    } else {
        !among(open.last(), names) && clear_of(open.drop_last(), names, bounds)
    }
}

/// Computes [`clear_of`].
pub fn is_clear_of(open: &Vec<String>, names: &str, bounds: &str) -> (res: bool)
    ensures
        res == clear_of(texts(open@), names@, bounds@),
{
    let ghost all = texts(open@);
    let mut n: usize = open.len();
    assert(all.take(n as int) =~= all);
    while n > 0
        invariant
            n <= open@.len(),
            all == texts(open@),
            clear_of(all, names@, bounds@) == clear_of(all.take(n as int), names@, bounds@),
        decreases n,
    {
        assert(all.take(n as int).last() == open@[n - 1]@);
        assert(all.take(n as int).drop_last() =~= all.take(n - 1));
        if is_among(open[n - 1].as_str(), bounds) {
            return true;
        }
        if is_among(open[n - 1].as_str(), names) {
            return false;
        }
        n = n - 1;
    }
    true
}

/// Whether a list item may open: inside the innermost cell, a list encloses it more closely than any
/// other item; or nothing does, and no element that remembers its place is open either.
pub open spec fn item_fits(open: Seq<Seq<char>>, placed: bool) -> bool
    decreases open.len(),
{
    if open.len() == 0 || among(open.last(), CELLS@) {
        !placed
    } else if among(open.last(), LISTS@) {
        true
    } else if open.last() == "li"@ {
        false
    } else {
        item_fits(open.drop_last(), placed || among(open.last(), PLACED@))
    }
}

fn does_item_fit(open: &Vec<String>) -> (res: bool)
    ensures
        res == item_fits(texts(open@), false),
{
    let ghost all = texts(open@);
    let mut n: usize = open.len();
    let mut placed = false;
    assert(all.take(n as int) =~= all);
    while n > 0
        invariant
            n <= open@.len(),
            all == texts(open@),
            item_fits(all, false) == item_fits(all.take(n as int), placed),
        decreases n,
    {
        assert(all.take(n as int).last() == open@[n - 1]@);
        assert(all.take(n as int).drop_last() =~= all.take(n - 1));
        let name = open[n - 1].as_str();
        if is_among(name, CELLS) {
            return !placed;
        }
        if is_among(name, LISTS) {
            return true;
        }
        if same(name, "li") {
            return false;
        }
        placed = placed || is_among(name, PLACED);
        n = n - 1;
    }
    !placed
}

/// The elements that may stand directly in a part of a table or in a choice; none for any element that
/// does not say.
pub open spec fn content_of(parent: Seq<char>) -> Option<Seq<char>> {
    if parent == "table"@ {
        Some(" caption colgroup tbody tfoot thead tr "@)
    } else if among(parent, " tbody tfoot thead "@) {
        Some(" tr "@)
    } else if parent == "tr"@ {
        Some(CELLS@)
    } else if parent == "colgroup"@ {
        Some(" col "@)
    } else if parent == "select"@ {
        Some(" optgroup option "@)
    } else if parent == "optgroup"@ {
        Some(" option "@)
    } else if parent == "option"@ {
        Some(""@)
    } else {
        None
    }
}

/// Whether an element may stand directly in another: the parts of tables, choices and glosses in their
/// places, and nothing else between the parts of tables and of choices.
pub open spec fn place_fits(parent: Seq<char>, name: Seq<char>) -> bool {
    match content_of(parent) {
        Some(names) => among(name, names),
        None => {
            &&& !among(name, TABLE_PARTS@)
            &&& among(name, " rb rtc "@) ==> parent == "ruby"@
            &&& among(name, " rp rt "@) ==> among(parent, " ruby rtc "@)
        },
    }
}

fn does_place_fit(parent: &str, name: &str) -> (res: bool)
    ensures
        res == place_fits(parent@, name@),
{
    if same(parent, "table") {
        is_among(name, " caption colgroup tbody tfoot thead tr ")
    } else if is_among(parent, " tbody tfoot thead ") {
        is_among(name, " tr ")
    } else if same(parent, "tr") {
        is_among(name, CELLS)
    } else if same(parent, "colgroup") {
        is_among(name, " col ")
    } else if same(parent, "select") {
        is_among(name, " optgroup option ")
    } else if same(parent, "optgroup") {
        is_among(name, " option ")
    } else if same(parent, "option") {
        is_among(name, "")
    } else {
        !is_among(name, TABLE_PARTS) && (!is_among(name, " rb rtc ") || same(parent, "ruby")) && (
        !is_among(name, " rp rt ") || is_among(parent, " ruby rtc "))
    }
}

/// Whether an element says what may stand directly in it.
fn says_content(parent: &str) -> (res: bool)
    ensures
        res == (content_of(parent@) is Some),
{
    same(parent, "table") || is_among(parent, " tbody tfoot thead ") || same(parent, "tr") || same(
        parent,
        "colgroup",
    ) || same(parent, "select") || same(parent, "optgroup") || same(parent, "option")
}

/// Whether an element is a part of a table without a table around it: its tags are passed over.
pub open spec fn passed_over(open: Seq<Seq<char>>, name: Seq<char>) -> bool {
    among(name, TABLE_PARTS@) && clear_of(open, " table "@, ""@)
}

/// The name under which an element is open: one that is [`passed_over`] has a mark, which no element's
/// name has.
pub open spec fn opened(open: Seq<Seq<char>>, name: Seq<char>) -> Seq<char> {
    if passed_over(open, name) {
        seq!['!'] + name
    } else {
        name
    }
}

fn open_name(open: &Vec<String>, name: String) -> (res: String)
    ensures
        res@ == opened(texts(open@), name@),
{
    if is_among(name.as_str(), TABLE_PARTS) && is_clear_of(open, " table ", "") {
        let mut marked = String::new();
        marked.push('!');
        marked.append(name.as_str());
        assert(marked@ =~= seq!['!'] + name@);
        marked
    } else {
        name
    }
}

/// The innermost open element; the empty name where there is none.
pub open spec fn innermost(open: Seq<Seq<char>>) -> Seq<char> {
    if open.len() == 0 {
        seq![]
    } else {
        open.last()
    }
}

/// Whether an end tag is that of the innermost open element.
pub open spec fn ends_innermost(open: Seq<Seq<char>>, name: Seq<char>) -> bool {
    innermost(open) == name || innermost(open) == seq!['!'] + name
}

fn does_end_innermost(open: &Vec<String>, name: &str) -> (res: bool)
    requires
        name@.len() > 0,
    ensures
        res == ends_innermost(texts(open@), name@),
        res ==> open@.len() > 0,
{
    let count: usize = open.len();
    if count == 0 {
        return false;
    }
    let mut marked = String::new();
    marked.push('!');
    marked.append(name);
    assert(marked@ =~= seq!['!'] + name@);
    same(open[count - 1].as_str(), name) || same(open[count - 1].as_str(), marked.as_str())
}

/// Whether an element may open without closing another and without being put elsewhere.
pub open spec fn fits(open: Seq<Seq<char>>, name: Seq<char>) -> bool {
    if clear_of(open, FOREIGN@, ""@) {
        &&& !among(name, UNFOLLOWED@)
        &&& place_fits(innermost(open), name) || (content_of(innermost(open)) is None && passed_over(
            open,
            name,
        ))
        &&& name == "li"@ ==> item_fits(open, false)
        &&& among(name, " dd dt "@) ==> clear_of(open, " dd dt "@, TERM_BOUNDS@)
        &&& among(name, HEADINGS@) ==> clear_of(open, HEADINGS@, CELLS@)
        &&& name == "a"@ ==> clear_of(open, " a "@, CELLS@)
        &&& name == "nobr"@ ==> clear_of(open, " nobr "@, CELLS@)
        &&& name == "button"@ ==> clear_of(open, " button "@, CELLS@)
        &&& among(name, ALONE@) ==> clear_of(open, seq![' '] + name + seq![' '], ""@)
    } else {
        among(name, FOREIGN_CONTENT@)
    }
}

fn does_fit(open: &Vec<String>, name: &str, plain: bool) -> (res: bool)
    requires
        plain == clear_of(texts(open@), FOREIGN@, ""@),
    ensures
        res == fits(texts(open@), name@),
{
    if !plain {
        return is_among(name, FOREIGN_CONTENT);
    }
    if is_among(name, UNFOLLOWED) {
        return false;
    }
    let n: usize = open.len();
    let parent = if n == 0 {
        ""
    } else {
        open[n - 1].as_str()
    };
    let mut spaced = String::new();
    spaced.push(' ');
    spaced.append(name);
    spaced.push(' ');
    proof {
        reveal_strlit("");
        assert(parent@ =~= innermost(texts(open@)));
        assert(spaced@ =~= seq![' '] + name@ + seq![' ']);
    }
    (does_place_fit(parent, name) || (!says_content(parent) && is_among(name, TABLE_PARTS)
        && is_clear_of(open, " table ", ""))) && (!same(name, "li") || does_item_fit(open)) && (
    !is_among(name, " dd dt ") || is_clear_of(open, " dd dt ", TERM_BOUNDS)) && (!is_among(
        name,
        HEADINGS,
    ) || is_clear_of(open, HEADINGS, CELLS)) && (!same(name, "a") || is_clear_of(open, " a ", CELLS))
        && (!same(name, "nobr") || is_clear_of(open, " nobr ", CELLS)) && (!same(name, "button")
        || is_clear_of(open, " button ", CELLS)) && (!is_among(name, ALONE) || is_clear_of(
        open,
        spaced.as_str(),
        "",
    ))
}

// ---------------------------------------------------------------------------------------------
// Tags.
// ---------------------------------------------------------------------------------------------
/// Whether a character may stand in the name of an element.
pub open spec fn name_char(c: char) -> bool {
    is_ascii_alnum(c) || c == '-' || c == '_' || c == ':' || c == '.'
}

fn is_name_char(c: char) -> (res: bool)
    ensures
        res == name_char(c),
{
    ('a' <= c && c <= 'z') || ('A' <= c && c <= 'Z') || ('0' <= c && c <= '9') || c == '-' || c == '_'
        || c == ':' || c == '.'
}

/// Whether a character may stand in the name of an attribute.
pub open spec fn attribute_char(c: char) -> bool {
    c > ' ' && c != '/' && c != '>' && c != '<' && c != '=' && c != '"' && c != '\''
}

/// The first place from `i` on at which the characters of names of elements end.
pub open spec fn name_end(s: Seq<char>, i: int) -> int
    decreases s.len() - i,
{
    if 0 <= i < s.len() && name_char(s[i]) {
        name_end(s, i + 1)
    } else {
        i
    }
}

/// The first place from `i` on at which the characters of names of attributes end.
pub open spec fn attribute_end(s: Seq<char>, i: int) -> int
    decreases s.len() - i,
{
    if 0 <= i < s.len() && attribute_char(s[i]) {
        attribute_end(s, i + 1)
    } else {
        i
    }
}

/// The first place from `i` on with the character `c`; the length of the text where there is none.
pub open spec fn next_of(s: Seq<char>, c: char, i: int) -> int
    decreases s.len() - i,
{
    if 0 <= i < s.len() && s[i] != c {
        next_of(s, c, i + 1)
    } else {
        i
    }
}

/// The place behind the tag whose attributes begin at `i`: each is a space, a name, an equals sign and
/// a value in double quotes, and `>` follows them.
pub open spec fn tag_end(s: Seq<char>, i: int) -> Option<int>
    decreases s.len() - i,
    via tag_end_decreases
{
    if i < 0 || i >= s.len() {
        None
    } else if s[i] == '>' {
        Some(i + 1)
    } else {
        let eq = attribute_end(s, i + 1);
        let close = next_of(s, '"', eq + 2);
        if s[i] == ' ' && i + 1 < eq && eq + 1 < s.len() && s[eq] == '=' && s[eq + 1] == '"' && close
            < s.len() {
            tag_end(s, close + 1)
        } else {
            None
        }
    }
}

proof fn lemma_ends(s: Seq<char>, c: char, i: int)
    requires
        0 <= i <= s.len(),
    ensures
        i <= name_end(s, i) <= s.len(),
        i <= attribute_end(s, i) <= s.len(),
        i <= next_of(s, c, i) <= s.len(),
        next_of(s, c, i) < s.len() ==> s[next_of(s, c, i)] == c,
    decreases s.len() - i,
{
    if i < s.len() {
        lemma_ends(s, c, i + 1);
    }
}

#[via_fn]
proof fn tag_end_decreases(s: Seq<char>, i: int) {
    if 0 <= i < s.len() && s[i] != '>' {
        lemma_ends(s, '"', i + 1);
        let eq = attribute_end(s, i + 1);
        if eq + 1 < s.len() {
            lemma_ends(s, '"', eq + 2);
        }
    }
}

fn read_name_end(v: &Vec<char>, i: usize) -> (res: usize)
    requires
        i <= v@.len(),
    ensures
        res == name_end(v@, i as int),
        i <= res <= v@.len(),
{
    let mut k: usize = i;
    while k < v.len() && is_name_char(v[k])
        invariant
            i <= k <= v@.len(),
            name_end(v@, i as int) == name_end(v@, k as int),
        decreases v@.len() - k,
    {
        k = k + 1;
    }
    k
}

fn read_attribute_end(v: &Vec<char>, i: usize) -> (res: usize)
    requires
        i <= v@.len(),
    ensures
        res == attribute_end(v@, i as int),
        i <= res <= v@.len(),
{
    let mut k: usize = i;
    while k < v.len() && v[k] > ' ' && v[k] != '/' && v[k] != '>' && v[k] != '<' && v[k] != '='
        && v[k] != '"' && v[k] != '\''
        invariant
            i <= k <= v@.len(),
            attribute_end(v@, i as int) == attribute_end(v@, k as int),
        decreases v@.len() - k,
    {
        k = k + 1;
    }
    k
}

fn read_next_of(v: &Vec<char>, c: char, i: usize) -> (res: usize)
    requires
        i <= v@.len(),
    ensures
        res == next_of(v@, c, i as int),
        i <= res <= v@.len(),
{
    let mut k: usize = i;
    while k < v.len() && v[k] != c
        invariant
            i <= k <= v@.len(),
            next_of(v@, c, i as int) == next_of(v@, c, k as int),
        decreases v@.len() - k,
    {
        k = k + 1;
    }
    k
}

fn read_tag_end(v: &Vec<char>, i: usize) -> (res: Option<usize>)
    requires
        i <= v@.len(),
    ensures
        match res {
            Some(n) => tag_end(v@, i as int) == Some(n as int) && i < n <= v@.len(),
            None => tag_end(v@, i as int) is None,
        },
{
    let n: usize = v.len();
    let mut k: usize = i;
    while k < n
        invariant
            i <= k <= n == v@.len(),
            tag_end(v@, i as int) == tag_end(v@, k as int),
        decreases n - k,
    {
        if v[k] == '>' {
            return Some(k + 1);
        }
        let eq: usize = read_attribute_end(v, k + 1);
        if v[k] != ' ' || k + 1 >= eq || n - eq < 2 || v[eq] != '=' || v[eq + 1] != '"' {
            return None;
        }
        let close: usize = read_next_of(v, '"', eq + 2);
        if close >= n {
            return None;
        }
        k = close + 1;
    }
    None
}

/// A tag: whether it is an end tag, its name in lower case, and the place behind it.
#[verifier::ext_equal]
pub struct TagView {
    pub closes: bool,
    pub name: Seq<char>,
    pub after: int,
}

/// The tag that begins with the `<` at `at`.
pub open spec fn tag_at(s: Seq<char>, at: int) -> Option<TagView> {
    let closes = at + 1 < s.len() && s[at + 1] == '/';
    let from = if closes {
        at + 2
    } else {
        at + 1
    };
    let to = name_end(s, from);
    let name = lower_ascii(s.subrange(from, to));
    if from >= s.len() || !name_char(s[from]) || !('a' <= name[0] <= 'z') {
        None
    } else {
        match tag_end(s, to) {
            Some(after) => if closes && after != to + 1 {
                None
            } else {
                Some(TagView { closes, name, after })
            },
            None => None,
        }
    }
}

fn read_tag(v: &Vec<char>, at: usize) -> (res: Option<(bool, String, usize)>)
    requires
        at < v@.len(),
    ensures
        match res {
            Some(t) => tag_at(v@, at as int) == Some(
                TagView { closes: t.0, name: t.1@, after: t.2 as int },
            ) && at < t.2 <= v@.len(),
            None => tag_at(v@, at as int) is None,
        },
{
    let n: usize = v.len();
    let closes = n - at > 1 && v[at + 1] == '/';
    let from: usize = if closes {
        at + 2
    } else {
        at + 1
    };
    if from >= n || !is_name_char(v[from]) {
        return None;
    }
    let to: usize = read_name_end(v, from);
    proof {
        lemma_ends(v@, ' ', from + 1);
        assert(name_end(v@, from as int) == name_end(v@, from + 1));
    }
    let name = lowercase_ascii(string_of(v.as_slice(), from, to).as_str());
    let first = name.as_str().get_char(0);
    if !('a' <= first && first <= 'z') {
        return None;
    }
    match read_tag_end(v, to) {
        Some(after) => if closes && after != to + 1 {
            None
        } else {
            Some((closes, name, after))
        },
        None => None,
    }
}

/// The place behind the comment or the document type that begins with the `<` at `at`, where one does.
pub open spec fn aside_end(s: Seq<char>, at: int) -> Option<int> {
    if occurs_at(s, "<!--"@, at) {
        match find_text(s, "-->"@, at + 2) {
            Some(end) => if has_text(s.subrange(at, end), "--!>"@) {
                None
            } else {
                Some(end + "-->"@.len())
            },
            None => None,
        }
    } else if occurs_at(s, "<!DOCTYPE html>"@, at) {
        Some((at + "<!DOCTYPE html>"@.len()) as int)
    } else {
        None
    }
}

fn read_aside_end(v: &Vec<char>, at: usize) -> (res: Option<usize>)
    requires
        at < v@.len(),
    ensures
        match res {
            Some(n) => aside_end(v@, at as int) == Some(n as int) && at < n <= v@.len(),
            None => aside_end(v@, at as int) is None,
        },
{
    proof {
        reveal_strlit("<!--");
        reveal_strlit("-->");
        reveal_strlit("<!DOCTYPE html>");
    }
    let n: usize = v.len();
    let comment = chars_of("<!--");
    let end = chars_of("-->");
    let document = chars_of("<!DOCTYPE html>");
    if matches_at(v.as_slice(), at, comment.as_slice()) {
        assert(at + comment@.len() <= n);
        match find_str(v.as_slice(), end.as_slice(), at + 2) {
            Some(k) => {
                let body = string_of(v.as_slice(), at, k);
                if contains(body.as_str(), "--!>") {
                    None
                } else {
                    Some(k + end.len())
                }
            },
            None => None,
        }
    } else if matches_at(v.as_slice(), at, document.as_slice()) {
        assert(at + document@.len() <= n);
        Some(at + document.len())
    } else {
        None
    }
}

/// The place behind the end tag of the element `name` whose text begins at `i`. `lower` is the markup
/// in lower case.
pub open spec fn raw_end(lower: Seq<char>, name: Seq<char>, i: int) -> Option<int> {
    let tag = "</"@ + name;
    match find_text(lower, tag, i) {
        Some(at) => if at + tag.len() < lower.len() && lower[(at + tag.len()) as int] == '>' {
            Some((at + tag.len() + 1) as int)
        } else {
            None
        },
        None => None,
    }
}

/// The place behind the end tag of the element `name` whose text begins at `i`, where nothing but text
/// stands before that tag.
pub open spec fn bare_end(s: Seq<char>, name: Seq<char>, i: int) -> Option<int> {
    match raw_end(lower_ascii(s), name, i) {
        Some(after) => if next_of(s, '<', i) + "</"@.len() + name.len() + 1 == after {
            Some(after)
        } else {
            None
        },
        None => None,
    }
}

fn read_raw_end(lower: &Vec<char>, name: &str, i: usize) -> (res: Option<usize>)
    requires
        i <= lower@.len(),
    ensures
        match res {
            Some(n) => raw_end(lower@, name@, i as int) == Some(n as int) && i < n <= lower@.len(),
            None => raw_end(lower@, name@, i as int) is None,
        },
{
    let n: usize = lower.len();
    let mut tag = "</".to_owned();
    tag.append(name);
    let pattern = chars_of(tag.as_str());
    match find_str(lower.as_slice(), pattern.as_slice(), i) {
        Some(at) => {
            let to: usize = at + pattern.len();
            if to < n && lower[to] == '>' {
                Some(to + 1)
            } else {
                None
            }
        },
        None => None,
    }
}

fn read_bare_end(v: &Vec<char>, lower: &Vec<char>, name: &str, i: usize) -> (res: Option<usize>)
    requires
        i <= v@.len(),
        lower@ == lower_ascii(v@),
    ensures
        match res {
            Some(n) => bare_end(v@, name@, i as int) == Some(n as int) && i < n <= v@.len(),
            None => bare_end(v@, name@, i as int) is None,
        },
{
    proof {
        reveal_strlit("</");
    }
    let length: usize = name.unicode_len();
    let text_end: usize = read_next_of(v, '<', i);
    match read_raw_end(lower, name, i) {
        Some(end) => if text_end <= end && end - text_end >= 3 && end - text_end - 3 == length {
            Some(end)
        } else {
            None
        },
        None => None,
    }
}

// ---------------------------------------------------------------------------------------------
// Markup.
// ---------------------------------------------------------------------------------------------
/// Whether an element is let in with text alone: a title in a drawing or a formula, whose content may be
/// read as text or as markup, and a template, whose content stands apart.
pub open spec fn holds_text_alone(open: Seq<Seq<char>>, name: Seq<char>) -> bool {
    if clear_of(open, FOREIGN@, ""@) {
        name == "template"@
    } else {
        name == "title"@
    }
}

/// Where reading goes on behind the `<` at `at`, and which elements are open there; none where the
/// markup is not vouched for.
pub open spec fn step(s: Seq<char>, at: int, open: Seq<Seq<char>>) -> Option<(int, Seq<Seq<char>>)> {
    match aside_end(s, at) {
        Some(after) => Some((after, open)),
        None => match tag_at(s, at) {
            None => None,
            Some(t) => if t.closes {
                if ends_innermost(open, t.name) {
                    Some((t.after, open.drop_last()))
                } else {
                    None
                }
            } else if !fits(open, t.name) {
                None
            } else if holds_text_alone(open, t.name) {
                match bare_end(s, t.name, t.after) {
                    Some(after) => Some((after, open)),
                    None => None,
                }
            } else if !clear_of(open, FOREIGN@, ""@) {
                Some((t.after, open.push(t.name)))
            } else if among(t.name, RAW@) {
                match raw_end(lower_ascii(s), t.name, t.after) {
                    Some(after) => Some((after, open)),
                    None => None,
                }
            } else if among(t.name, VOID@) {
                Some((t.after, open))
            } else {
                Some((t.after, open.push(opened(open, t.name))))
            },
        },
    }
}

/// Whether the markup from `i` on, inside the elements `open`, keeps its shape, and every list item in
/// it has its place.
pub open spec fn nests_from(s: Seq<char>, i: int, open: Seq<Seq<char>>) -> bool
    decreases s.len() - i,
    when 0 <= i <= s.len()
{
    let at = next_of(s, '<', i);
    if at >= s.len() {
        true
    } else {
        match step(s, at, open) {
            Some((after, later)) => i < after <= s.len() && nests_from(s, after, later),
            None => false,
        }
    }
}

fn does_nest(html: &str) -> (res: bool)
    ensures
        res == nests_from(html@, 0, seq![]),
{
    let v = chars_of(html);
    let lower = chars_of(lowercase_ascii(html).as_str());
    let n: usize = v.len();
    let mut open: Vec<String> = Vec::new();
    let mut i: usize = 0;
    assert(texts(open@) =~= seq![]);
    while i < n
        invariant
            i <= n == v@.len(),
            v@ == html@,
            lower@ == lower_ascii(html@),
            nests_from(html@, 0, seq![]) == nests_from(html@, i as int, texts(open@)),
        decreases n - i,
    {
        let ghost now = texts(open@);
        let at: usize = read_next_of(&v, '<', i);
        if at >= n {
            return true;
        }
        if let Some(after) = read_aside_end(&v, at) {
            i = after;
        } else {
            match read_tag(&v, at) {
                None => {
                    return false;
                },
                Some((closes, name, after)) => {
                    if closes {
                        proof {
                            lemma_tag_is_named(html@, at as int);
                        }
                        if !does_end_innermost(&open, name.as_str()) {
                            return false;
                        }
                        let _ = open.pop();
                        assert(texts(open@) =~= now.drop_last());
                        i = after;
                    } else {
                        let plain = is_clear_of(&open, FOREIGN, "");
                        if !does_fit(&open, name.as_str(), plain) {
                            return false;
                        }
                        let bare = (plain && same(name.as_str(), "template")) || (!plain && same(
                            name.as_str(),
                            "title",
                        ));
                        if bare || (plain && is_among(name.as_str(), RAW)) {
                            let end = if bare {
                                read_bare_end(&v, &lower, name.as_str(), after)
                            } else {
                                read_raw_end(&lower, name.as_str(), after)
                            };
                            match end {
                                Some(end) => {
                                    i = end;
                                },
                                None => {
                                    return false;
                                },
                            }
                        } else {
                            if !plain {
                                open.push(name);
                                assert(texts(open@) =~= now.push(name@));
                            } else if !is_among(name.as_str(), VOID) {
                                let entry = open_name(&open, name);
                                open.push(entry);
                                assert(texts(open@) =~= now.push(entry@));
                            }
                            i = after;
                        }
                    }
                },
            }
        }
    }
    assert(next_of(html@, '<', i as int) == n);
    true
}

proof fn lemma_tag_is_named(s: Seq<char>, at: int)
    requires
        0 <= at < s.len(),
    ensures
        tag_at(s, at) matches Some(t) ==> t.name.len() > 0,
{
    let closes = at + 1 < s.len() && s[at + 1] == '/';
    let from = if closes {
        at + 2
    } else {
        at + 1
    };
    if from < s.len() && name_char(s[from]) {
        lemma_ends(s, ' ', from + 1);
        assert(name_end(s, from) == name_end(s, from + 1));
    }
}

/// Whether markup can be converted: it has no list item, or it keeps its shape and every list item in
/// it is in a list, or else in nothing that remembers its place.
pub open spec fn convertible(html: Seq<char>) -> bool {
    !has_text(lower_ascii(html), "<li"@) || nests_from(html, 0, seq![])
}

/// Computes [`convertible`].
pub fn is_convertible(html: &str) -> (res: bool)
    ensures
        res == convertible(html@),
{
    !contains(lowercase_ascii(html).as_str(), "<li") || does_nest(html)
}

/// Where markup has its list items in lists, it may hold an item: inside a list, whatever is open
/// around that list.
pub proof fn law_items_fit_in_lists(open: Seq<Seq<char>>, list: Seq<char>)
    requires
        among(list, LISTS@),
        !among(list, CELLS@),
    ensures
        item_fits(open.push(list), false),
{
    assert(open.push(list).last() == list);
}

/// A list item outside of any list does not fit where a link, a quotation or a style is open around
/// it.
pub proof fn law_stray_items_do_not_fit(open: Seq<Seq<char>>, at: int)
    requires
        clear_of(open, LISTS@, CELLS@),
        0 <= at < open.len(),
        among(open[at], PLACED@),
        forall|i: int| at <= i < open.len() ==> !among(#[trigger] open[i], CELLS@),
    ensures
        !item_fits(open, false),
{
    lemma_stray_item(open, at, false);
}

proof fn lemma_stray_item(open: Seq<Seq<char>>, at: int, placed: bool)
    requires
        clear_of(open, LISTS@, CELLS@),
        -1 <= at < open.len(),
        at == -1 ==> placed,
        at >= 0 ==> among(open[at], PLACED@) && forall|i: int|
            at <= i < open.len() ==> !among(#[trigger] open[i], CELLS@),
    ensures
        !item_fits(open, placed),
    decreases open.len(),
{
    if open.len() > 0 && !among(open.last(), CELLS@) {
        let rest = open.drop_last();
        assert(open.last() == open[open.len() - 1]);
        if at == open.len() - 1 || at == -1 {
            lemma_stray_item(rest, -1, true);
        } else {
            assert forall|i: int| at <= i < rest.len() implies !among(
                #[trigger] rest[i],
                CELLS@,
            ) by {
                assert(rest[i] == open[i]);
            }
            lemma_stray_item(rest, at, placed || among(open.last(), PLACED@));
        }
    } else if open.len() > 0 {
        assert(open.last() == open[open.len() - 1]);
    }
}

} // verus!
