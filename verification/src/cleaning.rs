//! Cleaning: the article of a page, as sanitized text of sufficient length.

use vstd::prelude::*;
use vstd::string::StringExecFns;

use crate::markup::{convertible, is_convertible};
use crate::text::{
    is_white, join, lemma_trim_end_by, lemma_trim_end_props, lemma_trim_start_by,
    lemma_trim_start_props, trim_start_by, white,
};
use crate::text::{
    contains, decimal, decimal_string, has_text, is_blank, lemma_trimmed, lines, lines_of,
    lower_ascii, lowercase_ascii, occurs_at, opt_text, texts, trim, trimmed, words, words_of,
};
use crate::web::{parse_url, url_error, url_parts};

verus! {

/// The fewest words of a document.
pub const MIN_WORDS: usize = 20;

/// The version of the artifacts.
pub const ARTIFACT_VERSION: u8 = 1;

/// Errors raised by the cleaning process.
#[derive(Debug, Clone, PartialEq, Eq)]
pub enum CleaningError {
    /// An artifact could not be decoded.
    Artifact(String),
    /// A local file operation failed.
    Storage(String),
}

impl CleaningError {
    /// The message of the error.
    pub open spec fn text(self) -> Seq<char> {
        match self {
            CleaningError::Artifact(m) => "invalid artifact: "@ + m@,
            CleaningError::Storage(m) => "storage: "@ + m@,
        }
    }

    /// The message of the error.
    pub fn message(&self) -> (res: String)
        ensures
            res@ == self.text(),
    {
        let (start, rest) = match self {
            CleaningError::Artifact(m) => ("invalid artifact: ", m),
            CleaningError::Storage(m) => ("storage: ", m),
        };
        let mut s = start.to_owned();
        s.append(rest.as_str());
        s
    }
}

/// A scraped page, as the cleaning process is handed it.
#[derive(Debug)]
pub struct RawArtifact {
    /// The version of the artifact.
    pub schema_version: u8,
    /// Stable document identity.
    pub document_id: String,
    /// Source URL.
    pub source_url: String,
    /// Provider title.
    pub title: String,
    /// Where the page lies, below the data directory.
    pub raw_path: String,
}

/// A clean document.
#[derive(Debug)]
pub struct CleanArtifact {
    /// The version of the artifact.
    pub schema_version: u8,
    /// Stable document identity.
    pub document_id: String,
    /// Source URL.
    pub source_url: String,
    /// The title.
    pub title: String,
    /// The text.
    pub markdown: String,
    /// The language, where it was recognized.
    pub language: Option<String>,
    /// When it was cleaned.
    pub cleaned_at: String,
}

/// The article of a page.
#[derive(Debug)]
pub struct Article {
    /// Its title.
    pub title: String,
    /// Its content, as markdown.
    pub content: String,
}

/// Accepts the version of a raw artifact.
pub fn validate_version(version: u8) -> (res: Result<(), CleaningError>)
    ensures
        if version == ARTIFACT_VERSION {
            res is Ok
        } else {
            res matches Err(CleaningError::Artifact(m)) && m@
                == "unsupported raw artifact schema version "@ + decimal(version as nat)
                + "; expected "@ + decimal(ARTIFACT_VERSION as nat)
        },
{
    if version == ARTIFACT_VERSION {
        Ok(())
    } else {
        let mut s = "unsupported raw artifact schema version ".to_owned();
        s.append(decimal_string(version as u64).as_str());
        s.append("; expected ");
        s.append(decimal_string(ARTIFACT_VERSION as u64).as_str());
        Err(CleaningError::Artifact(s))
    }
}

// ---------------------------------------------------------------------------------------------
// What the outside crates read in a page.
// ---------------------------------------------------------------------------------------------
/// The title and the main content that `readability` finds in a page, or the wording of its error.
pub uninterp spec fn readable(html: Seq<char>, href: Seq<char>) -> Result<
    (Seq<char>, Seq<char>),
    Seq<char>,
>;

/// The markdown that `html2md` makes of a page.
pub uninterp spec fn markdown_of(html: Seq<char>) -> Seq<char>;

/// The language that `whatlang` recognizes in a text, as it names it.
pub uninterp spec fn language_of(text: Seq<char>) -> Option<Seq<char>>;

/// Calls `readability::extractor::extract` on the bytes of a page with its address. The title and the
/// content that it finds, and the wording of its error, are functions of the page and the address. It
/// descends as deep as the elements of the page nest.
#[verifier::external_body]
fn find_article(html: &str, href: &str) -> (res: Result<(String, String), String>)
    requires
        url_parts(href@) is Some,
    ensures
        match res {
            Ok(p) => readable(html@, href@) == Ok::<(Seq<char>, Seq<char>), Seq<char>>(
                (p.0@, p.1@),
            ),
            Err(e) => readable(html@, href@) == Err::<(Seq<char>, Seq<char>), Seq<char>>(e@),
        },
{
    let url = url::Url::parse(href).map_err(|error| error.to_string())?;
    let mut cursor = std::io::Cursor::new(html.as_bytes());
    match readability::extractor::extract(&mut cursor, &url) {
        Ok(product) => Ok((product.title, product.content)),
        Err(error) => Err(error.to_string()),
    }
}

/// Calls `html2md::parse_html`. The markdown is a function of the page. A list item outside of any
/// list deletes text from the beginning of what has been written; where a link, a quotation or a style
/// around it remembers its place in that text, `html2md` panics. [`convertible`] markup has no such
/// item: it is parsed as its tags nest, and its list items are in lists, or else in no such element.
/// `html2md` descends as deep as the elements nest.
#[verifier::external_body]
fn to_markdown(html: &str) -> (res: String)
    requires
        convertible(html@),
    ensures
        res@ == markdown_of(html@),
{
    html2md::parse_html(html)
}

/// Calls `whatlang::detect` and names the language that it answers. The answer is a function of the
/// text.
#[verifier::external_body]
fn detect_language(text: &str) -> (res: Option<String>)
    ensures
        opt_text(res) == language_of(text@),
{
    whatlang::detect(text).map(|info| format!("{:?}", info.lang()))
}

/// The article of a page, or why there is none.
pub open spec fn article_of(html: Seq<char>, source_url: Seq<char>) -> Result<
    (Seq<char>, Seq<char>),
    Seq<char>,
> {
    if url_parts(source_url) is None {
        Err(url_error(source_url))
    } else {
        match readable(html, source_url) {
            Ok(p) => if convertible(p.1) {
                Ok((p.0, markdown_of(p.1)))
            } else {
                Err("article holds list items that cannot be converted"@)
            },
            Err(e) => Err("readability extraction failed: "@ + e),
        }
    }
}

/// Extracts the article of a page as markdown. An address that cannot be read is an error, and so is
/// an article whose list items cannot be converted.
pub fn extract(html: &str, source_url: &str) -> (res: Result<Article, CleaningError>)
    ensures
        match article_of(html@, source_url@) {
            Ok(p) => res matches Ok(a) && a.title@ == p.0 && a.content@ == p.1,
            Err(e) => res matches Err(CleaningError::Artifact(m)) && m@ == e,
        },
{
    match parse_url(source_url) {
        Err(e) => Err(CleaningError::Artifact(e)),
        Ok(_) => match find_article(html, source_url) {
            Ok((title, content)) => if is_convertible(content.as_str()) {
                Ok(Article { title, content: to_markdown(content.as_str()) })
            } else {
                Err(
                    CleaningError::Artifact(
                        "article holds list items that cannot be converted".to_owned(),
                    ),
                )
            },
            Err(e) => {
                let mut s = "readability extraction failed: ".to_owned();
                s.append(e.as_str());
                Err(CleaningError::Artifact(s))
            },
        },
    }
}

// ---------------------------------------------------------------------------------------------
// Sanitizing.
// ---------------------------------------------------------------------------------------------
/// Whether a line embeds data.
pub open spec fn embeds_data(line: Seq<char>) -> bool {
    has_text(lower_ascii(line), "data:"@)
}

/// What is written for the lines of a text, and whether the last of them was blank: of a run of
/// blank lines one line break stays, lines that embed data are dropped, and every other line is
/// trimmed.
pub open spec fn written(list: Seq<Seq<char>>) -> (Seq<char>, bool)
    decreases list.len(),
{
    if list.len() == 0 {
        (seq![], false)
    } else {
        let (out, blank) = written(list.drop_last());
        let line = trimmed(list.last());
        if line.len() == 0 {
            (
                if blank {
                    out
                } else {
                    out.push('\n')
                },
                true,
            )
        } else if embeds_data(line) {
            (out, false)
        } else {
            ((out + line).push('\n'), false)
        }
    }
}

/// A text without embedded data, runs of blank lines, and white space around its lines and itself.
pub open spec fn sanitized(markdown: Seq<char>) -> Seq<char> {
    trimmed(written(lines(markdown)).0)
}

/// Removes embedded data, runs of blank lines, and white space around lines and the text itself.
pub fn sanitize(markdown: &str) -> (res: String)
    ensures
        res@ == sanitized(markdown@),
{
    let list = lines_of(markdown);
    let ghost all = texts(list@);
    let mut output = String::new();
    let mut blank = false;
    let mut i: usize = 0;
    assert(all.take(0) =~= seq![]);
    assert(output@ =~= seq![]);
    while i < list.len()
        invariant
            i <= list@.len(),
            all == texts(list@),
            (output@, blank) == written(all.take(i as int)),
        decreases list@.len() - i,
    {
        proof {
            assert(all.take(i + 1).drop_last() =~= all.take(i as int));
            assert(all.take(i + 1).last() == list@[i as int]@);
        }
        let line = trim(list[i].as_str());
        if line.as_str().is_empty() {
            if !blank {
                output.push('\n');
            }
            blank = true;
        } else {
            blank = false;
            let lower = lowercase_ascii(line.as_str());
            if !contains(lower.as_str(), "data:") {
                output.append(line.as_str());
                output.push('\n');
            }
        }
        i = i + 1;
    }
    assert(all.take(i as int) =~= all);
    trim(output.as_str())
}

proof fn lemma_line_break_joins(out: Seq<char>, line: Seq<char>)
    requires
        out.len() == 0 || out.last() == '\n',
        !embeds_data(out),
        !embeds_data(line),
    ensures
        !embeds_data((out + line).push('\n')),
{
    let all = (out + line).push('\n');
    let low = lower_ascii(all);
    let pat = "data:"@;
    reveal_strlit("data:");
    if embeds_data(all) {
        let i = choose|i: int| #[trigger] occurs_at(low, pat, i);
        assert forall|k: int| i <= k < i + 5 implies all[k] != '\n' by {
            assert(low.subrange(i, i + 5)[k - i] == pat[k - i]);
        }
        assert(i + 5 <= low.len());
        if i + 5 > out.len() + line.len() {
            assert(all[i + 4] == '\n');
        }
        if i < out.len() {
            if out.len() < i + 5 {
                assert(all[out.len() - 1] == '\n');
            }
            assert(lower_ascii(out).subrange(i, i + 5) =~= low.subrange(i, i + 5));
            assert(occurs_at(lower_ascii(out), pat, i));
        } else {
            let k = i - out.len();
            assert(lower_ascii(line).subrange(k, k + 5) =~= low.subrange(i, i + 5));
            assert(occurs_at(lower_ascii(line), pat, k));
        }
    }
}

proof fn lemma_nothing_embeds_no_data()
    ensures
        !embeds_data(seq![]),
{
    reveal_strlit("data:");
    assert forall|i: int| !#[trigger] occurs_at(lower_ascii(seq![]), "data:"@, i) by {
        assert(lower_ascii(seq![]).len() == 0);
    }
}

proof fn lemma_written_embeds_no_data(list: Seq<Seq<char>>)
    ensures
        !embeds_data(written(list).0),
        written(list).0.len() == 0 || written(list).0.last() == '\n',
    decreases list.len(),
{
    lemma_nothing_embeds_no_data();
    if list.len() > 0 {
        lemma_written_embeds_no_data(list.drop_last());
        let out = written(list.drop_last()).0;
        let line = trimmed(list.last());
        if line.len() == 0 {
            assert(out + seq![] =~= out);
            lemma_line_break_joins(out, seq![]);
        } else if !embeds_data(line) {
            lemma_line_break_joins(out, line);
        }
    }
}

/// A sanitized text embeds no data anywhere, and no white space surrounds it.
pub proof fn law_sanitized_text_embeds_no_data(markdown: Seq<char>)
    ensures
        !embeds_data(sanitized(markdown)),
        trimmed(sanitized(markdown)) == sanitized(markdown),
{
    let whole = written(lines(markdown)).0;
    lemma_written_embeds_no_data(lines(markdown));
    let from = lemma_trimmed(whole);
    let low = lower_ascii(sanitized(markdown));
    if embeds_data(sanitized(markdown)) {
        let i = choose|i: int| #[trigger] occurs_at(low, "data:"@, i);
        let n = "data:"@.len();
        assert(lower_ascii(whole).subrange(from + i, from + i + n) =~= low.subrange(i, i + n));
        assert(occurs_at(lower_ascii(whole), "data:"@, from + i));
    }
}

// ---------------------------------------------------------------------------------------------
// Documents.
// ---------------------------------------------------------------------------------------------
/// The language of a text in lower case, where it is recognized.
pub open spec fn named_language(text: Seq<char>) -> Option<Seq<char>> {
    match language_of(text) {
        Some(l) => Some(lower_ascii(l)),
        None => None,
    }
}

/// Whether a clean document is the one of an article.
pub open spec fn cleaned(
    raw: RawArtifact,
    title: Seq<char>,
    content: Seq<char>,
    now: Seq<char>,
    res: Result<CleanArtifact, CleaningError>,
) -> bool {
    let text = sanitized(content);
    if words(text).len() < MIN_WORDS {
        res matches Err(CleaningError::Artifact(m)) && m@ == "document has "@ + decimal(
            words(text).len(),
        ) + " words; minimum is "@ + decimal(MIN_WORDS as nat)
    } else {
        res matches Ok(a) && a.schema_version == ARTIFACT_VERSION && a.document_id@
            == raw.document_id@ && a.source_url@ == raw.source_url@ && a.title@ == (if trimmed(
            title,
        ).len() == 0 {
            raw.title@
        } else {
            title
        }) && a.markdown@ == text && opt_text(a.language) == named_language(text)
            && a.cleaned_at@ == now
    }
}

/// Makes the clean document of an article: the text is sanitized, one that is too short is refused,
/// the title of the article counts unless it is blank, and the language is named where it is
/// recognized.
pub fn clean_article(raw: &RawArtifact, article: &Article, now: &str) -> (res: Result<
    CleanArtifact,
    CleaningError,
>)
    ensures
        cleaned(*raw, article.title@, article.content@, now@, res),
{
    let markdown = sanitize(article.content.as_str());
    let count: usize = words_of(markdown.as_str()).len();
    if count < MIN_WORDS {
        let mut s = "document has ".to_owned();
        s.append(decimal_string(count as u64).as_str());
        s.append(" words; minimum is ");
        s.append(decimal_string(MIN_WORDS as u64).as_str());
        return Err(CleaningError::Artifact(s));
    }
    let language = match detect_language(markdown.as_str()) {
        Some(name) => Some(lowercase_ascii(name.as_str())),
        None => None,
    };
    let title = if is_blank(article.title.as_str()) {
        raw.title.clone()
    } else {
        article.title.clone()
    };
    Ok(
        CleanArtifact {
            schema_version: ARTIFACT_VERSION,
            document_id: raw.document_id.clone(),
            source_url: raw.source_url.clone(),
            title,
            markdown,
            language,
            cleaned_at: now.to_owned(),
        },
    )
}

/// Cleans a scraped page.
pub fn clean_page(raw: &RawArtifact, html: &str, now: &str) -> (res: Result<
    CleanArtifact,
    CleaningError,
>)
    ensures
        match article_of(html@, raw.source_url@) {
            Ok(p) => cleaned(*raw, p.0, p.1, now@, res),
            Err(e) => res matches Err(CleaningError::Artifact(m)) && m@ == e,
        },
{
    match extract(html, raw.source_url.as_str()) {
        Err(e) => Err(e),
        Ok(article) => clean_article(raw, &article, now),
    }
}

// ---------------------------------------------------------------------------------------------
// Laws.
// ---------------------------------------------------------------------------------------------
/// The lines of a list, each without white space around it.
pub open spec fn trimmed_lines(list: Seq<Seq<char>>) -> Seq<Seq<char>> {
    list.map_values(|l: Seq<char>| trimmed(l))
}

proof fn lemma_ends_are_dark(s: Seq<char>)
    requires
        trimmed(s).len() > 0,
    ensures
        !is_white(trimmed(s)[0]),
        !is_white(trimmed(s).last()),
{
    let front = trim_start_by(s, white());
    lemma_trim_start_props(s, white());
    lemma_trim_end_props(front, white());
    assert(trimmed(s)[0] == front[0]);
}

proof fn lemma_trims_to(s: Seq<char>)
    requires
        s.len() > 0,
        !is_white(s[0]),
        !is_white(s.last()),
    ensures
        trimmed(s.push('\n')) == s,
        trimmed(s) == s,
{
    let t = s.push('\n');
    assert(t[0] == s[0]);
    lemma_trim_start_by(t, white(), 0);
    assert(t.skip(0) =~= t);
    lemma_trim_end_by(t, white(), s.len() as int);
    assert(t.take(s.len() as int) =~= s);
    lemma_trim_start_by(s, white(), 0);
    assert(s.skip(0) =~= s);
    lemma_trim_end_by(s, white(), s.len() as int);
    assert(s.take(s.len() as int) =~= s);
}

proof fn lemma_written_one(line: Seq<char>)
    requires
        trimmed(line).len() > 0,
        !has_text(lower_ascii(trimmed(line)), "data:"@),
    ensures
        written(seq![line]) == (trimmed(line).push('\n'), false),
{
    let list = seq![line];
    assert(list.drop_last() =~= seq![]);
    assert(written(list.drop_last()) == (Seq::<char>::empty(), false));
    assert(Seq::<char>::empty() + trimmed(line) =~= trimmed(line));
}

proof fn lemma_written_lines(list: Seq<Seq<char>>)
    requires
        list.len() > 0,
        forall|i: int|
            0 <= i < list.len() ==> trimmed(#[trigger] list[i]).len() > 0 && !has_text(
                lower_ascii(trimmed(list[i])),
                "data:"@,
            ),
    ensures
        written(list) == (join(trimmed_lines(list), "\n"@).push('\n'), false),
        join(trimmed_lines(list), "\n"@).len() > 0,
        join(trimmed_lines(list), "\n"@)[0] == trimmed(list[0])[0],
        join(trimmed_lines(list), "\n"@).last() == trimmed(list.last()).last(),
    decreases list.len(),
{
    reveal_strlit("\n");
    let parts = trimmed_lines(list);
    let line = trimmed(list.last());
    assert(trimmed(list[list.len() - 1]).len() > 0);
    if list.len() == 1 {
        assert(list =~= seq![list[0]]);
        lemma_written_one(list[0]);
        assert(parts[0] == line);
    } else {
        let front = list.drop_last();
        assert forall|i: int| 0 <= i < front.len() implies trimmed(#[trigger] front[i]).len() > 0
            && !has_text(lower_ascii(trimmed(front[i])), "data:"@) by {
            assert(front[i] == list[i]);
        }
        lemma_written_lines(front);
        assert(trimmed_lines(front) =~= parts.drop_last());
        let before = join(parts.drop_last(), "\n"@);
        assert(before.push('\n') + line =~= before + "\n"@ + line);
    }
}

/// Sanitizing keeps what a text says: the lines that are not blank and hold no `data:` stay, in their
/// order, one under the other, without white space around them.
pub proof fn law_sanitizing_keeps_the_lines(markdown: &str, res: String)
    requires
        call_ensures(sanitize, (markdown,), res),
        lines(markdown@).len() > 0,
        forall|i: int|
            0 <= i < lines(markdown@).len() ==> trimmed(#[trigger] lines(markdown@)[i]).len() > 0
                && !has_text(lower_ascii(trimmed(lines(markdown@)[i])), "data:"@),
    ensures
        res@ == join(trimmed_lines(lines(markdown@)), "\n"@),
{
    let list = lines(markdown@);
    lemma_written_lines(list);
    lemma_ends_are_dark(list[0]);
    assert(trimmed(list[list.len() - 1]).len() > 0);
    lemma_ends_are_dark(list.last());
    lemma_trims_to(join(trimmed_lines(list), "\n"@));
}

proof fn lemma_blank_run(a: Seq<char>, blanks: Seq<Seq<char>>)
    requires
        trimmed(a).len() > 0,
        !has_text(lower_ascii(trimmed(a)), "data:"@),
        blanks.len() > 0,
        forall|i: int| 0 <= i < blanks.len() ==> trimmed(#[trigger] blanks[i]).len() == 0,
    ensures
        written(seq![a] + blanks) == (trimmed(a) + "\n\n"@, true),
    decreases blanks.len(),
{
    reveal_strlit("\n\n");
    let list = seq![a] + blanks;
    assert(trimmed(blanks[blanks.len() - 1]).len() == 0);
    assert(list.last() == blanks.last());
    if blanks.len() == 1 {
        assert(list.drop_last() =~= seq![a]);
        lemma_written_one(a);
        assert(written(list).0 =~= trimmed(a) + "\n\n"@);
    } else {
        let front = blanks.drop_last();
        assert(list.drop_last() =~= seq![a] + front);
        assert forall|i: int| 0 <= i < front.len() implies trimmed(#[trigger] front[i]).len() == 0 by {
            assert(front[i] == blanks[i]);
        }
        lemma_blank_run(a, front);
    }
}

/// A run of blank lines between two lines leaves one of them, however long it is, and a line that holds
/// `data:`, however capitalized, leaves nothing.
pub proof fn law_sanitizing_shrinks_gaps(
    markdown: &str,
    res: String,
    a: Seq<char>,
    between: Seq<Seq<char>>,
    b: Seq<char>,
)
    requires
        call_ensures(sanitize, (markdown,), res),
        lines(markdown@) == seq![a] + between + seq![b],
        trimmed(a).len() > 0 && !has_text(lower_ascii(trimmed(a)), "data:"@),
        trimmed(b).len() > 0 && !has_text(lower_ascii(trimmed(b)), "data:"@),
        between.len() > 0,
    ensures
        (forall|i: int| 0 <= i < between.len() ==> trimmed(#[trigger] between[i]).len() == 0)
            ==> res@ == trimmed(a) + "\n\n"@ + trimmed(b),
        between.len() == 1 && has_text(lower_ascii(trimmed(between[0])), "data:"@) ==> res@ == trimmed(
            a,
        ) + "\n"@ + trimmed(b),
{
    reveal_strlit("\n\n");
    reveal_strlit("\n");
    reveal_strlit("data:");
    let list = lines(markdown@);
    assert(list.drop_last() =~= seq![a] + between);
    assert(list.last() == b);
    lemma_ends_are_dark(a);
    lemma_ends_are_dark(b);
    if forall|i: int| 0 <= i < between.len() ==> trimmed(#[trigger] between[i]).len() == 0 {
        lemma_blank_run(a, between);
        let whole = trimmed(a) + "\n\n"@ + trimmed(b);
        assert(written(list).0 =~= whole.push('\n'));
        assert(whole[0] == trimmed(a)[0] && whole.last() == trimmed(b).last());
        lemma_trims_to(whole);
    }
    if between.len() == 1 && has_text(lower_ascii(trimmed(between[0])), "data:"@) {
        let front = seq![a] + between;
        assert(front.drop_last() =~= seq![a]);
        assert(front.last() == between[0]);
        lemma_written_one(a);
        if trimmed(between[0]).len() == 0 {
            lemma_nothing_embeds_no_data();
            assert(trimmed(between[0]) =~= seq![]);
        }
        let whole = trimmed(a) + "\n"@ + trimmed(b);
        assert(written(front) == (trimmed(a).push('\n'), false));
        assert(written(list).0 =~= whole.push('\n'));
        assert(whole[0] == trimmed(a)[0] && whole.last() == trimmed(b).last());
        lemma_trims_to(whole);
    }
}

/// A document is kept where its sanitized text has twenty words or more, and only there; it keeps its
/// identity and its address, has the sanitized text, and the title of the article, or, where that is
/// blank, the one it came with.
pub proof fn law_documents_have_enough_words(
    raw: &RawArtifact,
    article: &Article,
    now: &str,
    content: &str,
    text: String,
    res: Result<CleanArtifact, CleaningError>,
)
    requires
        call_ensures(clean_article, (raw, article, now), res),
        call_ensures(sanitize, (content,), text),
        content@ == article.content@,
    ensures
        res is Ok <==> words(text@).len() >= 20,
        res matches Ok(a) ==> {
            &&& a.schema_version == 1
            &&& a.document_id@ == raw.document_id@
            &&& a.source_url@ == raw.source_url@
            &&& a.markdown@ == text@
            &&& a.cleaned_at@ == now@
            &&& trimmed(article.title@).len() > 0 ==> a.title@ == article.title@
            &&& trimmed(article.title@).len() == 0 ==> a.title@ == raw.title@
        },
{
}

} // verus!
