//! Cypher string literals.

use vstd::prelude::*;

use crate::text::texts;

verus! {

/// How one character is written within a single-quoted Cypher literal.
pub open spec fn escaped_char(c: char) -> Seq<char> {
    if c == '\\' {
        seq!['\\', '\\']
    } else if c == '\'' {
        seq!['\\', '\'']
    } else {
        seq![c]
    }
}

/// How a text is written within a single-quoted Cypher literal.
pub open spec fn escaped(s: Seq<char>) -> Seq<char>
    decreases s.len(),
{
    if s.len() == 0 {
        seq![]
    } else {
        escaped(s.drop_last()) + escaped_char(s.last())
    }
}

/// A text as a single-quoted Cypher literal.
pub open spec fn quoted(s: Seq<char>) -> Seq<char> {
    seq!['\''] + escaped(s) + seq!['\'']
}

/// The literals of a list of texts, separated by `, `.
pub open spec fn quoted_list(ids: Seq<Seq<char>>) -> Seq<char> {
    crate::text::join(ids.map_values(|s: Seq<char>| quoted(s)), ", "@)
}

fn push_escaped(out: &mut String, c: char)
    ensures
        final(out)@ == old(out)@ + escaped_char(c),
{
    if c == '\\' {
        out.push('\\');
        out.push('\\');
    } else if c == '\'' {
        out.push('\\');
        out.push('\'');
    } else {
        out.push(c);
    }
    assert(out@ =~= old(out)@ + escaped_char(c));
}

/// Escapes a text for use within a single-quoted Cypher literal.
pub fn escape(value: &str) -> (res: String)
    ensures
        res@ == escaped(value@),
{
    let mut out = String::new();
    for c in it: value.chars()
        invariant
            it.seq() == value@,
            out@ == escaped(value@.take(it.index() as int)),
    {
        assert(value@.take(it.index() + 1).drop_last() =~= value@.take(it.index() as int));
        push_escaped(&mut out, c);
    }
    assert(value@.take(value@.len() as int) =~= value@);
    out
}

/// Writes a text as a single-quoted Cypher literal.
pub fn cypher_str(value: &str) -> (res: String)
    ensures
        res@ == quoted(value@),
{
    let mut out = String::new();
    out.push('\'');
    for c in it: value.chars()
        invariant
            it.seq() == value@,
            out@ == seq!['\''] + escaped(value@.take(it.index() as int)),
    {
        assert(value@.take(it.index() + 1).drop_last() =~= value@.take(it.index() as int));
        let ghost before = out@;
        push_escaped(&mut out, c);
        assert(out@ =~= seq!['\''] + escaped(value@.take(it.index() + 1)));
    }
    assert(value@.take(value@.len() as int) =~= value@);
    out.push('\'');
    assert(out@ =~= quoted(value@));
    out
}

/// Writes a list of texts as Cypher literals separated by `, `.
pub fn cypher_list(ids: &Vec<String>) -> (res: String)
    ensures
        res@ == quoted_list(texts(ids@)),
{
    let mut parts: Vec<String> = Vec::new();
    let ghost images = texts(ids@).map_values(|s: Seq<char>| quoted(s));
    let mut i: usize = 0;
    while i < ids.len()
        invariant
            i <= ids@.len(),
            images == texts(ids@).map_values(|s: Seq<char>| quoted(s)),
            texts(parts@) == images.take(i as int),
        decreases ids@.len() - i,
    {
        let ghost before = texts(parts@);
        let part = cypher_str(ids[i].as_str());
        parts.push(part);
        assert(texts(parts@) =~= before.push(part@));
        assert(images[i as int] == quoted(texts(ids@)[i as int]));
        i = i + 1;
        assert(texts(parts@) =~= images.take(i as int));
    }
    assert(images.take(i as int) =~= images);
    crate::text::join_strings(&parts, ", ")
}

/// Writes a bracketed list of texts as Cypher literals.
pub fn cypher_id_list(ids: &Vec<String>) -> (res: String)
    ensures
        res@ == seq!['['] + quoted_list(texts(ids@)) + seq![']'],
{
    let inner = cypher_list(ids);
    let mut out = String::new();
    out.push('[');
    vstd::string::StringExecFns::append(&mut out, inner.as_str());
    out.push(']');
    assert(out@ =~= seq!['['] + quoted_list(texts(ids@)) + seq![']']);
    out
}

/// What a reader of a single-quoted literal takes from the text after the opening quote: the text
/// of the literal and what follows its closing quote; nothing where the literal is not closed.
pub open spec fn read_literal(s: Seq<char>) -> Option<(Seq<char>, Seq<char>)>
    decreases s.len(),
{
    if s.len() == 0 {
        None
    } else if s[0] == '\'' {
        Some((seq![], s.skip(1)))
    } else if s[0] == '\\' {
        if s.len() < 2 {
            None
        } else {
            match read_literal(s.skip(2)) {
                Some((text, rest)) => Some((seq![s[1]] + text, rest)),
                None => None,
            }
        }
    } else {
        match read_literal(s.skip(1)) {
            Some((text, rest)) => Some((seq![s[0]] + text, rest)),
            None => None,
        }
    }
}

/// A quoted text is read back as it was, and what follows the literal is untouched by it, whatever
/// quotes and backslashes the text holds.
pub proof fn law_quoted_text_reads_back(s: Seq<char>, rest: Seq<char>)
    ensures
        quoted(s)[0] == '\'',
        read_literal((quoted(s) + rest).skip(1)) == Some((s, rest)),
{
    let tail = seq!['\''] + rest;
    assert((quoted(s) + rest).skip(1) =~= escaped(s) + tail);
    lemma_read_escaped(s, tail);
    assert(tail.skip(1) =~= rest);
    assert(read_literal(tail) == Some((Seq::<char>::empty(), rest)));
    assert(s + Seq::<char>::empty() =~= s);
}

proof fn lemma_read_escaped(s: Seq<char>, tail: Seq<char>)
    ensures
        read_literal(escaped(s) + tail) == match read_literal(tail) {
            Some((text, rest)) => Some((s + text, rest)),
            None => None,
        },
    decreases s.len(),
{
    if s.len() == 0 {
        assert(escaped(s) + tail =~= tail);
        match read_literal(tail) {
            Some((text, rest)) => {
                assert(s + text =~= text);
            },
            None => {},
        }
    } else {
        let c = s.last();
        let next = escaped_char(c) + tail;
        assert(escaped(s) + tail =~= escaped(s.drop_last()) + next);
        lemma_read_escaped(s.drop_last(), next);
        if c == '\\' || c == '\'' {
            assert(next.skip(2) =~= tail);
        } else {
            assert(next.skip(1) =~= tail);
        }
        match read_literal(tail) {
            Some((text, rest)) => {
                assert(s.drop_last() + (seq![c] + text) =~= s + text);
            },
            None => {},
        }
    }
}

} // verus!
