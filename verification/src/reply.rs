//! Replies of the graph service.
//!
//! A reply is a tree of scalars and arrays. Each node also carries its printed form, which error
//! messages quote.

use vstd::prelude::*;
use vstd::string::StringExecFns;
use vstd::utf8::{decode_utf8, valid_utf8};

use crate::knowledge::KnowledgeError;
use crate::text::{decimal, decimal_signed, unsigned_error, unsigned_value, utf8_error, utf8_lossy};
use crate::text::{
    decimal_signed_string, decimal_string, parse_u64, utf8_string, utf8_string_lossy,
};

verus! {

/// A value of a reply.
#[derive(Debug)]
pub struct Reply {
    /// What the value is.
    pub body: Body,
    /// The printed form of the value.
    pub shown: String,
}

/// What a value of a reply is.
#[derive(Debug)]
pub enum Body {
    /// Nothing.
    Nil,
    /// An integer.
    Int(i64),
    /// A byte string.
    Bulk(Vec<u8>),
    /// A simple string.
    Simple(String),
    /// A string with a declared format.
    Verbatim(String),
    /// A list of values.
    Array(Vec<Reply>),
    /// Any other value.
    Other,
}

/// The error of a failed operation of the store.
pub open spec fn is_backend(e: KnowledgeError, message: Seq<char>) -> bool {
    e is Backend && e->Backend_0@ == message
}

/// The rows of a reply: its second part, every element of which is a list.
pub fn parse_rows<'a>(reply: &'a Reply) -> (res: Result<Vec<&'a Vec<Reply>>, KnowledgeError>)
    ensures
        match reply.body {
            Body::Array(parts) => if parts@.len() < 2 {
                res is Ok && res->Ok_0@.len() == 0
            } else {
                match parts@[1].body {
                    Body::Array(rows) => match res {
                        Ok(v) => {
                            &&& v@.len() == rows@.len()
                            &&& forall|i: int|
                                0 <= i < rows@.len() ==> (#[trigger] rows@[i]).body == Body::Array(
                                    *v@[i],
                                )
                        },
                        Err(e) => exists|i: int|
                            {
                                &&& 0 <= i < rows@.len()
                                &&& !((#[trigger] rows@[i]).body is Array)
                                &&& forall|j: int|
                                    0 <= j < i ==> (#[trigger] rows@[j]).body is Array
                                &&& is_backend(
                                    e,
                                    "FalkorDB row is not an array: "@ + rows@[i].shown@,
                                )
                            },
                    },
                    _ => res is Err && is_backend(
                        res->Err_0,
                        "FalkorDB result rows are not an array: "@ + parts@[1].shown@,
                    ),
                }
            },
            _ => res is Err && is_backend(
                res->Err_0,
                "FalkorDB returned a non-array graph response"@,
            ),
        },
{
    match &reply.body {
        Body::Array(parts) => {
            if parts.len() < 2 {
                return Ok(Vec::new());
            }
            match &parts[1].body {
                Body::Array(rows) => rows_of(rows),
                _ => {
                    let mut m = "FalkorDB result rows are not an array: ".to_owned();
                    m.append(parts[1].shown.as_str());
                    Err(KnowledgeError::Backend(m))
                },
            }
        },
        _ => Err(
            KnowledgeError::Backend("FalkorDB returned a non-array graph response".to_owned()),
        ),
    }
}

fn rows_of<'a>(rows: &'a Vec<Reply>) -> (res: Result<Vec<&'a Vec<Reply>>, KnowledgeError>)
    ensures
        match res {
            Ok(v) => {
                &&& v@.len() == rows@.len()
                &&& forall|i: int|
                    0 <= i < rows@.len() ==> (#[trigger] rows@[i]).body == Body::Array(*v@[i])
            },
            Err(e) => exists|i: int|
                {
                    &&& 0 <= i < rows@.len()
                    &&& !((#[trigger] rows@[i]).body is Array)
                    &&& forall|j: int| 0 <= j < i ==> (#[trigger] rows@[j]).body is Array
                    &&& is_backend(e, "FalkorDB row is not an array: "@ + rows@[i].shown@)
                },
        },
{
    let mut out: Vec<&'a Vec<Reply>> = Vec::new();
    let mut i: usize = 0;
    while i < rows.len()
        invariant
            i <= rows@.len(),
            out@.len() == i,
            forall|j: int| 0 <= j < i ==> (#[trigger] rows@[j]).body == Body::Array(*out@[j]),
        decreases rows@.len() - i,
    {
        match &rows[i].body {
            Body::Array(columns) => {
                out.push(columns);
            },
            _ => {
                let mut m = "FalkorDB row is not an array: ".to_owned();
                m.append(rows[i].shown.as_str());
                assert(!(rows@[i as int].body is Array));
                return Err(KnowledgeError::Backend(m));
            },
        }
        i = i + 1;
    }
    Ok(out)
}

/// The text of the value of a column, or what is wrong with it.
pub open spec fn column_text(row: Seq<Reply>, index: int) -> Result<Seq<char>, Seq<char>> {
    if index >= row.len() {
        Err("FalkorDB result row is missing column "@ + decimal(index as nat))
    } else {
        match row[index].body {
            Body::Bulk(bytes) => if valid_utf8(bytes@) {
                Ok(decode_utf8(bytes@))
            } else {
                Err("FalkorDB string is not UTF-8: "@ + utf8_error(bytes@))
            },
            Body::Simple(s) => Ok(s@),
            Body::Int(n) => Ok(decimal_signed(n as int)),
            _ => Err(
                "FalkorDB column "@ + decimal(index as nat) + " is not a scalar string: "@
                    + row[index].shown@,
            ),
        }
    }
}

fn missing_column(index: usize) -> (res: KnowledgeError)
    ensures
        is_backend(res, "FalkorDB result row is missing column "@ + decimal(index as nat)),
{
    let mut m = "FalkorDB result row is missing column ".to_owned();
    let d = decimal_string(index as u64);
    m.append(d.as_str());
    KnowledgeError::Backend(m)
}

/// Reads a column as a string.
pub fn row_string(row: &Vec<Reply>, index: usize) -> (res: Result<String, KnowledgeError>)
    ensures
        match res {
            Ok(s) => column_text(row@, index as int) == Ok::<Seq<char>, Seq<char>>(s@),
            Err(e) => column_text(row@, index as int) is Err && is_backend(
                e,
                column_text(row@, index as int)->Err_0,
            ),
        },
{
    if index >= row.len() {
        return Err(missing_column(index));
    }
    match &row[index].body {
        Body::Bulk(bytes) => match utf8_string(bytes) {
            Ok(s) => Ok(s),
            Err(e) => {
                let mut m = "FalkorDB string is not UTF-8: ".to_owned();
                m.append(e.as_str());
                Err(KnowledgeError::Backend(m))
            },
        },
        Body::Simple(s) => Ok(s.clone()),
        Body::Int(n) => Ok(decimal_signed_string(*n)),
        _ => {
            let mut m = "FalkorDB column ".to_owned();
            let d = decimal_string(index as u64);
            m.append(d.as_str());
            m.append(" is not a scalar string: ");
            m.append(row[index].shown.as_str());
            Err(KnowledgeError::Backend(m))
        },
    }
}

/// Reads a column as a string that may be absent.
pub fn row_string_optional(row: &Vec<Reply>, index: usize) -> (res: Result<
    Option<String>,
    KnowledgeError,
>)
    ensures
        if index < row@.len() && row@[index as int].body is Nil {
            res == Ok::<Option<String>, KnowledgeError>(None)
        } else {
            match res {
                Ok(s) => s is Some && column_text(row@, index as int) == Ok::<
                    Seq<char>,
                    Seq<char>,
                >(s->0@),
                Err(e) => column_text(row@, index as int) is Err && is_backend(
                    e,
                    column_text(row@, index as int)->Err_0,
                ),
            }
        },
{
    if index < row.len() {
        if let Body::Nil = &row[index].body {
            return Ok(None);
        }
    }
    match row_string(row, index) {
        Ok(s) => Ok(Some(s)),
        Err(e) => Err(e),
    }
}

/// The number of a text, or what is wrong with it.
pub open spec fn number_of(s: Seq<char>) -> Result<nat, Seq<char>> {
    match unsigned_value(s) {
        Some(n) if n <= u64::MAX => Ok(n),
        _ => Err("FalkorDB value is not an unsigned integer: "@ + unsigned_error(s)),
    }
}

/// The unsigned number in a column, or what is wrong with it.
pub open spec fn column_number(row: Seq<Reply>, index: int) -> Result<nat, Seq<char>> {
    let other = "FalkorDB column "@ + decimal(index as nat) + " is not an unsigned integer: "@
        + row[index].shown@;
    if index >= row.len() {
        Err("FalkorDB result row is missing column "@ + decimal(index as nat))
    } else {
        match row[index].body {
            Body::Int(n) => if n >= 0 {
                Ok(n as nat)
            } else {
                Err(other)
            },
            Body::Bulk(bytes) => number_of(utf8_lossy(bytes@)),
            Body::Simple(s) => number_of(s@),
            _ => Err(other),
        }
    }
}

fn parse_number(s: &str) -> (res: Result<u64, KnowledgeError>)
    ensures
        match res {
            Ok(n) => number_of(s@) == Ok::<nat, Seq<char>>(n as nat),
            Err(e) => number_of(s@) is Err && is_backend(e, number_of(s@)->Err_0),
        },
{
    match parse_u64(s) {
        Ok(n) => Ok(n),
        Err(e) => {
            let mut m = "FalkorDB value is not an unsigned integer: ".to_owned();
            m.append(e.as_str());
            Err(KnowledgeError::Backend(m))
        },
    }
}

/// Reads a column as an unsigned number.
pub fn row_u64(row: &Vec<Reply>, index: usize) -> (res: Result<u64, KnowledgeError>)
    ensures
        match res {
            Ok(n) => column_number(row@, index as int) == Ok::<nat, Seq<char>>(n as nat),
            Err(e) => column_number(row@, index as int) is Err && is_backend(
                e,
                column_number(row@, index as int)->Err_0,
            ),
        },
{
    if index >= row.len() {
        return Err(missing_column(index));
    }
    match &row[index].body {
        Body::Int(n) if *n >= 0 => Ok(*n as u64),
        Body::Bulk(bytes) => {
            let s = utf8_string_lossy(bytes);
            parse_number(s.as_str())
        },
        Body::Simple(s) => parse_number(s.as_str()),
        _ => {
            let mut m = "FalkorDB column ".to_owned();
            let d = decimal_string(index as u64);
            m.append(d.as_str());
            m.append(" is not an unsigned integer: ");
            m.append(row[index].shown.as_str());
            Err(KnowledgeError::Backend(m))
        },
    }
}

/// The list of lists that a reply holds first: the reply itself where it is a non-empty list of
/// lists only, else that of the first element that holds one.
pub open spec fn rows_within(reply: Reply) -> Option<Seq<Reply>>
    decreases reply,
{
    match reply.body {
        Body::Array(items) => if items@.len() > 0 && (forall|i: int|
            0 <= i < items@.len() ==> (#[trigger] items@[i]).body is Array) {
            Some(items@)
        } else {
            first_rows_within(items, 0)
        },
        _ => None,
    }
}

/// The list of lists that the first element at or after `i` holds.
pub open spec fn first_rows_within(items: Vec<Reply>, i: int) -> Option<Seq<Reply>>
    decreases items, items@.len() - i,
{
    if i < 0 || i >= items@.len() {
        None
    } else {
        match rows_within(items@[i]) {
            Some(rows) => Some(rows),
            None => first_rows_within(items, i + 1),
        }
    }
}

} // verus!
