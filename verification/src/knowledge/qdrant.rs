//! The remote vector service: checks before a call and decisions on its reply.

use vstd::prelude::*;
use vstd::string::StringExecFns;

use super::falkor::require_writable;
use crate::knowledge::KnowledgeError;
use crate::reply::is_backend;
use crate::text::{decimal, opt_text};
use crate::text::{copy_opt, decimal_string};

verus! {

/// Whether a status means success.
pub open spec fn succeeded(status: u16) -> bool {
    200 <= status <= 299
}

/// Whether a status means success.
pub fn is_success(status: u16) -> (res: bool)
    ensures
        res == succeeded(status),
{
    200 <= status && status <= 299
}

/// What is said of lists of different length.
pub open spec fn length_message(ids: nat, vectors: nat) -> Seq<char> {
    "upsert_vectors: "@ + decimal(ids) + " ids but "@ + decimal(vectors) + " vectors"@
}

/// What is said of a vector of another width than its collection's.
pub open spec fn width_message(what: Seq<char>, width: nat, dim: nat) -> Seq<char> {
    what + " width "@ + decimal(width) + " != collection dim "@ + decimal(dim)
}

fn width_error(what: &str, width: usize, dim: usize) -> (res: KnowledgeError)
    ensures
        is_backend(res, width_message(what@, width as nat, dim as nat)),
{
    let mut m = what.to_owned();
    m.append(" width ");
    let w = decimal_string(width as u64);
    m.append(w.as_str());
    m.append(" != collection dim ");
    let d = decimal_string(dim as u64);
    m.append(d.as_str());
    KnowledgeError::Backend(m)
}

/// Whether `res` is the outcome of the check of an upsert: as many vectors as ids, each of the width
/// of the collection; of several faulty vectors the first is named.
pub open spec fn upsert_checked(
    dim: usize,
    ids: usize,
    widths: Seq<usize>,
    res: Result<(), KnowledgeError>,
) -> bool {
    if ids != widths.len() {
        res is Err && is_backend(res->Err_0, length_message(ids as nat, widths.len()))
    } else if exists|i: int| 0 <= i < widths.len() && #[trigger] widths[i] != dim {
        exists|i: int|
            {
                &&& 0 <= i < widths.len()
                &&& #[trigger] widths[i] != dim
                &&& forall|j: int| 0 <= j < i ==> #[trigger] widths[j] == dim
                &&& res is Err
                &&& is_backend(
                    res->Err_0,
                    width_message("upsert_vectors: vector"@, widths[i] as nat, dim as nat),
                )
            }
    } else {
        res is Ok
    }
}

/// Checks the shape of an upsert.
pub fn check_upsert(dim: usize, ids: usize, widths: &Vec<usize>) -> (res: Result<(), KnowledgeError>)
    ensures
        upsert_checked(dim, ids, widths@, res),
{
    if ids != widths.len() {
        let mut m = "upsert_vectors: ".to_owned();
        let a = decimal_string(ids as u64);
        m.append(a.as_str());
        m.append(" ids but ");
        let b = decimal_string(widths.len() as u64);
        m.append(b.as_str());
        m.append(" vectors");
        return Err(KnowledgeError::Backend(m));
    }
    let mut i: usize = 0;
    while i < widths.len()
        invariant
            i <= widths@.len(),
            ids == widths@.len(),
            forall|j: int| 0 <= j < i ==> #[trigger] widths@[j] == dim,
        decreases widths@.len() - i,
    {
        if widths[i] != dim {
            let e = width_error("upsert_vectors: vector", widths[i], dim);
            assert(widths@[i as int] != dim);
            return Err(e);
        }
        i = i + 1;
    }
    Ok(())
}

/// Checks an upsert into the service: writes must be allowed, then the shape must be right. Answers
/// whether there is anything to send.
pub fn plan_upsert(read_only: bool, dim: usize, ids: usize, widths: &Vec<usize>) -> (res: Result<
    bool,
    KnowledgeError,
>)
    ensures
        if read_only {
            &&& res is Err
            &&& res->Err_0 is Unavailable
            &&& res->Err_0->Unavailable_0@ == "knowledge store is read-only in this process"@
        } else {
            match res {
                Ok(send) => upsert_checked(dim, ids, widths@, Ok(())) && send == (ids > 0),
                Err(e) => upsert_checked(dim, ids, widths@, Err(e)),
            }
        },
{
    match require_writable(read_only) {
        Ok(_) => {},
        Err(e) => {
            return Err(e);
        },
    }
    match check_upsert(dim, ids, widths) {
        Ok(_) => Ok(ids > 0),
        Err(e) => Err(e),
    }
}

/// Checks a search: the query must have the width of the collection. Answers whether there is
/// anything to ask for.
pub fn plan_search(dim: usize, width: usize, limit: usize) -> (res: Result<bool, KnowledgeError>)
    ensures
        match res {
            Ok(send) => width == dim && send == (limit > 0),
            Err(e) => width != dim && is_backend(
                e,
                width_message("knn: query"@, width as nat, dim as nat),
            ),
        },
{
    if width != dim {
        return Err(width_error("knn: query", width, dim));
    }
    Ok(limit > 0)
}

/// What the status of a lookup says.
#[derive(Debug, Clone, Copy, PartialEq, Eq, Structural)]
pub enum Lookup {
    /// It is there.
    Present,
    /// It is not there.
    Missing,
    /// The lookup failed.
    Failed,
}

/// Reads the status of a lookup: any success is a find, 404 is a miss, all else is a failure.
pub fn lookup_outcome(status: u16) -> (res: Lookup)
    ensures
        res == if succeeded(status) {
            Lookup::Present
        } else if status == 404 {
            Lookup::Missing
        } else {
            Lookup::Failed
        },
{
    if is_success(status) {
        Lookup::Present
    } else if status == 404 {
        Lookup::Missing
    } else {
        Lookup::Failed
    }
}

/// Whether a collection exists after the attempt to create it: it was created, or it was there.
pub fn creation_succeeded(status: u16) -> (res: bool)
    ensures
        res == (succeeded(status) || status == 409),
{
    is_success(status) || status == 409
}

/// Whether a point is gone after its deletion: it was deleted, or its collection was not there.
pub fn deletion_succeeded(status: u16) -> (res: bool)
    ensures
        res == (succeeded(status) || status == 404),
{
    is_success(status) || status == 404
}

/// The error of a reply that is no success.
pub fn response_error(context: &str, status: &str, detail: Option<&str>) -> (res: KnowledgeError)
    ensures
        is_backend(
            res,
            context@ + " returned "@ + status@ + ": "@ + match detail {
                Some(d) => d@,
                None => "response body unavailable"@,
            },
        ),
{
    let mut m = context.to_owned();
    m.append(" returned ");
    m.append(status);
    m.append(": ");
    match detail {
        Some(d) => m.append(d),
        None => m.append("response body unavailable"),
    }
    KnowledgeError::Backend(m)
}

/// The id of a hit: the one stored with it, or else that of its point where it is a string.
pub fn hit_id(stored: &Option<String>, point: &Option<String>) -> (res: Result<String, KnowledgeError>)
    ensures
        match res {
            Ok(id) => Some(id@) == if stored is Some {
                opt_text(*stored)
            } else {
                opt_text(*point)
            },
            Err(e) => stored is None && point is None && is_backend(
                e,
                "Qdrant search point has no string id payload"@,
            ),
        },
{
    match (copy_opt(stored), copy_opt(point)) {
        (Some(id), _) => Ok(id),
        (None, Some(id)) => Ok(id),
        (None, None) => Err(
            KnowledgeError::Backend("Qdrant search point has no string id payload".to_owned()),
        ),
    }
}

/// What the vector store answers decides: a success is a find, `404` a miss; a collection that is there already
/// counts as created, one that is not there as cleared.
pub proof fn law_statuses_of_the_store_decide(
    status: u16,
    found: Lookup,
    created: bool,
    deleted: bool,
    ok: bool,
)
    requires
        call_ensures(lookup_outcome, (status,), found),
        call_ensures(creation_succeeded, (status,), created),
        call_ensures(deletion_succeeded, (status,), deleted),
        call_ensures(is_success, (status,), ok),
    ensures
        ok <==> status / 100 == 2,
        found == Lookup::Present <==> status / 100 == 2,
        found == Lookup::Missing <==> status == 404,
        created <==> status / 100 == 2 || status == 409,
        deleted <==> status / 100 == 2 || status == 404,
{
}

/// Nothing of the wrong shape is sent: an upsert goes out where writing is allowed, there is a vector for each
/// id and all have the width of the collection, and there is something to send; a search where the query
/// has that width and something is asked for.
pub proof fn law_only_matching_vectors_are_sent(
    read_only: bool,
    dim: usize,
    ids: usize,
    widths: &Vec<usize>,
    upsert: Result<bool, KnowledgeError>,
    width: usize,
    limit: usize,
    search: Result<bool, KnowledgeError>,
    i: int,
)
    requires
        call_ensures(plan_upsert, (read_only, dim, ids, widths), upsert),
        call_ensures(plan_search, (dim, width, limit), search),
    ensures
        read_only ==> upsert is Err,
        ids != widths@.len() ==> upsert is Err,
        0 <= i < widths@.len() && widths@[i] != dim ==> upsert is Err,
        !read_only && ids == widths@.len() && (forall|k: int|
            0 <= k < widths@.len() ==> #[trigger] widths@[k] == dim) ==> (upsert matches Ok(send) && send
            == (ids > 0)),
        width != dim <==> search is Err,
        search matches Ok(send) ==> send == (limit > 0),
{
    if 0 <= i < widths@.len() && widths@[i] != dim {
        assert(exists|k: int| 0 <= k < widths@.len() && #[trigger] widths@[k] != dim);
    }
}

/// A hit is named by what was stored with it, and by its point only where nothing was.
pub proof fn law_hits_are_named(
    stored: &Option<String>,
    point: &Option<String>,
    res: Result<String, KnowledgeError>,
)
    requires
        call_ensures(hit_id, (stored, point), res),
    ensures
        stored matches Some(s) ==> (res matches Ok(id) && id@ == s@),
        stored is None ==> (point matches Some(p) ==> (res matches Ok(id) && id@ == p@)),
        stored is None && point is None ==> res is Err,
{
}

} // verus!
