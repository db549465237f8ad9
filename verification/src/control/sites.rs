//! Per-host policies: the politeness override, the re-crawl interval, and the ladder's starting
//! hint.

use vstd::prelude::*;

use crate::text::same;

verus! {

/// Where the fetch ladder starts for a host.
#[derive(Debug, Clone, Copy, PartialEq, Eq, Structural)]
pub enum LadderHint {
    /// Plain HTTP client.
    Plain,
    /// Impersonated browser client (no JS).
    Impersonate,
    /// Full browser rendering.
    Browser,
}

impl LadderHint {
    /// The stored discriminator.
    pub open spec fn name(self) -> Seq<char> {
        match self {
            LadderHint::Plain => "plain"@,
            LadderHint::Impersonate => "impersonate"@,
            LadderHint::Browser => "browser"@,
        }
    }

    /// The stored discriminator.
    pub fn as_str(self) -> (res: &'static str)
        ensures
            res@ == self.name(),
    {
        match self {
            LadderHint::Plain => "plain",
            LadderHint::Impersonate => "impersonate",
            LadderHint::Browser => "browser",
        }
    }

    /// The hint of a discriminator.
    pub fn from_str(s: &str) -> (res: Result<LadderHint, ()>)
        ensures
            match res {
                Ok(h) => h.name() == s@,
                Err(_) => forall|h: LadderHint| h.name() != s@,
            },
    {
        if same(s, "plain") {
            Ok(LadderHint::Plain)
        } else if same(s, "impersonate") {
            Ok(LadderHint::Impersonate)
        } else if same(s, "browser") {
            Ok(LadderHint::Browser)
        } else {
            Err(())
        }
    }
}

/// A host's policy.
#[derive(Debug, Clone, Copy, PartialEq, Eq, Structural)]
pub struct SitePolicy {
    /// Overrides the global politeness floor for this host (ms).
    pub rate_limit_ms: Option<i64>,
    /// Default refresh interval for re-crawl scheduling; `None` is never.
    pub recrawl_seconds: Option<i64>,
    /// Ladder starting point; unknown or absent values mean "no hint".
    pub fetch_hint: Option<LadderHint>,
}

/// A stored policy: the hint is a text that may name no rung.
#[derive(Debug)]
pub struct SiteRow {
    /// The host.
    pub host: String,
    /// The politeness override (ms).
    pub rate_limit_ms: Option<i64>,
    /// The refresh interval.
    pub recrawl_seconds: Option<i64>,
    /// The stored hint.
    pub fetch_hint: Option<String>,
}

/// The hint that a stored text names.
pub open spec fn hint_of(s: Option<String>) -> Option<LadderHint> {
    match s {
        None => None,
        Some(t) => if t@ == LadderHint::Plain.name() {
            Some(LadderHint::Plain)
        } else if t@ == LadderHint::Impersonate.name() {
            Some(LadderHint::Impersonate)
        } else if t@ == LadderHint::Browser.name() {
            Some(LadderHint::Browser)
        } else {
            None
        },
    }
}

impl SiteRow {
    /// The policy that the row holds.
    pub open spec fn policy(self) -> SitePolicy {
        SitePolicy {
            rate_limit_ms: self.rate_limit_ms,
            recrawl_seconds: self.recrawl_seconds,
            fetch_hint: hint_of(self.fetch_hint),
        }
    }
}

/// The policies by host.
pub open spec fn policies(rows: Seq<SiteRow>) -> Seq<(Seq<char>, SitePolicy)> {
    rows.map_values(|r: SiteRow| (r.host@, r.policy()))
}

/// The policy of a host.
pub open spec fn policy_of(rows: Seq<(Seq<char>, SitePolicy)>, host: Seq<char>) -> Option<
    SitePolicy,
>
    decreases rows.len(),
{
    if rows.len() == 0 {
        None
    } else if rows[0].0 == host {
        Some(rows[0].1)
    } else {
        policy_of(rows.drop_first(), host)
    }
}

fn site_index(rows: &Vec<SiteRow>, host: &str) -> (res: Option<usize>)
    ensures
        match res {
            Some(i) => {
                &&& i < rows@.len()
                &&& rows@[i as int].host@ == host@
                &&& policy_of(policies(rows@), host@) == Some(rows@[i as int].policy())
                &&& forall|j: int| 0 <= j < i ==> (#[trigger] rows@[j]).host@ != host@
            },
            None => policy_of(policies(rows@), host@) is None && forall|j: int|
                0 <= j < rows@.len() ==> (#[trigger] rows@[j]).host@ != host@,
        },
{
    let ghost all = policies(rows@);
    assert(all.skip(0) =~= all);
    let mut i: usize = 0;
    while i < rows.len()
        invariant
            i <= rows@.len(),
            all == policies(rows@),
            policy_of(all, host@) == policy_of(all.skip(i as int), host@),
            forall|j: int| 0 <= j < i ==> (#[trigger] rows@[j]).host@ != host@,
        decreases rows@.len() - i,
    {
        assert(all.skip(i as int)[0] == (rows@[i as int].host@, rows@[i as int].policy()));
        assert(all.skip(i as int).drop_first() =~= all.skip(i + 1));
        if same(rows[i].host.as_str(), host) {
            return Some(i);
        }
        i = i + 1;
    }
    None
}

/// Reads one host's policy.
pub fn get(rows: &Vec<SiteRow>, host: &str) -> (res: Option<SitePolicy>)
    ensures
        res == policy_of(policies(rows@), host@),
{
    match site_index(rows, host) {
        None => None,
        Some(i) => {
            let hint = match &rows[i].fetch_hint {
                None => None,
                Some(s) => match LadderHint::from_str(s.as_str()) {
                    Ok(h) => {
                        proof {
                            lemma_hint_names();
                        }
                        Some(h)
                    },
                    Err(_) => {
                        assert(LadderHint::Plain.name() != s@);
                        assert(LadderHint::Impersonate.name() != s@);
                        assert(LadderHint::Browser.name() != s@);
                        None
                    },
                },
            };
            Some(
                SitePolicy {
                    rate_limit_ms: rows[i].rate_limit_ms,
                    recrawl_seconds: rows[i].recrawl_seconds,
                    fetch_hint: hint,
                },
            )
        },
    }
}

proof fn lemma_hint_names()
    ensures
        "plain"@ != "impersonate"@,
        "plain"@ != "browser"@,
        "impersonate"@ != "browser"@,
{
    reveal_strlit("plain");
    reveal_strlit("impersonate");
    reveal_strlit("browser");
    assert("plain"@.len() == 5);
    assert("impersonate"@.len() == 11);
    assert("browser"@.len() == 7);
}

/// Sets one host's policy.
pub fn set(
    rows: &mut Vec<SiteRow>,
    host: &str,
    rate_limit_ms: Option<i64>,
    recrawl_seconds: Option<i64>,
    fetch_hint: Option<LadderHint>,
)
    ensures
        policy_of(policies(final(rows)@), host@) == Some(
            SitePolicy { rate_limit_ms, recrawl_seconds, fetch_hint },
        ),
        forall|other: Seq<char>|
            other != host@ ==> #[trigger] policy_of(policies(final(rows)@), other) == policy_of(
                policies(old(rows)@),
                other,
            ),
{
    let hint = match fetch_hint {
        Some(h) => Some(h.as_str().to_owned()),
        None => None,
    };
    proof {
        lemma_hint_names();
        assert(hint_of(hint) == fetch_hint);
    }
    let ghost before = policies(rows@);
    let ghost policy = SitePolicy { rate_limit_ms, recrawl_seconds, fetch_hint };
    match site_index(rows, host) {
        Some(i) => {
            rows[i].rate_limit_ms = rate_limit_ms;
            rows[i].recrawl_seconds = recrawl_seconds;
            rows[i].fetch_hint = hint;
            proof {
                let after = policies(rows@);
                assert(after =~= before.update(i as int, (host@, policy)));
                assert forall|j: int| 0 <= j < i implies (#[trigger] before[j]).0 != host@ by {}
                lemma_policy_update(before, i as int, host@, policy);
            }
        },
        None => {
            let row = SiteRow {
                host: host.to_owned(),
                rate_limit_ms,
                recrawl_seconds,
                fetch_hint: hint,
            };
            rows.push(row);
            proof {
                let after = policies(rows@);
                assert(after =~= before.push((host@, policy)));
                assert forall|other: Seq<char>| #[trigger]
                    policy_of(after, other) == match policy_of(before, other) {
                        Some(p) => Some(p),
                        None => if other == host@ {
                            Some(policy)
                        } else {
                            None
                        },
                    } by {
                    lemma_policy_push(before, host@, policy, other);
                }
            }
        },
    }
}

proof fn lemma_policy_push(
    rows: Seq<(Seq<char>, SitePolicy)>,
    host: Seq<char>,
    policy: SitePolicy,
    other: Seq<char>,
)
    ensures
        policy_of(rows.push((host, policy)), other) == match policy_of(rows, other) {
            Some(p) => Some(p),
            None => if other == host {
                Some(policy)
            } else {
                None
            },
        },
    decreases rows.len(),
{
    let after = rows.push((host, policy));
    if rows.len() == 0 {
        assert(after[0] == (host, policy));
        assert(after.drop_first() =~= rows);
        assert(policy_of(rows, other) is None);
    } else {
        assert(after[0] == rows[0]);
        assert(after.drop_first() =~= rows.drop_first().push((host, policy)));
        lemma_policy_push(rows.drop_first(), host, policy, other);
    }
}

proof fn lemma_policy_update(
    rows: Seq<(Seq<char>, SitePolicy)>,
    i: int,
    host: Seq<char>,
    policy: SitePolicy,
)
    requires
        0 <= i < rows.len(),
        rows[i].0 == host,
        forall|j: int| 0 <= j < i ==> (#[trigger] rows[j]).0 != host,
    ensures
        policy_of(rows.update(i, (host, policy)), host) == Some(policy),
        forall|other: Seq<char>|
            other != host ==> #[trigger] policy_of(rows.update(i, (host, policy)), other)
                == policy_of(rows, other),
    decreases rows.len(),
{
    let after = rows.update(i, (host, policy));
    let rest = rows.drop_first();
    if i == 0 {
        assert(after.drop_first() =~= rest);
    } else {
        assert(rows[0].0 != host);
        assert(after.drop_first() =~= rest.update(i - 1, (host, policy)));
        assert forall|j: int| 0 <= j < i - 1 implies (#[trigger] rest[j]).0 != host by {
            assert(rest[j] == rows[j + 1]);
        }
        lemma_policy_update(rest, i - 1, host, policy);
        assert forall|other: Seq<char>| other != host implies #[trigger] policy_of(after, other)
            == policy_of(rows, other) by {
            assert(policy_of(after.drop_first(), other) == policy_of(rest, other));
        }
    }
}

/// A policy that was set is read, by the names of its hints, and a host without one has none.
pub proof fn law_policies_read_back(
    rows: &mut Vec<SiteRow>,
    after: &Vec<SiteRow>,
    host: &str,
    other: &str,
    rate: Option<i64>,
    recrawl: Option<i64>,
    hint: Option<LadderHint>,
    read: Option<SitePolicy>,
    others: Option<SitePolicy>,
    none: &Vec<SiteRow>,
    unset: Option<SitePolicy>,
)
    requires
        call_ensures(set, (rows, host, rate, recrawl, hint), ()),
        final(rows)@ == after@,
        call_ensures(get, (after, host), read),
        call_ensures(get, (after, other), others),
        other@ != host@,
        old(rows)@.len() == 0,
        none@.len() == 0,
        call_ensures(get, (none, other), unset),
    ensures
        read is Some,
        read->0.rate_limit_ms == rate,
        read->0.recrawl_seconds == recrawl,
        read->0.fetch_hint == hint,
        others is None,
        unset is None,
{
    assert(policies(old(rows)@).len() == 0);
    assert(policies(none@).len() == 0);
}

/// Hints go by their names: `plain`, `impersonate` and `browser`, and no other.
pub proof fn law_hints_go_by_their_names(s: &str, res: Result<LadderHint, ()>)
    requires
        call_ensures(LadderHint::from_str, (s,), res),
    ensures
        res == Ok::<LadderHint, ()>(LadderHint::Plain) <==> s@ == "plain"@,
        res == Ok::<LadderHint, ()>(LadderHint::Impersonate) <==> s@ == "impersonate"@,
        res == Ok::<LadderHint, ()>(LadderHint::Browser) <==> s@ == "browser"@,
{
    reveal_strlit("plain");
    reveal_strlit("impersonate");
    reveal_strlit("browser");
    assert("plain"@.len() == 5 && "impersonate"@.len() == 11 && "browser"@.len() == 7);
    assert(LadderHint::Plain.name() == "plain"@);
    assert(LadderHint::Impersonate.name() == "impersonate"@);
    assert(LadderHint::Browser.name() == "browser"@);
}

} // verus!
