//! Fetch-ladder composition: deterministic selection and escalation over the legs of a ladder.

use vstd::prelude::*;
use vstd::string::StringExecFns;

use super::{FetchCapabilities, FetchError, FetchLeg};

verus! {

/// The place of a leg in the order of capability.
pub open spec fn leg_rank(leg: FetchLeg) -> int {
    match leg {
        FetchLeg::Plain => 0,
        FetchLeg::Impersonate => 1,
        FetchLeg::Browser => 2,
    }
}

/// How a leg is called in messages.
pub open spec fn leg_word(leg: FetchLeg) -> Seq<char> {
    match leg {
        FetchLeg::Plain => "Plain"@,
        FetchLeg::Impersonate => "Impersonate"@,
        FetchLeg::Browser => "Browser"@,
    }
}

fn rank(leg: FetchLeg) -> (res: u8)
    ensures
        res == leg_rank(leg),
{
    match leg {
        FetchLeg::Plain => 0,
        FetchLeg::Impersonate => 1,
        FetchLeg::Browser => 2,
    }
}

fn word(leg: FetchLeg) -> (res: &'static str)
    ensures
        res@ == leg_word(leg),
{
    match leg {
        FetchLeg::Plain => "Plain",
        FetchLeg::Impersonate => "Impersonate",
        FetchLeg::Browser => "Browser",
    }
}

/// A rung: a leg, and the provider that serves it, by its place in the caller's list.
#[derive(Debug, Clone, Copy, PartialEq, Eq, Structural)]
pub struct Rung {
    /// The leg.
    pub leg: FetchLeg,
    /// The place of its provider.
    pub provider: usize,
}

/// A deterministic composition of one or more fetch legs.
#[derive(Debug)]
pub struct FetchLadder {
    rungs: Vec<Rung>,
}

/// Whether the legs of rungs grow.
pub open spec fn climbing(rungs: Seq<Rung>) -> bool {
    forall|i: int, j: int|
        0 <= i < j < rungs.len() ==> leg_rank((#[trigger] rungs[i]).leg) < leg_rank(
            (#[trigger] rungs[j]).leg,
        )
}

/// Whether a leg is given twice.
pub open spec fn repeats(legs: Seq<FetchLeg>, leg: FetchLeg) -> bool {
    exists|i: int, j: int|
        0 <= i < j < legs.len() && #[trigger] legs[i] == leg && #[trigger] legs[j] == leg
}

/// The least capable leg that is given twice.
pub open spec fn first_repeated(legs: Seq<FetchLeg>) -> Option<FetchLeg> {
    if repeats(legs, FetchLeg::Plain) {
        Some(FetchLeg::Plain)
    } else if repeats(legs, FetchLeg::Impersonate) {
        Some(FetchLeg::Impersonate)
    } else if repeats(legs, FetchLeg::Browser) {
        Some(FetchLeg::Browser)
    } else {
        None
    }
}

fn is_repeated(legs: &Vec<FetchLeg>, leg: FetchLeg) -> (res: bool)
    ensures
        res == repeats(legs@, leg),
{
    let mut seen = false;
    let ghost mut first: int = 0;
    let mut i: usize = 0;
    while i < legs.len()
        invariant
            i <= legs@.len(),
            seen ==> 0 <= first < i && legs@[first] == leg,
            forall|j: int| 0 <= j < i && (!seen || j != first) ==> #[trigger] legs@[j] != leg,
        decreases legs@.len() - i,
    {
        if legs[i] == leg {
            if seen {
                assert(legs@[first] == leg && legs@[i as int] == leg);
                return true;
            }
            seen = true;
            proof {
                first = i as int;
            }
        }
        i = i + 1;
    }
    false
}

fn place_of(legs: &Vec<FetchLeg>, leg: FetchLeg) -> (res: Option<usize>)
    ensures
        match res {
            Some(i) => i < legs@.len() && legs@[i as int] == leg,
            None => forall|i: int| 0 <= i < legs@.len() ==> #[trigger] legs@[i] != leg,
        },
{
    let mut i: usize = 0;
    while i < legs.len()
        invariant
            i <= legs@.len(),
            forall|j: int| 0 <= j < i ==> #[trigger] legs@[j] != leg,
        decreases legs@.len() - i,
    {
        if legs[i] == leg {
            return Some(i);
        }
        i = i + 1;
    }
    None
}

/// Whether a failure is answered by the next leg: a block, and a page that needs JavaScript.
pub open spec fn escalating(error: FetchError) -> bool {
    error is AntiBot || error is JavaScriptRequired
}

impl FetchLadder {
    /// The rungs.
    pub closed spec fn list(self) -> Seq<Rung> {
        self.rungs@
    }

    #[verifier::type_invariant]
    spec fn inv(&self) -> bool {
        climbing(self.rungs@) && self.rungs@.len() > 0
    }

    /// Builds a ladder from the legs of providers: they are ordered by capability. No leg, and a leg
    /// that is given twice, are refused.
    pub fn new(legs: &Vec<FetchLeg>) -> (res: Result<FetchLadder, FetchError>)
        ensures
            if legs@.len() == 0 {
                res matches Err(FetchError::Protocol(m)) && m@
                    == "fetch ladder requires at least one leg"@
            } else {
                match first_repeated(legs@) {
                    Some(leg) => res matches Err(FetchError::Protocol(m)) && m@
                        == "fetch ladder contains duplicate "@ + leg_word(leg) + " leg"@,
                    None => res matches Ok(ladder) && climbing(ladder.list()) && (forall|r: Rung|
                        #[trigger]
                        ladder.list().contains(r) <==> r.provider < legs@.len()
                            && legs@[r.provider as int] == r.leg),
                }
            },
    {
        if legs.len() == 0 {
            return Err(FetchError::Protocol("fetch ladder requires at least one leg".to_owned()));
        }
        let repeated = if is_repeated(legs, FetchLeg::Plain) {
            Some(FetchLeg::Plain)
        } else if is_repeated(legs, FetchLeg::Impersonate) {
            Some(FetchLeg::Impersonate)
        } else if is_repeated(legs, FetchLeg::Browser) {
            Some(FetchLeg::Browser)
        } else {
            None
        };
        if let Some(leg) = repeated {
            let mut s = "fetch ladder contains duplicate ".to_owned();
            s.append(word(leg));
            s.append(" leg");
            return Err(FetchError::Protocol(s));
        }
        let mut rungs: Vec<Rung> = Vec::new();
        let plain = place_of(legs, FetchLeg::Plain);
        let middle = place_of(legs, FetchLeg::Impersonate);
        let browser = place_of(legs, FetchLeg::Browser);
        if let Some(provider) = plain {
            rungs.push(Rung { leg: FetchLeg::Plain, provider });
        }
        if let Some(provider) = middle {
            rungs.push(Rung { leg: FetchLeg::Impersonate, provider });
        }
        if let Some(provider) = browser {
            rungs.push(Rung { leg: FetchLeg::Browser, provider });
        }
        proof {
            let list = rungs@;
            let at0: int = 0;
            let at1: int = if plain is Some {
                1
            } else {
                0
            };
            let at2: int = at1 + if middle is Some {
                1int
            } else {
                0int
            };
            assert forall|r: Rung| #[trigger]
                list.contains(r) <==> r.provider < legs@.len() && legs@[r.provider as int]
                    == r.leg by {
                if list.contains(r) {
                    let i = choose|i: int| 0 <= i < list.len() && list[i] == r;
                    assert(i == 0 || i == 1 || i == 2);
                }
                if r.provider < legs@.len() && legs@[r.provider as int] == r.leg {
                    match r.leg {
                        FetchLeg::Plain => {
                            lemma_one_place(legs@, r.leg, r.provider as int, plain->0 as int);
                            assert(list[at0] == r);
                        },
                        FetchLeg::Impersonate => {
                            lemma_one_place(legs@, r.leg, r.provider as int, middle->0 as int);
                            assert(list[at1] == r);
                        },
                        FetchLeg::Browser => {
                            lemma_one_place(legs@, r.leg, r.provider as int, browser->0 as int);
                            assert(list[at2] == r);
                        },
                    }
                }
            }
            let any = Rung { leg: legs@[0], provider: 0 };
            assert(list.contains(any));
        }
        Ok(FetchLadder { rungs })
    }

    /// Builds a ladder of one plain leg, served by the first provider.
    pub fn single() -> (res: FetchLadder)
        ensures
            res.list() == seq![Rung { leg: FetchLeg::Plain, provider: 0 }],
    {
        let mut rungs: Vec<Rung> = Vec::new();
        rungs.push(Rung { leg: FetchLeg::Plain, provider: 0 });
        assert(rungs@ =~= seq![Rung { leg: FetchLeg::Plain, provider: 0 }]);
        FetchLadder { rungs }
    }

    /// The provider of a rung.
    pub fn provider(&self, at: usize) -> (res: usize)
        requires
            at < self.list().len(),
        ensures
            res == self.list()[at as int].provider,
    {
        self.rungs[at].provider
    }

    /// The number of rungs.
    pub fn len(&self) -> (res: usize)
        ensures
            res == self.list().len(),
            res > 0,
    {
        proof {
            use_type_invariant(self);
        }
        self.rungs.len()
    }

    /// Where a fetch starts: at the first rung that is at least as capable as requested.
    pub fn start(&self, requested: FetchLeg) -> (res: Result<usize, FetchError>)
        ensures
            match res {
                Ok(at) => {
                    &&& at < self.list().len()
                    &&& leg_rank(self.list()[at as int].leg) >= leg_rank(requested)
                    &&& forall|i: int|
                        0 <= i < at ==> leg_rank((#[trigger] self.list()[i]).leg) < leg_rank(
                            requested,
                        )
                },
                Err(e) => {
                    &&& e matches FetchError::Protocol(m) && m@
                        == "fetch ladder has no provider at or after "@ + leg_word(requested)
                    &&& forall|i: int|
                        0 <= i < self.list().len() ==> leg_rank((#[trigger] self.list()[i]).leg)
                            < leg_rank(requested)
                },
            },
    {
        let mut i: usize = 0;
        while i < self.rungs.len()
            invariant
                i <= self.rungs@.len(),
                self.list() == self.rungs@,
                forall|j: int|
                    0 <= j < i ==> leg_rank((#[trigger] self.list()[j]).leg) < leg_rank(requested),
            decreases self.rungs@.len() - i,
        {
            if rank(self.rungs[i].leg) >= rank(requested) {
                return Ok(i);
            }
            i = i + 1;
        }
        let mut s = "fetch ladder has no provider at or after ".to_owned();
        s.append(word(requested));
        Err(FetchError::Protocol(s))
    }

    /// What follows a failure at a rung: the next rung where the failure escalates and there is one,
    /// else the failure itself.
    pub fn after(&self, at: usize, error: FetchError) -> (res: Result<usize, FetchError>)
        requires
            at < self.list().len(),
        ensures
            if escalating(error) && at + 1 < self.list().len() {
                res == Ok::<usize, FetchError>((at + 1) as usize)
            } else {
                res == Err::<usize, FetchError>(error)
            },
    {
        if Self::escalates(&error) && self.rungs.len() - at > 1 {
            Ok(at + 1)
        } else {
            Err(error)
        }
    }

    /// Whether a failure is answered by the next leg.
    pub fn escalates(error: &FetchError) -> (res: bool)
        ensures
            res == escalating(*error),
    {
        match error {
            FetchError::AntiBot { .. } => true,
            FetchError::JavaScriptRequired { .. } => true,
            _ => false,
        }
    }
}

proof fn lemma_one_place(legs: Seq<FetchLeg>, leg: FetchLeg, i: int, j: int)
    requires
        0 <= i < legs.len(),
        0 <= j < legs.len(),
        legs[i] == leg,
        legs[j] == leg,
        !repeats(legs, leg),
    ensures
        i == j,
{
    if i < j {
        assert(legs[i] == leg && legs[j] == leg);
    } else if j < i {
        assert(legs[j] == leg && legs[i] == leg);
    }
}

/// Whether the validators of the last fetch go along: with the first request only.
pub fn sends_validators(at: usize, start: usize) -> (res: bool)
    ensures
        res == (at == start),
{
    at == start
}

/// What a ladder can do: what any of its providers can.
pub fn combined(providers: &Vec<FetchCapabilities>) -> (res: FetchCapabilities)
    ensures
        res.js_rendering == exists|i: int|
            0 <= i < providers@.len() && (#[trigger] providers@[i]).js_rendering,
        res.stealth == exists|i: int|
            0 <= i < providers@.len() && (#[trigger] providers@[i]).stealth,
{
    let mut js_rendering = false;
    let mut stealth = false;
    let mut i: usize = 0;
    while i < providers.len()
        invariant
            i <= providers@.len(),
            js_rendering == exists|j: int|
                0 <= j < i && (#[trigger] providers@[j]).js_rendering,
            stealth == exists|j: int| 0 <= j < i && (#[trigger] providers@[j]).stealth,
        decreases providers@.len() - i,
    {
        let ghost here = providers@[i as int];
        js_rendering = js_rendering || providers[i].js_rendering;
        stealth = stealth || providers[i].stealth;
        i = i + 1;
    }
    FetchCapabilities { js_rendering, stealth }
}

/// A fetch only climbs: every rung after another is more capable, so that no leg is asked twice, and
/// there are no more rungs than legs.
pub proof fn law_a_fetch_only_climbs(rungs: Seq<Rung>, i: int, j: int)
    requires
        climbing(rungs),
        0 <= i < j < rungs.len(),
    ensures
        leg_rank(rungs[i].leg) < leg_rank(rungs[j].leg),
        rungs[i].leg != rungs[j].leg,
        rungs.len() <= 3,
{
    if rungs.len() > 3 {
        assert(leg_rank(rungs[0].leg) < leg_rank(rungs[1].leg));
        assert(leg_rank(rungs[1].leg) < leg_rank(rungs[2].leg));
        assert(leg_rank(rungs[2].leg) < leg_rank(rungs[3].leg));
    }
}

/// A ladder climbs from plain to browser: its legs come in that order whatever order they were given in, each
/// with the provider that was given for it, and none is left out.
pub proof fn law_ladders_are_ordered_by_capability(
    legs: &Vec<FetchLeg>,
    res: Result<FetchLadder, FetchError>,
    i: int,
    j: int,
)
    requires
        call_ensures(FetchLadder::new, (legs,), res),
    ensures
        res is Ok ==> 0 < legs@.len(),
        legs@.len() == 0 ==> res is Err,
        0 <= i < j < legs@.len() && legs@[i] == legs@[j] ==> res is Err,
        res matches Ok(ladder) ==> 0 <= i < j < ladder.list().len() ==> {
            let (a, b) = (ladder.list()[i].leg, ladder.list()[j].leg);
            a == FetchLeg::Plain && b != FetchLeg::Plain || a == FetchLeg::Impersonate && b
                == FetchLeg::Browser
        },
        res matches Ok(ladder) ==> 0 <= i < ladder.list().len() ==> ladder.list()[i].provider
            < legs@.len() && legs@[ladder.list()[i].provider as int] == ladder.list()[i].leg,
        res matches Ok(ladder) ==> 0 <= i < legs@.len() ==> exists|r: Rung|
            ladder.list().contains(r) && r.provider == i && r.leg == legs@[i],
{
    if 0 <= i < j < legs@.len() && legs@[i] == legs@[j] {
        assert(repeats(legs@, legs@[i]));
    }
    if let Ok(ladder) = res {
        if 0 <= i < ladder.list().len() {
            assert(ladder.list().contains(ladder.list()[i]));
        }
        if 0 <= i < legs@.len() {
            assert(legs.len() == legs@.len());
            let r = Rung { leg: legs@[i], provider: i as usize };
            assert(ladder.list().contains(r));
        }
    }
}

/// A fetch begins with the least capable leg that will do: never with a weaker one than was asked for, never
/// with a stronger one where a weaker one will do, and not at all where every leg is too weak.
pub proof fn law_fetches_start_low(
    ladder: &FetchLadder,
    requested: FetchLeg,
    res: Result<usize, FetchError>,
    i: int,
)
    requires
        call_ensures(FetchLadder::start, (ladder, requested), res),
        0 <= i < ladder.list().len(),
    ensures
        requested == FetchLeg::Plain ==> res == Ok::<usize, FetchError>(0),
        ladder.list()[i].leg == requested && (forall|k: int|
            0 <= k < i ==> leg_rank((#[trigger] ladder.list()[k]).leg) < leg_rank(
                ladder.list()[i].leg,
            )) ==> (res matches Ok(at) && at == i),
        res matches Ok(at) ==> requested == FetchLeg::Browser ==> ladder.list()[at as int].leg
            == FetchLeg::Browser,
        res matches Ok(at) ==> requested == FetchLeg::Impersonate ==> ladder.list()[at as int].leg
            != FetchLeg::Plain,
        res matches Ok(at) ==> i < at ==> ladder.list()[i].leg != requested && ladder.list()[i].leg
            != FetchLeg::Browser,
        res is Err ==> ladder.list()[i].leg != FetchLeg::Browser && requested != FetchLeg::Plain
            && ladder.list()[i].leg != requested,
{
    if let Ok(at) = res {
        if ladder.list()[i].leg == requested {
            if i < at {
                assert(leg_rank(ladder.list()[i].leg) < leg_rank(requested));
            }
        }
        if at > 0 {
            assert(leg_rank(ladder.list()[0].leg) < leg_rank(requested));
        }
    }
}

/// Only a block and a page that needs JavaScript are answered by the next leg, one rung up; a missing target,
/// a deadline and a violated protocol end the fetch with the failure itself, and so does the last rung.
pub proof fn law_only_blocks_climb(
    ladder: &FetchLadder,
    at: usize,
    error: FetchError,
    res: Result<usize, FetchError>,
)
    requires
        call_ensures(FetchLadder::after, (ladder, at, error), res),
        at < ladder.list().len(),
    ensures
        error is NotFound || error is Timeout || error is Protocol || at + 1 == ladder.list().len()
            ==> res == Err::<usize, FetchError>(error),
        (error is AntiBot || error is JavaScriptRequired) && at + 1 < ladder.list().len() ==> (
        res matches Ok(next) && next == at + 1),
{
    assert(ladder.rungs.len() == ladder.list().len());
}

} // verus!
