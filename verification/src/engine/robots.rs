//! `robots.txt`: user-agent groups, `Allow` and `Disallow` with `*` and `$` wildcards, the longest
//! match wins. Malformed lines are skipped.

use vstd::prelude::*;

use crate::text::{
    is_char, is_white, lemma_find_by_unique, lemma_trim_end_by, lemma_trim_start_by, white,
};
use crate::text::{
    byte_len, chars_of, contains, contains_text, find, find_char, has_text, lines, lines_of, lower_ascii,
    lowercase_ascii, same, split_once, string_of, texts, trim, trimmed, utf8_len,
};

verus! {

/// One parsed rule from a user-agent group.
#[derive(Debug)]
pub struct Rule {
    /// `true` for `Allow`, `false` for `Disallow`.
    pub allow: bool,
    /// The path pattern (`*` is any run, `$` at the end is the end).
    pub pattern: String,
}

/// The model of a [`Rule`].
#[verifier::ext_equal]
pub struct RuleView {
    pub allow: bool,
    pub pattern: Seq<char>,
}

impl View for Rule {
    type V = RuleView;

    open spec fn view(&self) -> RuleView {
        RuleView { allow: self.allow, pattern: self.pattern@ }
    }
}

/// The rules of a user-agent token.
#[derive(Debug)]
pub struct Group {
    /// The token, in lower case.
    pub token: String,
    /// Its rules, in the order of the file.
    pub rules: Vec<Rule>,
}

/// The model of a [`Group`].
#[verifier::ext_equal]
pub struct GroupView {
    pub token: Seq<char>,
    pub rules: Seq<RuleView>,
}

/// The models of rules.
pub open spec fn rule_views(rules: Seq<Rule>) -> Seq<RuleView> {
    rules.map_values(|r: Rule| r@)
}

impl View for Group {
    type V = GroupView;

    open spec fn view(&self) -> GroupView {
        GroupView { token: self.token@, rules: rule_views(self.rules@) }
    }
}

/// The models of groups.
pub open spec fn group_views(groups: Seq<Group>) -> Seq<GroupView> {
    groups.map_values(|g: Group| g@)
}

/// A parsed `robots.txt`.
#[derive(Debug)]
pub struct Robots {
    groups: Vec<Group>,
}

impl View for Robots {
    type V = Seq<GroupView>;

    closed spec fn view(&self) -> Seq<GroupView> {
        group_views(self.groups@)
    }
}

// ---------------------------------------------------------------------------------------------
// Parsing.
// ---------------------------------------------------------------------------------------------
/// What a line says: a key in lower case and its value. Comments and space around do not count.
pub open spec fn directive(line: Seq<char>) -> Option<(Seq<char>, Seq<char>)> {
    let content = trimmed(line.take(find(line, '#')));
    match split_once(content, ':') {
        Some((key, value)) => Some((lower_ascii(trimmed(key)), trimmed(value))),
        None => None,
    }
}

/// The groups so far, the agents that rules apply to, and whether the list of agents is still being
/// read: no rule has followed it.
#[verifier::ext_equal]
pub struct ParseView {
    pub groups: Seq<GroupView>,
    pub agents: Seq<Seq<char>>,
    pub listing: bool,
}

/// Whether a token has a group.
pub open spec fn has_group(groups: Seq<GroupView>, token: Seq<char>) -> bool {
    exists|i: int| 0 <= i < groups.len() && (#[trigger] groups[i]).token == token
}

/// Once a user-agent line was read. It continues the list of agents where no rule has followed that,
/// and starts a new list otherwise.
pub open spec fn with_agent(state: ParseView, agent: Seq<char>) -> ParseView {
    ParseView {
        groups: if has_group(state.groups, agent) {
            state.groups
        } else {
            state.groups.push(GroupView { token: agent, rules: seq![] })
        },
        agents: if state.listing {
            state.agents.push(agent)
        } else {
            seq![agent]
        },
        listing: true,
    }
}

/// Once a rule was read: it joins the groups of the listed agents, and ends their list.
pub open spec fn with_rule(state: ParseView, rule: RuleView) -> ParseView {
    ParseView {
        groups: state.groups.map_values(
            |g: GroupView|
                if state.agents.contains(g.token) {
                    GroupView { rules: g.rules.push(rule), ..g }
                } else {
                    g
                },
        ),
        agents: state.agents,
        listing: false,
    }
}

/// Once a line was read.
pub open spec fn with_line(state: ParseView, line: Seq<char>) -> ParseView {
    match directive(line) {
        None => state,
        Some((key, value)) => if key == "user-agent"@ {
            with_agent(state, lower_ascii(value))
        } else if key == "allow"@ {
            with_rule(state, RuleView { allow: true, pattern: value })
        } else if key == "disallow"@ {
            with_rule(state, RuleView { allow: false, pattern: value })
        } else {
            state
        },
    }
}

/// Once lines were read, in their order.
pub open spec fn with_lines(list: Seq<Seq<char>>) -> ParseView
    decreases list.len(),
{
    if list.len() == 0 {
        ParseView { groups: seq![], agents: seq![], listing: false }
    } else {
        with_line(with_lines(list.drop_last()), list.last())
    }
}

/// The groups of a `robots.txt`.
pub open spec fn parsed(text: Seq<char>) -> Seq<GroupView> {
    with_lines(lines(text)).groups
}

fn read_directive(line: &str) -> (res: Option<(String, String)>)
    ensures
        match res {
            Some(d) => directive(line@) == Some((d.0@, d.1@)),
            None => directive(line@) is None,
        },
{
    let chars = chars_of(line);
    let n: usize = chars.len();
    let end: usize = find_char(chars.as_slice(), 0, n, '#');
    assert(chars@.subrange(0, n as int) =~= line@);
    let head = string_of(chars.as_slice(), 0, end);
    assert(head@ =~= line@.take(find(line@, '#')));
    let content = trim(head.as_str());
    let body = chars_of(content.as_str());
    let m: usize = body.len();
    let at: usize = find_char(body.as_slice(), 0, m, ':');
    assert(body@.subrange(0, m as int) =~= content@);
    if at == m {
        return None;
    }
    let key = string_of(body.as_slice(), 0, at);
    let value = string_of(body.as_slice(), at + 1, m);
    assert(key@ =~= content@.take(at as int));
    assert(value@ =~= content@.skip(at + 1));
    let key = lowercase_ascii(trim(key.as_str()).as_str());
    Some((key, trim(value.as_str())))
}

fn group_index(groups: &Vec<Group>, token: &str) -> (res: Option<usize>)
    ensures
        match res {
            Some(i) => i < groups@.len() && groups@[i as int].token@ == token@ && forall|j: int|
                0 <= j < i ==> (#[trigger] groups@[j]).token@ != token@,
            None => !has_group(group_views(groups@), token@),
        },
{
    let ghost all = group_views(groups@);
    let mut i: usize = 0;
    while i < groups.len()
        invariant
            i <= groups@.len(),
            all == group_views(groups@),
            forall|j: int| 0 <= j < i ==> (#[trigger] all[j]).token != token@,
        decreases groups@.len() - i,
    {
        assert(all[i as int] == groups@[i as int]@);
        if same(groups[i].token.as_str(), token) {
            assert forall|j: int| 0 <= j < i implies (#[trigger] groups@[j]).token@ != token@ by {
                assert(all[j] == groups@[j]@);
            }
            return Some(i);
        }
        i = i + 1;
    }
    None
}

fn add_rule(groups: &mut Vec<Group>, agents: &Vec<String>, allow: bool, pattern: &str)
    ensures
        group_views(final(groups)@) == with_rule(
            ParseView { groups: group_views(old(groups)@), agents: texts(agents@), listing: true },
            RuleView { allow, pattern: pattern@ },
        ).groups,
{
    let ghost before = group_views(groups@);
    let ghost rule = RuleView { allow, pattern: pattern@ };
    let ghost after = with_rule(
        ParseView { groups: before, agents: texts(agents@), listing: true },
        rule,
    ).groups;
    let n: usize = groups.len();
    let mut i: usize = 0;
    while i < n
        invariant
            i <= n == groups@.len(),
            before.len() == n,
            rule == (RuleView { allow, pattern: pattern@ }),
            after == with_rule(
                ParseView { groups: before, agents: texts(agents@), listing: true },
                rule,
            ).groups,
            group_views(groups@) =~= after.take(i as int) + before.skip(i as int),
        decreases n - i,
    {
        let ghost now = group_views(groups@);
        assert(now[i as int] == groups@[i as int]@);
        assert(now[i as int] == before[i as int]);
        if contains_text(agents, groups[i].token.as_str()) {
            let ghost rules = rule_views(groups@[i as int].rules@);
            let item = Rule { allow, pattern: pattern.to_owned() };
            assert(item@ =~= rule);
            groups[i].rules.push(item);
            assert(rule_views(groups@[i as int].rules@) =~= rules.push(rule));
        }
        assert(groups@[i as int]@ =~= after[i as int]);
        assert(group_views(groups@) =~= now.update(i as int, after[i as int]));
        i = i + 1;
    }
    assert(after.take(n as int) + before.skip(n as int) =~= after);
}

// ---------------------------------------------------------------------------------------------
// Matching.
// ---------------------------------------------------------------------------------------------
/// Whether a pattern matches a path from their starts on: `*` is any run, every other character
/// itself; what the pattern leaves over of the path must be nothing where it is anchored.
pub open spec fn glob(pattern: Seq<char>, path: Seq<char>, anchored: bool) -> bool
    decreases pattern.len(), path.len(),
{
    if pattern.len() == 0 {
        !anchored || path.len() == 0
    } else if pattern[0] == '*' {
        glob(pattern.drop_first(), path, anchored) || (path.len() > 0 && glob(
            pattern,
            path.drop_first(),
            anchored,
        ))
    } else {
        path.len() > 0 && path[0] == pattern[0] && glob(
            pattern.drop_first(),
            path.drop_first(),
            anchored,
        )
    }
}

/// Whether a pattern ends with `$`.
pub open spec fn is_anchored(pattern: Seq<char>) -> bool {
    pattern.len() > 0 && pattern.last() == '$'
}

/// A pattern without the `$` at its end.
pub open spec fn bare_pattern(pattern: Seq<char>) -> Seq<char> {
    if is_anchored(pattern) {
        pattern.drop_last()
    } else {
        pattern
    }
}

/// Whether a pattern matches a path: a prefix of it, unless the pattern ends with `$`, which anchors
/// it to the full path.
pub open spec fn pattern_matches(pattern: Seq<char>, path: Seq<char>) -> bool {
    glob(bare_pattern(pattern), path, is_anchored(pattern))
}

/// How specific a rule is: the length of its pattern without the anchor.
pub open spec fn specificity(r: RuleView) -> nat {
    byte_len(bare_pattern(r.pattern))
}

/// Whether rules allow a path: no rule matches, or a rule that allows is among the most specific
/// ones that match.
pub open spec fn rules_allow(rules: Seq<RuleView>, path: Seq<char>) -> bool {
    ||| forall|i: int|
        0 <= i < rules.len() ==> !pattern_matches((#[trigger] rules[i]).pattern, path)
    ||| exists|i: int|
        {
            &&& 0 <= i < rules.len()
            &&& (#[trigger] rules[i]).allow
            &&& pattern_matches(rules[i].pattern, path)
            &&& forall|j: int|
                0 <= j < rules.len() && pattern_matches((#[trigger] rules[j]).pattern, path)
                    ==> specificity(rules[j]) <= specificity(rules[i])
        }
}

/// Whether a group names an agent: its token occurs in the agent's name.
pub open spec fn names_agent(g: GroupView, agent: Seq<char>) -> bool {
    g.token != "*"@ && g.token.len() > 0 && has_text(agent, g.token)
}

/// Whether group `i` is the most specific one that names an agent, the first of its length.
pub open spec fn names_best(groups: Seq<GroupView>, agent: Seq<char>, i: int) -> bool {
    &&& 0 <= i < groups.len()
    &&& names_agent(groups[i], agent)
    &&& forall|j: int|
        0 <= j < groups.len() && names_agent(#[trigger] groups[j], agent) ==> byte_len(
            groups[j].token,
        ) < byte_len(groups[i].token) || (byte_len(groups[j].token) == byte_len(groups[i].token)
            && i <= j)
}

/// Whether `rules` are those of the most specific group that names an agent, else those of the `*`
/// group, else none.
pub open spec fn rules_of(groups: Seq<GroupView>, agent: Seq<char>, rules: Seq<RuleView>) -> bool {
    if exists|i: int| names_best(groups, agent, i) {
        exists|i: int| #[trigger] names_best(groups, agent, i) && rules == groups[i].rules
    } else if has_group(groups, "*"@) {
        exists|i: int|
            {
                &&& 0 <= i < groups.len()
                &&& (#[trigger] groups[i]).token == "*"@
                &&& rules == groups[i].rules
                &&& forall|j: int| 0 <= j < i ==> (#[trigger] groups[j]).token != "*"@
            }
    } else {
        rules == Seq::<RuleView>::empty()
    }
}

/// Whether a pattern matches a path.
pub fn matches_pattern(pattern: &str, path: &str) -> (res: bool)
    ensures
        res == pattern_matches(pattern@, path@),
{
    let p = chars_of(pattern);
    let s = chars_of(path);
    let all: usize = p.len();
    let anchored = all > 0 && p[all - 1] == '$';
    let n: usize = if anchored {
        all - 1
    } else {
        all
    };
    let m: usize = s.len();
    let ghost bare = bare_pattern(pattern@);
    assert(bare =~= p@.take(n as int));
    // `row[j]` tells whether the pattern from `i` on matches the path from `j` on.
    let mut row: Vec<bool> = Vec::new();
    let mut k: usize = 0;
    while k < m
        invariant
            k <= m,
            row@.len() == k,
            forall|j: int| 0 <= j < k ==> #[trigger] row@[j] == !anchored,
        decreases m - k,
    {
        row.push(!anchored);
        k = k + 1;
    }
    row.push(true);
    let mut i: usize = n;
    assert(bare.skip(n as int) =~= seq![]);
    assert forall|j: int| 0 <= j <= m implies #[trigger] row@[j] == glob(
        bare.skip(i as int),
        path@.skip(j),
        anchored,
    ) by {
        assert(path@.skip(j).len() == m - j);
    }
    while i > 0
        invariant
            i <= n == bare.len(),
            p@ == pattern@,
            n <= p@.len(),
            bare == p@.take(n as int),
            s@ == path@,
            m == s@.len(),
            row@.len() == m + 1,
            forall|j: int|
                0 <= j <= m ==> #[trigger] row@[j] == glob(
                    bare.skip(i as int),
                    path@.skip(j),
                    anchored,
                ),
        decreases i,
    {
        i = i - 1;
        let c = p[i];
        let ghost here = bare.skip(i as int);
        let ghost after = bare.skip(i + 1);
        assert(here[0] == c);
        assert(here.drop_first() =~= after);
        let mut next: Vec<bool> = Vec::new();
        let mut filled: usize = 0;
        while filled < m
            invariant
                filled <= m,
                next@.len() == filled,
            decreases m - filled,
        {
            next.push(false);
            filled = filled + 1;
        }
        next.push(false);
        let mut at: usize = m;
        let mut done = false;
        while !done
            invariant
                at <= m,
                m == s@.len(),
                s@ == path@,
                next@.len() == m + 1,
                row@.len() == m + 1,
                here.len() > 0,
                here[0] == c,
                here.drop_first() == after,
                forall|j: int|
                    0 <= j <= m ==> #[trigger] row@[j] == glob(after, path@.skip(j), anchored),
                forall|j: int|
                    at < j <= m ==> #[trigger] next@[j] == glob(here, path@.skip(j), anchored),
                done ==> at == 0 && next@[0] == glob(here, path@.skip(0), anchored),
            decreases at + 1 - if done { 1int } else { 0int },
        {
            let ghost rest = path@.skip(at as int);
            let value = if c == '*' {
                row[at] || (at < m && next[at + 1])
            } else {
                at < m && s[at] == c && row[at + 1]
            };
            proof {
                assert(rest.len() == m - at);
                if at < m {
                    assert(rest[0] == s@[at as int]);
                    assert(rest.drop_first() =~= path@.skip(at + 1));
                }
                assert(value == glob(here, rest, anchored));
            }
            next.set(at, value);
            if at == 0 {
                done = true;
            } else {
                at = at - 1;
            }
        }
        row = next;
    }
    assert(bare.skip(0) =~= bare);
    assert(path@.skip(0) =~= path@);
    row[0]
}

fn rule_specificity(rule: &Rule) -> (res: u128)
    ensures
        res == specificity(rule@),
{
    let p = chars_of(rule.pattern.as_str());
    let n: usize = p.len();
    if n > 0 && p[n - 1] == '$' {
        let bare = string_of(p.as_slice(), 0, n - 1);
        assert(bare@ =~= rule.pattern@.drop_last());
        utf8_len(bare.as_str())
    } else {
        utf8_len(rule.pattern.as_str())
    }
}

fn allowed_by(rules: &Vec<Rule>, path: &str) -> (res: bool)
    ensures
        res == rules_allow(rule_views(rules@), path@),
{
    let ghost all = rule_views(rules@);
    let mut found = false;
    let mut length: u128 = 0;
    let mut allow = true;
    let ghost mut best: int = 0;
    let mut i: usize = 0;
    while i < rules.len()
        invariant
            i <= rules@.len(),
            all == rule_views(rules@),
            !found ==> allow && forall|j: int|
                0 <= j < i ==> !pattern_matches((#[trigger] all[j]).pattern, path@),
            found ==> {
                &&& 0 <= best < i
                &&& pattern_matches(all[best].pattern, path@)
                &&& length == specificity(all[best])
                &&& allow == all[best].allow
                &&& forall|j: int|
                    0 <= j < i && pattern_matches((#[trigger] all[j]).pattern, path@)
                        ==> specificity(all[j]) <= length
                &&& !allow ==> forall|j: int|
                    0 <= j < i && pattern_matches((#[trigger] all[j]).pattern, path@)
                        && specificity(all[j]) == length ==> !all[j].allow
            },
        decreases rules@.len() - i,
    {
        let rule = &rules[i];
        assert(all[i as int] == rule@);
        if matches_pattern(rule.pattern.as_str(), path) {
            let len: u128 = rule_specificity(rule);
            if !found || len > length || (len == length && rule.allow && !allow) {
                found = true;
                length = len;
                allow = rule.allow;
                proof {
                    best = i as int;
                }
            }
        }
        i = i + 1;
    }
    proof {
        if found && allow {
            assert(all[best].allow);
        }
        if found && !allow {
            assert(!(exists|k: int|
                {
                    &&& 0 <= k < all.len()
                    &&& (#[trigger] all[k]).allow
                    &&& pattern_matches(all[k].pattern, path@)
                    &&& forall|j: int|
                        0 <= j < all.len() && pattern_matches((#[trigger] all[j]).pattern, path@)
                            ==> specificity(all[j]) <= specificity(all[k])
                })) by {
                if exists|k: int|
                    {
                        &&& 0 <= k < all.len()
                        &&& (#[trigger] all[k]).allow
                        &&& pattern_matches(all[k].pattern, path@)
                        &&& forall|j: int|
                            0 <= j < all.len() && pattern_matches(
                                (#[trigger] all[j]).pattern,
                                path@,
                            ) ==> specificity(all[j]) <= specificity(all[k])
                    } {
                    let k = choose|k: int|
                        {
                            &&& 0 <= k < all.len()
                            &&& (#[trigger] all[k]).allow
                            &&& pattern_matches(all[k].pattern, path@)
                            &&& forall|j: int|
                                0 <= j < all.len() && pattern_matches(
                                    (#[trigger] all[j]).pattern,
                                    path@,
                                ) ==> specificity(all[j]) <= specificity(all[k])
                        };
                    assert(specificity(all[best]) <= specificity(all[k]));
                    assert(specificity(all[k]) <= length);
                }
            }
        }
    }
    allow
}

impl Robots {
    /// No rules: everything is allowed.
    pub fn empty() -> (res: Robots)
        ensures
            res@ == Seq::<GroupView>::empty(),
    {
        let res = Robots { groups: Vec::new() };
        assert(res@ =~= Seq::empty());
        res
    }

    /// Parses the text of a `robots.txt`. Malformed and unknown lines are skipped.
    pub fn parse(text: &str) -> (res: Robots)
        ensures
            res@ == parsed(text@),
    {
        let list = lines_of(text);
        let ghost all = lines(text@);
        let mut groups: Vec<Group> = Vec::new();
        let mut agents: Vec<String> = Vec::new();
        let mut listing = false;
        let mut i: usize = 0;
        assert(group_views(groups@) =~= seq![]);
        assert(texts(agents@) =~= seq![]);
        assert(all.take(0) =~= seq![]);
        while i < list.len()
            invariant
                i <= list@.len(),
                all == texts(list@),
                with_lines(all.take(i as int)) == (ParseView {
                    groups: group_views(groups@),
                    agents: texts(agents@),
                    listing,
                }),
            decreases list@.len() - i,
        {
            let ghost state = with_lines(all.take(i as int));
            proof {
                assert(all.take(i + 1).drop_last() =~= all.take(i as int));
                assert(all.take(i + 1).last() == list@[i as int]@);
            }
            if let Some((key, value)) = read_directive(list[i].as_str()) {
                if same(key.as_str(), "user-agent") {
                    let agent = lowercase_ascii(value.as_str());
                    if !listing {
                        agents = Vec::new();
                        assert(texts(agents@) =~= seq![]);
                    }
                    listing = true;
                    let ghost listed = texts(agents@);
                    agents.push(agent.clone());
                    assert(texts(agents@) =~= listed.push(agent@));
                    assert(Seq::<Seq<char>>::empty().push(agent@) =~= seq![agent@]);
                    match group_index(&groups, agent.as_str()) {
                        None => {
                            let ghost before = group_views(groups@);
                            let group = Group { token: agent, rules: Vec::new() };
                            assert(rule_views(group.rules@) =~= seq![]);
                            let ghost added = group@;
                            groups.push(group);
                            assert(group_views(groups@) =~= before.push(added));
                        },
                        Some(at) => {
                            assert(group_views(groups@)[at as int] == groups@[at as int]@);
                            assert(has_group(state.groups, agent@));
                        },
                    }
                } else if same(key.as_str(), "allow") {
                    listing = false;
                    add_rule(&mut groups, &agents, true, value.as_str());
                } else if same(key.as_str(), "disallow") {
                    proof {
                        reveal_strlit("allow");
                        reveal_strlit("disallow");
                    }
                    listing = false;
                    add_rule(&mut groups, &agents, false, value.as_str());
                }
            }
            i = i + 1;
        }
        assert(all.take(i as int) =~= all);
        Robots { groups }
    }

    /// Whether `path` (the URL path and query, as sent) may be fetched by `agent`: the most specific
    /// rule by pattern length wins; a tie goes to `Allow`.
    pub fn allows(&self, agent: &str, path: &str) -> (res: bool)
        ensures
            exists|rules: Seq<RuleView>| #[trigger]
                rules_of(self@, lower_ascii(agent@), rules) && res == rules_allow(rules, path@),
    {
        let agent = lowercase_ascii(agent);
        let ghost all = self@;
        let mut found = false;
        let mut best: usize = 0;
        let mut length: u128 = 0;
        let mut i: usize = 0;
        while i < self.groups.len()
            invariant
                i <= self.groups@.len(),
                all == group_views(self.groups@),
                !found ==> forall|j: int|
                    0 <= j < i ==> !names_agent(#[trigger] all[j], agent@),
                found ==> {
                    &&& best < i
                    &&& names_agent(all[best as int], agent@)
                    &&& length == byte_len(all[best as int].token)
                    &&& forall|j: int|
                        0 <= j < i && names_agent(#[trigger] all[j], agent@) ==> byte_len(
                            all[j].token,
                        ) < length || (byte_len(all[j].token) == length && best <= j)
                },
            decreases self.groups@.len() - i,
        {
            let group = &self.groups[i];
            assert(all[i as int] == group@);
            if !same(group.token.as_str(), "*") && !group.token.as_str().is_empty() && contains(
                agent.as_str(),
                group.token.as_str(),
            ) {
                let len: u128 = utf8_len(group.token.as_str());
                if !found || len > length {
                    found = true;
                    best = i;
                    length = len;
                }
            }
            i = i + 1;
        }
        if found {
            assert(names_best(all, agent@, best as int));
            assert(all[best as int] == self.groups@[best as int]@);
            assert(rules_of(all, agent@, all[best as int].rules));
            return allowed_by(&self.groups[best].rules, path);
        }
        assert(!(exists|k: int| names_best(all, agent@, k)));
        match group_index(&self.groups, "*") {
            Some(at) => {
                proof {
                    assert(all[at as int] == self.groups@[at as int]@);
                    assert(has_group(all, "*"@));
                    assert forall|j: int| 0 <= j < at implies (#[trigger] all[j]).token != "*"@ by {
                        assert(all[j] == self.groups@[j]@);
                    }
                    assert(rules_of(all, agent@, all[at as int].rules));
                }
                allowed_by(&self.groups[at].rules, path)
            },
            None => {
                assert(rules_of(all, agent@, Seq::<RuleView>::empty()));
                true
            },
        }
    }
}

// ---------------------------------------------------------------------------------------------
// Laws.
// ---------------------------------------------------------------------------------------------
/// An agent has one set of rules.
pub proof fn law_rules_are_determined(
    groups: Seq<GroupView>,
    agent: Seq<char>,
    a: Seq<RuleView>,
    b: Seq<RuleView>,
)
    requires
        rules_of(groups, agent, a),
        rules_of(groups, agent, b),
    ensures
        a == b,
{
    if exists|i: int| names_best(groups, agent, i) {
        let i = choose|i: int| #[trigger] names_best(groups, agent, i) && a == groups[i].rules;
        let j = choose|j: int| #[trigger] names_best(groups, agent, j) && b == groups[j].rules;
        assert(names_best(groups, agent, i) && names_best(groups, agent, j));
        assert(names_agent(groups[i], agent) && names_agent(groups[j], agent));
        assert(i == j);
    } else if has_group(groups, "*"@) {
        let i = choose|i: int|
            {
                &&& 0 <= i < groups.len()
                &&& (#[trigger] groups[i]).token == "*"@
                &&& a == groups[i].rules
                &&& forall|j: int| 0 <= j < i ==> (#[trigger] groups[j]).token != "*"@
            };
        let j = choose|i: int|
            {
                &&& 0 <= i < groups.len()
                &&& (#[trigger] groups[i]).token == "*"@
                &&& b == groups[i].rules
                &&& forall|j: int| 0 <= j < i ==> (#[trigger] groups[j]).token != "*"@
            };
        assert(groups[i].token == "*"@ && groups[j].token == "*"@);
        assert(i == j);
    }
}

/// Without rules everything is allowed.
pub proof fn law_no_rules_allow_everything(agent: Seq<char>, rules: Seq<RuleView>, path: Seq<char>)
    requires
        rules_of(parsed(seq![]), agent, rules),
    ensures
        rules_allow(rules, path),
{
    assert(lines(seq![]) =~= seq![]);
    assert(parsed(seq![]) =~= seq![]);
}

/// A `*` in a pattern stands for any run: a pattern of a start, a `*` and nothing more matches
/// whatever goes on after the start.
pub proof fn law_star_matches_any_run(start: Seq<char>, run: Seq<char>, anchored: bool)
    requires
        forall|i: int| 0 <= i < start.len() ==> start[i] != '*',
    ensures
        glob(start.push('*'), start + run, anchored),
    decreases start.len() + run.len(),
{
    let pattern = start.push('*');
    let path = start + run;
    if start.len() == 0 {
        assert(path =~= run);
        assert(pattern.drop_first() =~= seq![]);
        if run.len() == 0 {
            assert(glob(seq![], path, anchored));
        } else {
            assert(path.drop_first() =~= start + run.drop_first());
            law_star_matches_any_run(start, run.drop_first(), anchored);
        }
    } else {
        assert(pattern[0] == start[0] && path[0] == start[0]);
        assert(pattern.drop_first() =~= start.drop_first().push('*'));
        assert(path.drop_first() =~= start.drop_first() + run);
        assert forall|i: int| 0 <= i < start.drop_first().len() implies start.drop_first()[i]
            != '*' by {
            assert(start.drop_first()[i] == start[i + 1]);
        }
        law_star_matches_any_run(start.drop_first(), run, anchored);
    }
}

/// User-agent lines in a row name one group: a rule that follows them joins the groups of all their
/// agents, and an agent named after that rule starts a list of its own.
pub proof fn law_agents_in_a_row_share_rules(
    state: ParseView,
    a: Seq<char>,
    b: Seq<char>,
    rule: RuleView,
    later: Seq<char>,
)
    ensures
        ({
            let listed = with_agent(with_agent(state, a), b);
            let after = with_rule(listed, rule);
            &&& has_group(after.groups, a) && has_group(after.groups, b)
            &&& after.groups.len() == listed.groups.len()
            &&& forall|i: int|
                0 <= i < after.groups.len() ==> {
                    let g = #[trigger] after.groups[i];
                    &&& g.token == listed.groups[i].token
                    &&& g.token == a || g.token == b ==> g.rules == listed.groups[i].rules.push(
                        rule,
                    )
                }
            &&& with_agent(after, later).agents == seq![later]
        }),
{
    let first = with_agent(state, a);
    let listed = with_agent(first, b);
    let after = with_rule(listed, rule);
    let base = if state.listing {
        state.agents
    } else {
        seq![]
    };
    assert(first.agents =~= base.push(a));
    assert(listed.agents =~= base.push(a).push(b));
    assert(listed.agents[base.len() as int] == a && listed.agents[base.len() as int + 1] == b);
    if !has_group(state.groups, a) {
        assert(first.groups.last().token == a);
        assert(first.groups[first.groups.len() - 1].token == a);
    }
    assert(has_group(first.groups, a));
    let at = choose|i: int| 0 <= i < first.groups.len() && (#[trigger] first.groups[i]).token == a;
    assert(listed.groups[at].token == a);
    if !has_group(first.groups, b) {
        assert(listed.groups[listed.groups.len() - 1].token == b);
    }
    assert(has_group(listed.groups, b));
    let to = choose|i: int| 0 <= i < listed.groups.len() && (#[trigger] listed.groups[i]).token == b;
    assert(after.groups[at].token == a);
    assert(after.groups[to].token == b);
}

proof fn lemma_plain_glob(pattern: Seq<char>, path: Seq<char>, anchored: bool)
    requires
        forall|i: int| 0 <= i < pattern.len() ==> pattern[i] != '*',
    ensures
        glob(pattern, path, anchored) <==> pattern.len() <= path.len() && path.take(
            pattern.len() as int,
        ) == pattern && (anchored ==> path.len() == pattern.len()),
    decreases pattern.len(),
{
    if pattern.len() == 0 {
        assert(path.take(0) =~= pattern);
    } else if path.len() > 0 {
        let (p, q) = (pattern.drop_first(), path.drop_first());
        assert forall|i: int| 0 <= i < p.len() implies p[i] != '*' by {
            assert(p[i] == pattern[i + 1]);
        }
        lemma_plain_glob(p, q, anchored);
        if pattern.len() <= path.len() {
            assert(path.take(pattern.len() as int).drop_first() =~= q.take(p.len() as int));
            if path[0] == pattern[0] && q.take(p.len() as int) == p {
                assert(path.take(pattern.len() as int) =~= seq![pattern[0]] + p);
                assert(pattern =~= seq![pattern[0]] + p);
            }
            if path.take(pattern.len() as int) == pattern {
                assert(path[0] == path.take(pattern.len() as int)[0]);
            }
        }
    }
}

/// A pattern without wildcards stands for the paths that begin with it; with a `$` at its end, for that
/// path alone.
pub proof fn law_plain_patterns_are_prefixes(start: Seq<char>, path: Seq<char>)
    requires
        forall|i: int| 0 <= i < start.len() ==> start[i] != '*' && start[i] != '$',
    ensures
        pattern_matches(start, path) <==> exists|rest: Seq<char>| path == #[trigger] (start + rest),
        pattern_matches(start.push('$'), path) <==> path == start,
{
    lemma_plain_glob(start, path, false);
    lemma_plain_glob(start, path, true);
    assert(start.push('$').drop_last() =~= start);
    if pattern_matches(start, path) {
        assert(path =~= start + path.skip(start.len() as int));
    }
    if exists|rest: Seq<char>| path == #[trigger] (start + rest) {
        let rest = choose|rest: Seq<char>| path == #[trigger] (start + rest);
        assert(path.take(start.len() as int) =~= start);
    }
    if pattern_matches(start.push('$'), path) {
        assert(path.take(start.len() as int) =~= path);
    }
    if path == start {
        assert(path.take(start.len() as int) =~= start);
    }
}

/// A rule that forbids a path beats the rules that allow it where its pattern, without a `$` at the end,
/// is longer than theirs: the path is refused.
pub proof fn law_longer_disallow_wins(rules: Seq<RuleView>, path: Seq<char>, d: int)
    requires
        0 <= d < rules.len(),
        !rules[d].allow,
        pattern_matches(rules[d].pattern, path),
        forall|i: int|
            0 <= i < rules.len() && (#[trigger] rules[i]).allow && pattern_matches(
                rules[i].pattern,
                path,
            ) ==> {
                let (p, q) = (rules[i].pattern, rules[d].pattern);
                let allowing = if p.len() > 0 && p.last() == '$' {
                    p.drop_last()
                } else {
                    p
                };
                let refusing = if q.len() > 0 && q.last() == '$' {
                    q.drop_last()
                } else {
                    q
                };
                byte_len(allowing) < byte_len(refusing)
            },
    ensures
        !rules_allow(rules, path),
{
    assert(pattern_matches(rules[d].pattern, path));
}

proof fn lemma_heaviest_allow(rules: Seq<RuleView>, path: Seq<char>, a: int, n: int) -> (res: int)
    requires
        0 <= a < rules.len(),
        0 <= n <= rules.len(),
        rules[a].allow,
        pattern_matches(rules[a].pattern, path),
    ensures
        0 <= res < rules.len(),
        rules[res].allow,
        pattern_matches(rules[res].pattern, path),
        specificity(rules[res]) >= specificity(rules[a]),
        forall|i: int|
            0 <= i < n && (#[trigger] rules[i]).allow && pattern_matches(rules[i].pattern, path)
                ==> specificity(rules[i]) <= specificity(rules[res]),
    decreases n,
{
    if n == 0 {
        a
    } else {
        let best = lemma_heaviest_allow(rules, path, a, n - 1);
        let last = rules[n - 1];
        if last.allow && pattern_matches(last.pattern, path) && specificity(last) > specificity(
            rules[best],
        ) {
            n - 1
        } else {
            best
        }
    }
}

/// A rule that allows a path carries it where no rule that forbids the path has a longer pattern, without
/// a `$` at the end: a tie goes to the one that allows. Where no rule matches, the path is allowed too.
pub proof fn law_longest_allow_wins(rules: Seq<RuleView>, path: Seq<char>, a: int)
    requires
        0 <= a < rules.len(),
        rules[a].allow,
        pattern_matches(rules[a].pattern, path),
        forall|i: int|
            0 <= i < rules.len() && !(#[trigger] rules[i]).allow && pattern_matches(
                rules[i].pattern,
                path,
            ) ==> {
                let (p, q) = (rules[i].pattern, rules[a].pattern);
                let refusing = if p.len() > 0 && p.last() == '$' {
                    p.drop_last()
                } else {
                    p
                };
                let allowing = if q.len() > 0 && q.last() == '$' {
                    q.drop_last()
                } else {
                    q
                };
                byte_len(refusing) <= byte_len(allowing)
            },
    ensures
        rules_allow(rules, path),
{
    let best = lemma_heaviest_allow(rules, path, a, rules.len() as int);
    assert forall|j: int|
        0 <= j < rules.len() && pattern_matches((#[trigger] rules[j]).pattern, path) implies specificity(
        rules[j],
    ) <= specificity(rules[best]) by {}
    assert(rules[best].allow);
}

/// A path that no rule matches is allowed.
pub proof fn law_unmatched_paths_are_allowed(rules: Seq<RuleView>, path: Seq<char>)
    requires
        forall|i: int|
            0 <= i < rules.len() ==> !pattern_matches((#[trigger] rules[i]).pattern, path),
    ensures
        rules_allow(rules, path),
{
}

/// The rules of an agent are those of the longest token that its name holds; where it holds none, those
/// of `*`; where there is no such group either, none.
pub proof fn law_longest_token_names_the_agent(
    groups: Seq<GroupView>,
    agent: Seq<char>,
    rules: Seq<RuleView>,
    i: int,
)
    requires
        rules_of(groups, agent, rules),
    ensures
        0 <= i < groups.len() && groups[i].token != "*"@ && groups[i].token.len() > 0 && (exists|
            at: int,
        |
            0 <= at && at + groups[i].token.len() <= agent.len() && #[trigger] agent.subrange(
                at,
                at + groups[i].token.len(),
            ) == groups[i].token) && (forall|j: int|
            0 <= j < groups.len() && j != i && has_text(agent, (#[trigger] groups[j]).token)
                ==> byte_len(groups[j].token) < byte_len(groups[i].token) || groups[j].token
                == "*"@) ==> rules == groups[i].rules,
        0 <= i < groups.len() && groups[i].token == "*"@ && (forall|j: int|
            0 <= j < groups.len() && j != i ==> !has_text(agent, (#[trigger] groups[j]).token)
                && groups[j].token != "*"@) ==> rules == groups[i].rules,
        (forall|j: int|
            0 <= j < groups.len() ==> !has_text(agent, (#[trigger] groups[j]).token)
                && groups[j].token != "*"@) ==> rules.len() == 0,
{
    if exists|k: int| names_best(groups, agent, k) {
        let k = choose|k: int| #[trigger] names_best(groups, agent, k) && rules == groups[k].rules;
        assert(names_agent(groups[k], agent));
        if 0 <= i < groups.len() && exists|at: int|
            0 <= at && at + groups[i].token.len() <= agent.len() && #[trigger] agent.subrange(
                at,
                at + groups[i].token.len(),
            ) == groups[i].token {
            let at = choose|at: int|
                0 <= at && at + groups[i].token.len() <= agent.len() && #[trigger] agent.subrange(
                    at,
                    at + groups[i].token.len(),
                ) == groups[i].token;
            assert(crate::text::occurs_at(agent, groups[i].token, at));
        }
    } else if 0 <= i < groups.len() {
        if groups[i].token != "*"@ && groups[i].token.len() > 0 && (exists|at: int|
            0 <= at && at + groups[i].token.len() <= agent.len() && #[trigger] agent.subrange(
                at,
                at + groups[i].token.len(),
            ) == groups[i].token) && (forall|j: int|
            0 <= j < groups.len() && j != i && has_text(agent, (#[trigger] groups[j]).token)
                ==> byte_len(groups[j].token) < byte_len(groups[i].token) || groups[j].token
                == "*"@) {
            let at = choose|at: int|
                0 <= at && at + groups[i].token.len() <= agent.len() && #[trigger] agent.subrange(
                    at,
                    at + groups[i].token.len(),
                ) == groups[i].token;
            assert(crate::text::occurs_at(agent, groups[i].token, at));
            assert(names_best(groups, agent, i));
        }
        if groups[i].token == "*"@ {
            assert(has_group(groups, "*"@));
        }
    }
}

proof fn lemma_directive(key: Seq<char>, value: Seq<char>)
    requires
        key.len() > 0,
        value.len() > 0,
        forall|i: int|
            0 <= i < key.len() ==> key[i] != ':' && key[i] != '#' && !is_white(#[trigger] key[i]),
        forall|i: int| 0 <= i < value.len() ==> #[trigger] value[i] != '#',
        !is_white(value[0]),
        !is_white(value.last()),
    ensures
        directive(key + ": "@ + value) == Some((lower_ascii(key), value)),
{
    reveal_strlit(": ");
    let line = key + ": "@ + value;
    let n = key.len() as int;
    assert(line.len() == n + 2 + value.len());
    assert(forall|i: int| 0 <= i < n ==> line[i] == key[i]);
    assert(line[n] == ':' && line[n + 1] == ' ');
    assert(forall|i: int| 0 <= i < value.len() ==> line[n + 2 + i] == value[i]);
    assert forall|i: int| 0 <= i < line.len() implies line[i] != '#' by {
        if i < n {
            assert(line[i] == key[i]);
        } else if i >= n + 2 {
            assert(line[i] == value[i - n - 2]);
        }
    }
    lemma_find_by_unique(line, is_char('#'), line.len() as int);
    assert(line.take(line.len() as int) =~= line);
    lemma_trim_start_by(line, white(), 0);
    assert(line.skip(0) =~= line);
    assert(line.last() == value.last());
    lemma_trim_end_by(line, white(), line.len() as int);
    assert(trimmed(line) == line);
    lemma_find_by_unique(line, is_char(':'), n);
    assert(line.take(n) =~= key);
    let rest = line.skip(n + 1);
    assert(rest =~= seq![' '] + value);
    lemma_trim_start_by(key, white(), 0);
    assert(key.skip(0) =~= key);
    lemma_trim_end_by(key, white(), n);
    assert(key.take(n) =~= key);
    lemma_trim_start_by(rest, white(), 1);
    assert(rest.skip(1) =~= value);
    lemma_trim_end_by(value, white(), value.len() as int);
    assert(value.take(value.len() as int) =~= value);
}

/// What the lines of a `robots.txt` do, however their keys are capitalized: a `Disallow` line gives the
/// listed agents a rule that forbids its pattern, an `Allow` line one that allows it, and every other
/// group keeps its rules.
pub proof fn law_rule_lines_give_rules(state: ParseView, key: Seq<char>, value: Seq<char>, i: int)
    requires
        key.len() > 0,
        value.len() > 0,
        forall|k: int|
            0 <= k < key.len() ==> key[k] != ':' && key[k] != '#' && !is_white(#[trigger] key[k]),
        forall|k: int| 0 <= k < value.len() ==> #[trigger] value[k] != '#',
        !is_white(value[0]),
        !is_white(value.last()),
        lower_ascii(key) == "allow"@ || lower_ascii(key) == "disallow"@,
        0 <= i < state.groups.len(),
    ensures
        ({
            let after = with_line(state, key + ": "@ + value);
            &&& after.groups.len() == state.groups.len()
            &&& after.groups[i].token == state.groups[i].token
            &&& state.agents.contains(state.groups[i].token) ==> {
                &&& after.groups[i].rules.len() == state.groups[i].rules.len() + 1
                &&& after.groups[i].rules.drop_last() == state.groups[i].rules
                &&& after.groups[i].rules.last().pattern == value
                &&& after.groups[i].rules.last().allow <==> lower_ascii(key) == "allow"@
            }
            &&& !state.agents.contains(state.groups[i].token) ==> after.groups[i] == state.groups[i]
        }),
{
    reveal_strlit("allow");
    reveal_strlit("disallow");
    reveal_strlit("user-agent");
    assert("allow"@.len() == 5 && "disallow"@.len() == 8 && "user-agent"@.len() == 10);
    lemma_directive(key, value);
    let after = with_line(state, key + ": "@ + value);
    if state.agents.contains(state.groups[i].token) {
        assert(after.groups[i].rules.drop_last() =~= state.groups[i].rules);
    }
}

/// A `User-agent` line makes sure that its agent, in lower case, has a group and lists it.
pub proof fn law_agent_lines_list_agents(state: ParseView, key: Seq<char>, value: Seq<char>)
    requires
        key.len() > 0,
        value.len() > 0,
        forall|k: int|
            0 <= k < key.len() ==> key[k] != ':' && key[k] != '#' && !is_white(#[trigger] key[k]),
        forall|k: int| 0 <= k < value.len() ==> #[trigger] value[k] != '#',
        !is_white(value[0]),
        !is_white(value.last()),
        lower_ascii(key) == "user-agent"@,
    ensures
        ({
            let after = with_line(state, key + ": "@ + value);
            &&& has_group(after.groups, lower_ascii(value))
            &&& after.agents.contains(lower_ascii(value))
            &&& after.agents.last() == lower_ascii(value)
            &&& after.groups.take(state.groups.len() as int) == state.groups
        }),
{
    lemma_directive(key, value);
    let agent = lower_ascii(value);
    let after = with_line(state, key + ": "@ + value);
    assert(after.agents[after.agents.len() - 1] == agent);
    if !has_group(state.groups, agent) {
        assert(after.groups[state.groups.len() as int].token == agent);
    }
    assert(after.groups.take(state.groups.len() as int) =~= state.groups);
}

/// What follows a `#` does not count.
pub proof fn law_comments_do_not_count(line: Seq<char>, comment: Seq<char>)
    requires
        forall|k: int| 0 <= k < line.len() ==> #[trigger] line[k] != '#',
    ensures
        directive(line + seq!['#'] + comment) == directive(line),
{
    let long = line + seq!['#'] + comment;
    let n = line.len() as int;
    assert(forall|i: int| 0 <= i < n ==> long[i] == line[i]);
    assert(long[n] == '#');
    lemma_find_by_unique(long, is_char('#'), n);
    lemma_find_by_unique(line, is_char('#'), n);
    assert(long.take(n) =~= line);
    assert(line.take(n) =~= line);
}

/// What a `robots.txt` answers goes by the longest pattern, without a `$` at its end, among the agent's
/// rules that match the path: where a rule that forbids is longer than every one that allows, the path
/// is refused; where one that allows is at least as long as every one that forbids, or no rule matches,
/// it may be fetched.
pub proof fn law_the_longest_rule_answers(
    robots: &Robots,
    agent: &str,
    path: &str,
    res: bool,
    rules: Seq<RuleView>,
    r: int,
)
    requires
        call_ensures(Robots::allows, (robots, agent, path), res),
        rules_of(robots@, lower_ascii(agent@), rules),
    ensures
        (forall|i: int|
            0 <= i < rules.len() ==> !pattern_matches((#[trigger] rules[i]).pattern, path@)) ==> res,
        0 <= r < rules.len() && pattern_matches(rules[r].pattern, path@) && (forall|i: int|
            0 <= i < rules.len() && (#[trigger] rules[i]).allow != rules[r].allow && pattern_matches(
                rules[i].pattern,
                path@,
            ) ==> {
                let (p, q) = (rules[i].pattern, rules[r].pattern);
                let other = if p.len() > 0 && p.last() == '$' {
                    p.drop_last()
                } else {
                    p
                };
                let own = if q.len() > 0 && q.last() == '$' {
                    q.drop_last()
                } else {
                    q
                };
                byte_len(other) < byte_len(own) || (rules[r].allow && byte_len(other) == byte_len(own))
            }) ==> res == rules[r].allow,
{
    let found = choose|found: Seq<RuleView>| #[trigger]
        rules_of(robots@, lower_ascii(agent@), found) && res == rules_allow(found, path@);
    law_rules_are_determined(robots@, lower_ascii(agent@), found, rules);
    if 0 <= r < rules.len() && pattern_matches(rules[r].pattern, path@) && (forall|i: int|
        0 <= i < rules.len() && (#[trigger] rules[i]).allow != rules[r].allow && pattern_matches(
            rules[i].pattern,
            path@,
        ) ==> {
            let (p, q) = (rules[i].pattern, rules[r].pattern);
            let other = if p.len() > 0 && p.last() == '$' {
                p.drop_last()
            } else {
                p
            };
            let own = if q.len() > 0 && q.last() == '$' {
                q.drop_last()
            } else {
                q
            };
            byte_len(other) < byte_len(own) || (rules[r].allow && byte_len(other) == byte_len(own))
        }) {
        if rules[r].allow {
            law_longest_allow_wins(rules, path@, r);
        } else {
            law_longer_disallow_wins(rules, path@, r);
        }
    }
}

/// A file that forbids an agent the paths under a start does so: of a `User-agent` line and a `Disallow`
/// line, an agent that the first names, be it by `*`, is refused exactly the paths that begin with what
/// the second says. With an `Allow` line in its place no path is refused.
pub proof fn law_a_line_forbids_the_paths_under_it(
    text: &str,
    robots: Robots,
    agent: &str,
    path: &str,
    res: bool,
    key: (Seq<char>, Seq<char>),
    token: Seq<char>,
    start: Seq<char>,
)
    requires
        call_ensures(Robots::parse, (text,), robots),
        call_ensures(Robots::allows, (&robots, agent, path), res),
        lines(text@) == seq![key.0 + ": "@ + token, key.1 + ": "@ + start],
        lower_ascii(key.0) == "user-agent"@,
        lower_ascii(key.1) == "allow"@ || lower_ascii(key.1) == "disallow"@,
        forall|k: int| 0 <= k < key.0.len() ==> !is_white(#[trigger] key.0[k]),
        forall|k: int| 0 <= k < key.1.len() ==> !is_white(#[trigger] key.1[k]),
        token.len() > 0,
        start.len() > 0,
        forall|k: int| 0 <= k < token.len() ==> #[trigger] token[k] != '#',
        forall|k: int|
            0 <= k < start.len() ==> #[trigger] start[k] != '#' && start[k] != '*' && start[k] != '$',
        !is_white(token[0]) && !is_white(token.last()),
        !is_white(start[0]) && !is_white(start.last()),
        lower_ascii(token) == "*"@ || has_text(lower_ascii(agent@), lower_ascii(token)),
    ensures
        res == (lower_ascii(key.1) == "allow"@ || path@.len() < start.len() || path@.take(
            start.len() as int,
        ) != start),
{
    let list = seq![key.0 + ": "@ + token, key.1 + ": "@ + start];
    lemma_key_is_plain(key.0);
    lemma_key_is_plain(key.1);
    let none = ParseView { groups: seq![], agents: seq![], listing: false };
    let first = with_line(none, list[0]);
    let second = with_line(first, list[1]);
    assert(list.drop_last().drop_last() =~= seq![]);
    assert(list.drop_last().last() == list[0]);
    assert(with_lines(list.drop_last().drop_last()) == none);
    assert(with_lines(list.drop_last()) == first);
    assert(with_lines(list) == second);
    lemma_directive(key.0, token);
    let name = lower_ascii(token);
    assert(first.groups =~= seq![GroupView { token: name, rules: seq![] }]);
    assert(first.agents =~= seq![name]);
    assert(first.agents[0] == name);
    law_rule_lines_give_rules(first, key.1, start, 0);
    let rule = RuleView { allow: lower_ascii(key.1) == "allow"@, pattern: start };
    let rules = second.groups[0].rules;
    assert(rules =~= seq![rule]);
    assert(robots@ == second.groups);
    let found = choose|found: Seq<RuleView>| #[trigger]
        rules_of(robots@, lower_ascii(agent@), found) && res == rules_allow(found, path@);
    assert(robots@[0].token == name);
    if name != "*"@ {
        assert(name.len() > 0);
        assert(names_best(robots@, lower_ascii(agent@), 0));
    }
    assert(found =~= rules);
    lemma_plain_glob(start, path@, false);
    assert(rules[0] == rule);
}

proof fn lemma_key_is_plain(key: Seq<char>)
    requires
        lower_ascii(key) == "user-agent"@ || lower_ascii(key) == "allow"@ || lower_ascii(key)
            == "disallow"@,
    ensures
        key.len() > 0,
        forall|k: int| 0 <= k < key.len() ==> #[trigger] key[k] != ':' && key[k] != '#',
{
    reveal_strlit("user-agent");
    reveal_strlit("allow");
    reveal_strlit("disallow");
    let low = lower_ascii(key);
    assert(low.len() == key.len());
    assert forall|k: int| 0 <= k < key.len() implies #[trigger] key[k] != ':' && key[k] != '#' by {
        assert(low[k] == crate::text::lower_char(key[k]));
        assert(low[k] != ':' && low[k] != '#');
    }
}

} // verus!
