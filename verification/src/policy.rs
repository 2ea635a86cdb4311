//! Traffic policy: rules that match a request by the glob of its path and
//! by its method, and the action of the first rule that matches.

use vstd::prelude::*;
use crate::scan::{char_views, lemma_run_length, runs};
use crate::text::{chars_eq_ignoring_case, chars_of, copy_range, eq_ignoring_case, same_chars};

verus! {

/// What is done with a request that a rule matches.
#[derive(Debug, Clone)]
pub enum PolicyAction {
    /// Let the request through.
    Allow,
    /// Answer with this status.
    Block(u16),
    /// Redirect to this URL.
    Redirect(String),
    /// Ask for basic authentication.
    RequireAuth,
    /// Limit to this many requests a minute.
    RateLimit(u32),
    /// Add this header to the response.
    AddHeader(String, String),
}

/// One rule of the policy.
#[derive(Debug, Clone)]
pub struct PolicyRule {
    /// The glob of the path, such as `/admin/*` or `/api/v1/**`.
    pub path_pattern: String,
    /// The method the rule is for; every method where there is none.
    pub method: Option<String>,
    pub action: PolicyAction,
}

/// The rules of a policy, in the order in which they are tried.
#[derive(Debug, Clone)]
pub struct PolicyEngine {
    pub rules: Vec<PolicyRule>,
}

/// The segments of a path or a glob: what stands between slashes, empty
/// segments left out.
pub open spec fn segments(s: Seq<char>) -> Seq<Seq<char>> {
    runs(s, |c: char| c == '/')
}

/// Whether the segments of a glob match the segments of a path.
///
/// `**` stands for any number of segments, also none; `*` stands for one
/// segment; any other segment stands for itself.
pub open spec fn parts_match(pattern: Seq<Seq<char>>, path: Seq<Seq<char>>) -> bool
    decreases pattern.len(), path.len(),
{
    if pattern.len() == 0 {
        path.len() == 0
    } else if pattern[0] == "**"@ {
        parts_match(pattern.skip(1), path) || (path.len() > 0 && parts_match(
            pattern,
            path.skip(1),
        ))
    } else if path.len() == 0 {
        false
    } else {
        (pattern[0] == "*"@ || pattern[0] == path[0]) && parts_match(pattern.skip(1), path.skip(1))
    }
}

/// Whether a glob matches a path: they are the same text, or the glob is
/// `**` or `/**`, or their segments match.
pub open spec fn glob_matches(pattern: Seq<char>, path: Seq<char>) -> bool {
    pattern == path || pattern == "**"@ || pattern == "/**"@ || parts_match(
        segments(pattern),
        segments(path),
    )
}

/// Cuts a path or a glob into its segments.
pub fn split_segments(s: &[char]) -> (out: Vec<Vec<char>>)
    ensures
        char_views(out@) == segments(s@),
{
    let ghost brk = |c: char| c == '/';
    let mut out: Vec<Vec<char>> = Vec::new();
    let mut i: usize = 0;
    proof {
        assert(s@.skip(0) == s@);
        assert(char_views(out@) + runs(s@, brk) == runs(s@, brk));
    }
    while i < s.len()
        invariant
            i <= s.len(),
            brk == (|c: char| c == '/'),
            char_views(out@) + runs(s@.skip(i as int), brk) == runs(s@, brk),
        decreases s.len() - i,
    {
        if s[i] == '/' {
            proof {
                let rest = s@.skip(i as int);
                assert(rest[0] == s@[i as int]);
                assert(brk(rest[0]));
                assert(rest.skip(1) == s@.skip(i + 1));
            }
            i += 1;
        } else {
            let start = i;
            while i < s.len() && s[i] != '/'
                invariant
                    start <= i <= s.len(),
                    forall|j: int| start <= j < i ==> s@[j] != '/',
                decreases s.len() - i,
            {
                i += 1;
            }
            let part = copy_range(s, start, i);
            proof {
                let rest = s@.skip(start as int);
                let k = i - start;
                assert forall|j: int| 0 <= j < k implies !brk(#[trigger] rest[j]) by {
                    assert(rest[j] == s@[start + j]);
                }
                if k < rest.len() {
                    assert(rest[k as int] == s@[i as int]);
                    assert(brk(rest[k as int]));
                }
                lemma_run_length(rest, brk, k as int);
                assert(rest[0] == s@[start as int]);
                assert(!brk(rest[0]));
                assert(rest.take(k as int) == part@);
                assert(rest.skip(k as int) == s@.skip(i as int));
                assert(char_views(out@.push(part)) == char_views(out@) + seq![part@]);
            }
            out.push(part);
        }
    }
    proof {
        assert(s@.skip(s@.len() as int).len() == 0);
        assert(char_views(out@) + Seq::<Seq<char>>::empty() == char_views(out@));
    }
    out
}

/// Whether the segments of a glob from `p` on match the segments of a path
/// from `q` on.
pub fn matches_parts(pattern: &Vec<Vec<char>>, p: usize, path: &Vec<Vec<char>>, q: usize) -> (r:
    bool)
    requires
        p <= pattern@.len(),
        q <= path@.len(),
    ensures
        r == parts_match(char_views(pattern@).skip(p as int), char_views(path@).skip(q as int)),
    decreases pattern@.len() - p, path@.len() - q,
{
    let ghost pat = char_views(pattern@).skip(p as int);
    let ghost pth = char_views(path@).skip(q as int);
    if p == pattern.len() {
        return q == path.len();
    }
    assert(pat[0] == pattern@[p as int]@);
    assert(pat.skip(1) == char_views(pattern@).skip(p + 1));
    if q < path.len() {
        assert(pth[0] == path@[q as int]@);
        assert(pth.skip(1) == char_views(path@).skip(q + 1));
    }
    let stars = chars_of("**");
    if same_chars(pattern[p].as_slice(), stars.as_slice()) {
        if matches_parts(pattern, p + 1, path, q) {
            return true;
        }
        if q < path.len() {
            return matches_parts(pattern, p, path, q + 1);
        }
        return false;
    }
    if q == path.len() {
        return false;
    }
    let star = chars_of("*");
    if same_chars(pattern[p].as_slice(), star.as_slice()) || same_chars(
        pattern[p].as_slice(),
        path[q].as_slice(),
    ) {
        return matches_parts(pattern, p + 1, path, q + 1);
    }
    false
}

/// Whether a glob matches a path. `*` stands for one segment of the path,
/// `**` for any number of segments.
pub fn matches_glob(pattern: &str, path: &str) -> (r: bool)
    ensures
        r == glob_matches(pattern@, path@),
{
    let pat = chars_of(pattern);
    let pth = chars_of(path);
    if same_chars(pat.as_slice(), pth.as_slice()) {
        return true;
    }
    if same_chars(pat.as_slice(), chars_of("**").as_slice()) || same_chars(
        pat.as_slice(),
        chars_of("/**").as_slice(),
    ) {
        return true;
    }
    let pat_parts = split_segments(pat.as_slice());
    let path_parts = split_segments(pth.as_slice());
    proof {
        assert(char_views(pat_parts@).skip(0) == char_views(pat_parts@));
        assert(char_views(path_parts@).skip(0) == char_views(path_parts@));
    }
    matches_parts(&pat_parts, 0, &path_parts, 0)
}

/// Whether a rule is for a request: its method, if it has one, is that of
/// the request without regard to ASCII case, and its glob matches the path.
pub open spec fn rule_applies(rule: PolicyRule, path: Seq<char>, method: Seq<char>) -> bool {
    &&& rule.method matches Some(m) ==> eq_ignoring_case(m@, method)
    &&& glob_matches(rule.path_pattern@, path)
}

/// The index of the first rule that is for the request, or the number of
/// rules.
pub open spec fn first_rule(rules: Seq<PolicyRule>, path: Seq<char>, method: Seq<char>) -> int
    decreases rules.len(),
{
    if rules.len() == 0 {
        0
    } else if rule_applies(rules[0], path, method) {
        0
    } else {
        1 + first_rule(rules.skip(1), path, method)
    }
}

proof fn lemma_first_rule(rules: Seq<PolicyRule>, path: Seq<char>, method: Seq<char>, k: int)
    requires
        0 <= k <= rules.len(),
        forall|j: int| 0 <= j < k ==> !rule_applies(#[trigger] rules[j], path, method),
        k < rules.len() ==> rule_applies(rules[k], path, method),
    ensures
        first_rule(rules, path, method) == k,
    decreases k,
{
    if k > 0 {
        let t = rules.skip(1);
        assert(!rule_applies(rules[0], path, method));
        assert forall|j: int| 0 <= j < k - 1 implies !rule_applies(
            #[trigger] t[j],
            path,
            method,
        ) by {
            assert(t[j] == rules[j + 1]);
        }
        if k < rules.len() {
            assert(t[k - 1] == rules[k]);
        }
        lemma_first_rule(t, path, method, k - 1);
    }
}

fn copy_action(a: &PolicyAction) -> (r: PolicyAction)
    ensures
        r == *a,
{
    match a {
        PolicyAction::Allow => PolicyAction::Allow,
        PolicyAction::Block(s) => PolicyAction::Block(*s),
        PolicyAction::Redirect(u) => PolicyAction::Redirect(u.clone()),
        PolicyAction::RequireAuth => PolicyAction::RequireAuth,
        PolicyAction::RateLimit(n) => PolicyAction::RateLimit(*n),
        PolicyAction::AddHeader(k, v) => PolicyAction::AddHeader(k.clone(), v.clone()),
    }
}

impl PolicyEngine {
    /// A policy without rules: every request is allowed.
    pub fn new() -> (r: PolicyEngine)
        ensures
            r.rules@.len() == 0,
    {
        PolicyEngine { rules: Vec::new() }
    }

    /// Adds a rule after the rules that are there.
    pub fn add_rule(&mut self, rule: PolicyRule)
        ensures
            final(self).rules@ == old(self).rules@.push(rule),
    {
        self.rules.push(rule);
    }

    /// The action for a request: that of the first rule that is for it, or
    /// `Allow` where no rule is.
    pub open spec fn action_for(&self, path: Seq<char>, method: Seq<char>) -> PolicyAction {
        let i = first_rule(self.rules@, path, method);
        if 0 <= i < self.rules@.len() {
            self.rules@[i].action
        } else {
            PolicyAction::Allow
        }
    }

    /// Evaluates a request against the rules.
    pub fn evaluate(&self, path: &str, method: &str) -> (r: PolicyAction)
        ensures
            r == self.action_for(path@, method@),
    {
        let want = chars_of(method);
        let mut i: usize = 0;
        while i < self.rules.len()
            invariant
                i <= self.rules@.len(),
                want@ == method@,
                forall|j: int|
                    0 <= j < i ==> !rule_applies(#[trigger] self.rules@[j], path@, method@),
            decreases self.rules@.len() - i,
        {
            let rule = &self.rules[i];
            let method_fits = match &rule.method {
                Some(m) => {
                    let have = chars_of(m.as_str());
                    chars_eq_ignoring_case(have.as_slice(), want.as_slice())
                },
                None => true,
            };
            if method_fits && matches_glob(rule.path_pattern.as_str(), path) {
                proof {
                    lemma_first_rule(self.rules@, path@, method@, i as int);
                }
                return copy_action(&rule.action);
            }
            i += 1;
        }
        proof {
            lemma_first_rule(self.rules@, path@, method@, i as int);
        }
        PolicyAction::Allow
    }
}

impl Default for PolicyEngine {
    fn default() -> (r: PolicyEngine)
        ensures
            r.rules@.len() == 0,
    {
        PolicyEngine::new()
    }
}

} // verus!
