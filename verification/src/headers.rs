//! Rewriting of request and response headers: the standard proxy headers,
//! the CORS headers, and rules to add, set and remove headers.
//!
//! Header names are matched without regard to ASCII case.

use vstd::prelude::*;
use crate::frame::header_views;
use crate::text::{chars_eq_ignoring_case, chars_of, eq_ignoring_case};

verus! {

/// A rule that rewrites headers.
#[derive(Debug, Clone)]
pub enum HeaderRule {
    /// Add the header unless one of that name is there.
    Add(String, String),
    /// Set the header, in place of the first of that name if one is there.
    Overwrite(String, String),
    /// Remove every header of that name.
    Remove(String),
}

/// What a rule holds.
pub enum RuleView {
    Add(Seq<char>, Seq<char>),
    Overwrite(Seq<char>, Seq<char>),
    Remove(Seq<char>),
}

impl View for HeaderRule {
    type V = RuleView;

    open spec fn view(&self) -> RuleView {
        match self {
            HeaderRule::Add(k, v) => RuleView::Add(k@, v@),
            HeaderRule::Overwrite(k, v) => RuleView::Overwrite(k@, v@),
            HeaderRule::Remove(k) => RuleView::Remove(k@),
        }
    }
}

/// How headers are rewritten.
#[derive(Debug, Clone)]
pub struct HeaderRewriter {
    /// Whether the standard proxy headers are put on requests.
    pub inject_proxy_headers: bool,
    /// Whether the CORS headers are put on responses.
    pub inject_cors: bool,
    /// Rules, applied in order.
    pub rules: Vec<HeaderRule>,
}

impl Default for HeaderRewriter {
    fn default() -> (r: HeaderRewriter)
        ensures
            r.inject_proxy_headers,
            !r.inject_cors,
            r.rules@.len() == 0,
    {
        HeaderRewriter { inject_proxy_headers: true, inject_cors: false, rules: Vec::new() }
    }
}

pub type Headers = Seq<(Seq<char>, Seq<char>)>;

/// The index of the first header named `key`, or the number of headers.
pub open spec fn named(h: Headers, key: Seq<char>) -> int
    decreases h.len(),
{
    if h.len() == 0 {
        0
    } else if eq_ignoring_case(h[0].0, key) {
        0
    } else {
        1 + named(h.skip(1), key)
    }
}

/// The headers with `key` set to `value`: in place of the value of the
/// first header of that name, or as a new header at the end.
pub open spec fn upserted(h: Headers, key: Seq<char>, value: Seq<char>) -> Headers {
    let i = named(h, key);
    if 0 <= i < h.len() {
        h.update(i, (h[i].0, value))
    } else {
        h.push((key, value))
    }
}

/// The headers with `key` added unless a header of that name is there.
pub open spec fn added(h: Headers, key: Seq<char>, value: Seq<char>) -> Headers {
    let i = named(h, key);
    if 0 <= i < h.len() {
        h
    } else {
        h.push((key, value))
    }
}

/// The headers without those named `key`.
pub open spec fn removed(h: Headers, key: Seq<char>) -> Headers
    decreases h.len(),
{
    if h.len() == 0 {
        h
    } else if eq_ignoring_case(h.last().0, key) {
        removed(h.drop_last(), key)
    } else {
        removed(h.drop_last(), key).push(h.last())
    }
}

/// The headers after one rule.
pub open spec fn after_rule(h: Headers, rule: RuleView) -> Headers {
    match rule {
        RuleView::Add(k, v) => added(h, k, v),
        RuleView::Overwrite(k, v) => upserted(h, k, v),
        RuleView::Remove(k) => removed(h, k),
    }
}

/// The headers after the rules, applied in order.
pub open spec fn after_rules(h: Headers, rules: Seq<HeaderRule>) -> Headers
    decreases rules.len(),
{
    if rules.len() == 0 {
        h
    } else {
        after_rule(after_rules(h, rules.drop_last()), rules.last()@)
    }
}

/// The headers of a request with the standard proxy headers put on.
pub open spec fn with_proxy_headers(h: Headers, client_ip: Option<Seq<char>>, host: Seq<char>) -> Headers {
    let h1 = match client_ip {
        Some(ip) => upserted(h, "X-Forwarded-For"@, ip),
        None => h,
    };
    let h2 = upserted(h1, "X-Forwarded-Proto"@, "https"@);
    let h3 = upserted(h2, "X-Forwarded-Host"@, host);
    upserted(
        h3,
        "X-Real-IP"@,
        match client_ip {
            Some(ip) => ip,
            None => "unknown"@,
        },
    )
}

/// The headers of a response with the CORS headers put on.
pub open spec fn with_cors_headers(h: Headers) -> Headers {
    upserted(
        upserted(
            upserted(
                upserted(h, "Access-Control-Allow-Origin"@, "*"@),
                "Access-Control-Allow-Methods"@,
                "GET, POST, PUT, DELETE, PATCH, OPTIONS"@,
            ),
            "Access-Control-Allow-Headers"@,
            "Content-Type, Authorization"@,
        ),
        "Access-Control-Max-Age"@,
        "86400"@,
    )
}

proof fn lemma_named(h: Headers, key: Seq<char>, k: int)
    requires
        0 <= k <= h.len(),
        forall|j: int| 0 <= j < k ==> !eq_ignoring_case((#[trigger] h[j]).0, key),
        k < h.len() ==> eq_ignoring_case(h[k].0, key),
    ensures
        named(h, key) == k,
    decreases k,
{
    if k > 0 {
        let t = h.skip(1);
        assert(!eq_ignoring_case(h[0].0, key));
        assert forall|j: int| 0 <= j < k - 1 implies !eq_ignoring_case(
            (#[trigger] t[j]).0,
            key,
        ) by {
            assert(t[j] == h[j + 1]);
        }
        if k < h.len() {
            assert(t[k - 1] == h[k]);
        }
        lemma_named(t, key, k - 1);
    }
}

fn find_named(headers: &Vec<(String, String)>, key: &str) -> (i: usize)
    ensures
        i == named(header_views(headers@), key@),
        i <= headers@.len(),
{
    let want = chars_of(key);
    let ghost h = header_views(headers@);
    let mut i: usize = 0;
    while i < headers.len()
        invariant
            i <= headers@.len(),
            want@ == key@,
            h == header_views(headers@),
            forall|j: int| 0 <= j < i ==> !eq_ignoring_case((#[trigger] h[j]).0, key@),
        decreases headers@.len() - i,
    {
        let name = chars_of(headers[i].0.as_str());
        if chars_eq_ignoring_case(name.as_slice(), want.as_slice()) {
            proof {
                assert(h[i as int].0 == name@);
                lemma_named(h, key@, i as int);
            }
            return i;
        }
        assert(h[i as int].0 == name@);
        i += 1;
    }
    proof {
        lemma_named(h, key@, i as int);
    }
    i
}

/// Sets the header `key` to `value`: in place of the value of the first
/// header of that name, or as a new header at the end.
pub fn upsert(headers: &mut Vec<(String, String)>, key: &str, value: &str)
    ensures
        header_views(final(headers)@) == upserted(header_views(old(headers)@), key@, value@),
{
    let i = find_named(headers, key);
    if i < headers.len() {
        let name = headers[i].0.clone();
        headers.set(i, (name, value.to_owned()));
        assert(header_views(headers@) =~= upserted(header_views(old(headers)@), key@, value@));
    } else {
        headers.push((key.to_owned(), value.to_owned()));
        assert(header_views(headers@) =~= upserted(header_views(old(headers)@), key@, value@));
    }
}

fn add_if_absent(headers: &mut Vec<(String, String)>, key: &str, value: &str)
    ensures
        header_views(final(headers)@) == added(header_views(old(headers)@), key@, value@),
{
    let i = find_named(headers, key);
    if i >= headers.len() {
        headers.push((key.to_owned(), value.to_owned()));
        assert(header_views(headers@) =~= added(header_views(old(headers)@), key@, value@));
    }
}

fn remove_named(headers: &mut Vec<(String, String)>, key: &str)
    ensures
        header_views(final(headers)@) == removed(header_views(old(headers)@), key@),
{
    let want = chars_of(key);
    let mut kept: Vec<(String, String)> = Vec::new();
    let ghost all = header_views(headers@);
    let mut i: usize = 0;
    proof {
        assert(all.take(0) == Seq::<(Seq<char>, Seq<char>)>::empty());
        assert(header_views(kept@) =~= Seq::<(Seq<char>, Seq<char>)>::empty());
    }
    while i < headers.len()
        invariant
            i <= headers@.len(),
            want@ == key@,
            headers@ == old(headers)@,
            all == header_views(headers@),
            header_views(kept@) == removed(all.take(i as int), key@),
        decreases headers@.len() - i,
    {
        let name = chars_of(headers[i].0.as_str());
        proof {
            let t = all.take(i + 1);
            assert(t.drop_last() == all.take(i as int));
            assert(t.last() == all[i as int]);
        }
        if !chars_eq_ignoring_case(name.as_slice(), want.as_slice()) {
            let ghost before = header_views(kept@);
            kept.push((headers[i].0.clone(), headers[i].1.clone()));
            assert(header_views(kept@) =~= before.push(all[i as int]));
        }
        i += 1;
    }
    proof {
        assert(all.take(all.len() as int) == all);
    }
    *headers = kept;
}

impl HeaderRewriter {
    /// What the rewriter makes of the headers of a request.
    pub open spec fn request_headers(&self, h: Headers, client_ip: Option<Seq<char>>, host: Seq<char>) -> Headers {
        after_rules(
            if self.inject_proxy_headers {
                with_proxy_headers(h, client_ip, host)
            } else {
                h
            },
            self.rules@,
        )
    }

    /// What the rewriter makes of the headers of a response.
    pub open spec fn response_headers(&self, h: Headers) -> Headers {
        after_rules(
            if self.inject_cors {
                with_cors_headers(h)
            } else {
                h
            },
            self.rules@,
        )
    }

    /// Rewrites the headers of a request before it is forwarded.
    pub fn rewrite_request(
        &self,
        headers: &mut Vec<(String, String)>,
        client_ip: Option<&str>,
        host: &str,
    )
        ensures
            header_views(final(headers)@) == self.request_headers(
                header_views(old(headers)@),
                match client_ip {
                    Some(ip) => Some(ip@),
                    None => None,
                },
                host@,
            ),
    {
        if self.inject_proxy_headers {
            match client_ip {
                Some(ip) => {
                    upsert(headers, "X-Forwarded-For", ip);
                },
                None => {},
            }
            upsert(headers, "X-Forwarded-Proto", "https");
            upsert(headers, "X-Forwarded-Host", host);
            match client_ip {
                Some(ip) => {
                    upsert(headers, "X-Real-IP", ip);
                },
                None => {
                    upsert(headers, "X-Real-IP", "unknown");
                },
            }
        }
        self.apply_rules(headers);
    }

    /// Rewrites the headers of a response before it goes to the caller.
    pub fn rewrite_response(&self, headers: &mut Vec<(String, String)>)
        ensures
            header_views(final(headers)@) == self.response_headers(header_views(old(headers)@)),
    {
        if self.inject_cors {
            upsert(headers, "Access-Control-Allow-Origin", "*");
            upsert(headers, "Access-Control-Allow-Methods", "GET, POST, PUT, DELETE, PATCH, OPTIONS");
            upsert(headers, "Access-Control-Allow-Headers", "Content-Type, Authorization");
            upsert(headers, "Access-Control-Max-Age", "86400");
        }
        self.apply_rules(headers);
    }

    /// Applies the rules in order.
    pub fn apply_rules(&self, headers: &mut Vec<(String, String)>)
        ensures
            header_views(final(headers)@) == after_rules(header_views(old(headers)@), self.rules@),
    {
        let ghost start = header_views(headers@);
        let mut i: usize = 0;
        assert(self.rules@.take(0) == Seq::<HeaderRule>::empty());
        while i < self.rules.len()
            invariant
                i <= self.rules@.len(),
                header_views(headers@) == after_rules(start, self.rules@.take(i as int)),
            decreases self.rules@.len() - i,
        {
            proof {
                let t = self.rules@.take(i + 1);
                assert(t.drop_last() == self.rules@.take(i as int));
                assert(t.last() == self.rules@[i as int]);
            }
            match &self.rules[i] {
                HeaderRule::Add(k, v) => {
                    add_if_absent(headers, k.as_str(), v.as_str());
                },
                HeaderRule::Overwrite(k, v) => {
                    upsert(headers, k.as_str(), v.as_str());
                },
                HeaderRule::Remove(k) => {
                    remove_named(headers, k.as_str());
                },
            }
            i += 1;
        }
        assert(self.rules@.take(self.rules@.len() as int) == self.rules@);
    }
}

} // verus!
