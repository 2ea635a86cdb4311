//! Certificates and ACME challenges: what is kept of them, and when a
//! certificate is due for renewal.

use vstd::prelude::*;
use crate::json::{lemma_members_of, members_of, Json, JsonView};
use crate::registry::Registry;
use crate::text::push_str;

verus! {

/// A certificate.
#[derive(Debug, Clone)]
pub struct CertEntry {
    pub domain: String,
    pub cert_pem: String,
    pub key_pem: String,
    /// When it expires, in seconds since the Unix epoch.
    pub expires_at: u64,
}

/// How long before its expiry a certificate is renewed, in seconds: thirty
/// days.
pub const RENEWAL_WINDOW_SECS: u64 = 2592000;

/// Whether a certificate is due for renewal at `now`: there is none, or it
/// expires within thirty days.
pub open spec fn renewal_due(cert: Option<CertEntry>, now: u64) -> bool {
    match cert {
        Some(c) => c.expires_at < now + RENEWAL_WINDOW_SECS,
        None => true,
    }
}

/// Whether a certificate is due for renewal at `now`.
pub fn needs_renewal(cert: Option<&CertEntry>, now: u64) -> (r: bool)
    ensures
        r == renewal_due(
            match cert {
                Some(c) => Some(*c),
                None => None,
            },
            now,
        ),
{
    match cert {
        Some(c) => (c.expires_at as u128) < now as u128 + RENEWAL_WINDOW_SECS as u128,
        None => true,
    }
}

/// The text of a member, or the empty text where the member is no text.
pub open spec fn text_or_empty(doc: JsonView, name: Seq<char>) -> Seq<char> {
    match doc.text_field(name) {
        Some(t) => t,
        None => Seq::empty(),
    }
}

/// The number of a member, or 0 where the member is no whole number.
pub open spec fn number_or_zero(doc: JsonView, name: Seq<char>) -> u64 {
    match doc.field(name) {
        Some(JsonView::Number(n)) => n,
        _ => 0,
    }
}

fn text_member(doc: &Json, name: &str) -> (s: String)
    ensures
        s@ == text_or_empty(doc@, name@),
{
    match doc.get_str(name) {
        Some(t) => t.clone(),
        None => String::new(),
    }
}

/// The certificate that a stored document stands for: its members
/// `domain`, `cert_pem`, `key_pem` and `expires_at`, each empty or zero
/// where it is missing. A document without a domain stands for none.
pub fn cert_from_json(doc: &Json) -> (r: Option<CertEntry>)
    ensures
        r is Some <==> text_or_empty(doc@, "domain"@).len() > 0,
        r matches Some(c) ==> c.domain@ == text_or_empty(doc@, "domain"@) && c.cert_pem@
            == text_or_empty(doc@, "cert_pem"@) && c.key_pem@ == text_or_empty(doc@, "key_pem"@)
            && c.expires_at == number_or_zero(doc@, "expires_at"@),
{
    let domain = text_member(doc, "domain");
    let cert_pem = text_member(doc, "cert_pem");
    let key_pem = text_member(doc, "key_pem");
    let expires_at = match doc.get("expires_at") {
        Some(Json::Number(n)) => *n,
        _ => 0,
    };
    if domain.as_str().unicode_len() == 0 {
        None
    } else {
        Some(CertEntry { domain, cert_pem, key_pem, expires_at })
    }
}

/// A certificate as the document that is stored.
pub open spec fn cert_doc(c: CertEntry) -> JsonView {
    JsonView::Object(
        seq![
            ("cert_pem"@, JsonView::Text(c.cert_pem@)),
            ("domain"@, JsonView::Text(c.domain@)),
            ("expires_at"@, JsonView::Number(c.expires_at)),
            ("key_pem"@, JsonView::Text(c.key_pem@)),
        ],
    )
}

/// The document of a certificate.
pub fn json_of_cert(c: &CertEntry) -> (doc: Json)
    ensures
        doc@ == cert_doc(*c),
{
    let mut members: Vec<(String, Json)> = Vec::new();
    members.push(("cert_pem".to_owned(), Json::Text(c.cert_pem.clone())));
    members.push(("domain".to_owned(), Json::Text(c.domain.clone())));
    members.push(("expires_at".to_owned(), Json::Number(c.expires_at)));
    members.push(("key_pem".to_owned(), Json::Text(c.key_pem.clone())));
    proof {
        lemma_members_of(members@);
        assert(members_of(members@) =~= cert_doc(*c)->Object_0);
    }
    Json::Object(members)
}

/// The name of the file that holds the certificate of a domain.
pub fn cert_file_name(domain: &str) -> (s: String)
    ensures
        s@ == domain@ + ".json"@,
{
    let mut s = String::new();
    push_str(&mut s, domain);
    push_str(&mut s, ".json");
    s
}

/// The tokens of the ACME challenges that are under way, each with its key
/// authorization.
pub struct AcmeChallenges {
    tokens: Registry<String>,
}

impl AcmeChallenges {
    /// Whether a challenge with the token is under way.
    pub closed spec fn has_token(&self, token: Seq<char>) -> bool {
        self.tokens.has(token)
    }

    /// The key authorization of the token.
    pub closed spec fn authorization(&self, token: Seq<char>) -> String {
        self.tokens.handle(token)
    }

    /// Each token is held once.
    pub closed spec fn well_formed(&self) -> bool {
        self.tokens.well_formed()
    }

    /// No challenge under way.
    pub fn new() -> (r: AcmeChallenges)
        ensures
            r.well_formed(),
            forall|t: Seq<char>| !r.has_token(t),
    {
        let r = AcmeChallenges { tokens: Registry::new() };
        assert forall|t: Seq<char>| !r.has_token(t) by {
            crate::registry::lemma_position(r.tokens.entries(), t);
        }
        r
    }

    /// The answer to the challenge with the token, if one is under way.
    pub fn respond(&self, token: &str) -> (r: Option<String>)
        ensures
            match r {
                Some(a) => self.has_token(token@) && a == self.authorization(token@),
                None => !self.has_token(token@),
            },
    {
        match self.tokens.get(token) {
            Some(a) => Some(a.clone()),
            None => None,
        }
    }

    /// Stores the answer to a challenge.
    pub fn set(&mut self, token: String, auth: String)
        ensures
            final(self).has_token(token@),
            final(self).authorization(token@) == auth,
            old(self).well_formed() ==> final(self).well_formed(),
    {
        let _ = self.tokens.set(token, auth);
    }

    /// Takes a challenge away once it has been validated.
    pub fn remove(&mut self, token: &str)
        ensures
            old(self).well_formed() ==> final(self).well_formed() && !final(self).has_token(
                token@,
            ),
    {
        let _ = self.tokens.remove(token);
    }
}

} // verus!
