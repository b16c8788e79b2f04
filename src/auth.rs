//! API keys, bearer tokens and permission scopes.

use vstd::prelude::*;
use vstd::string::StringExecFns;
use vstd::string::StringSliceAdditionalSpecFns;
use crate::codec::{hex_encode, hex_of, random_bytes};
use crate::error::{AppError, is_forbidden};
use crate::upload::{fingerprint_of, hash_message};
use crate::text::{chars_of, starts_with, str_eq};

verus! {

/// Permission scopes of an API key.
#[derive(Debug, Clone, Copy, PartialEq, Eq, Structural)]
pub enum Scope {
    /// Create threads and replies.
    Post,
    /// Read posts.
    Read,
    /// Delete own posts.
    Delete,
    /// Administrative operations.
    Admin,
}

/// Lowercase form of a string, as `str::to_lowercase` gives it.
pub uninterp spec fn lower_of(s: Seq<char>) -> Seq<char>;

/// Relies on `str::to_lowercase`: the result depends on the characters alone.
#[verifier::external_body]
fn to_lowercase(s: &str) -> (r: String)
    ensures
        r@ == lower_of(s@),
{
    s.to_lowercase()
}

/// Name of a scope as keys carry it.
pub open spec fn scope_name(scope: Scope) -> Seq<char> {
    match scope {
        Scope::Post => "post"@,
        Scope::Read => "read"@,
        Scope::Delete => "delete"@,
        Scope::Admin => "admin"@,
    }
}

/// The scope a lowercased name denotes.
pub open spec fn scope_named(lower: Seq<char>) -> Option<Scope> {
    if lower == "post"@ {
        Some(Scope::Post)
    } else if lower == "read"@ {
        Some(Scope::Read)
    } else if lower == "delete"@ {
        Some(Scope::Delete)
    } else if lower == "admin"@ {
        Some(Scope::Admin)
    } else {
        None
    }
}

impl Scope {
    /// The scope named by `s`, in any letter case.
    pub fn from_str(s: &str) -> (r: Option<Scope>)
        ensures
            r == scope_named(lower_of(s@)),
    {
        let lower = to_lowercase(s);
        if str_eq(lower.as_str(), "post") {
            Some(Scope::Post)
        } else if str_eq(lower.as_str(), "read") {
            Some(Scope::Read)
        } else if str_eq(lower.as_str(), "delete") {
            Some(Scope::Delete)
        } else if str_eq(lower.as_str(), "admin") {
            Some(Scope::Admin)
        } else {
            None
        }
    }

    /// Name of the scope as keys carry it.
    pub fn name(&self) -> (r: &'static str)
        ensures
            r@ == scope_name(*self),
    {
        match self {
            Scope::Post => "post",
            Scope::Read => "read",
            Scope::Delete => "delete",
            Scope::Admin => "admin",
        }
    }
}

/// ASCII lowercase of one character; others are left alone.
pub open spec fn ascii_lower(c: char) -> char {
    if 'A' <= c <= 'Z' {
        ((c as u8) + 32) as char
    } else {
        c
    }
}

/// Equal up to ASCII letter case, as `str::eq_ignore_ascii_case` compares.
pub open spec fn eq_ignore_ascii_case(a: Seq<char>, b: Seq<char>) -> bool {
    a.len() == b.len() && forall|k: int| 0 <= k < a.len() ==> ascii_lower(a[k]) == ascii_lower(b[k])
}

fn lower_char(c: char) -> (r: char)
    ensures
        r == ascii_lower(c),
{
    if 'A' <= c && c <= 'Z' {
        ((c as u8) + 32) as char
    } else {
        c
    }
}

fn same_ignoring_ascii_case(a: &str, b: &str) -> (r: bool)
    ensures
        r == eq_ignore_ascii_case(a@, b@),
{
    let x = chars_of(a);
    let y = chars_of(b);
    if x.len() != y.len() {
        return false;
    }
    let mut i: usize = 0;
    while i < x.len()
        invariant
            x@ == a@,
            y@ == b@,
            x@.len() == y@.len(),
            0 <= i <= x@.len(),
            forall|k: int| 0 <= k < i ==> ascii_lower(x@[k]) == ascii_lower(y@[k]),
        decreases x.len() - i,
    {
        if lower_char(x[i]) != lower_char(y[i]) {
            return false;
        }
        i += 1;
    }
    true
}

/// The caller behind a valid API key, with the key's scopes.
#[derive(Debug, Clone)]
pub struct AuthenticatedAgent {
    pub id: String,
    pub scopes: Vec<String>,
}

/// Whether a list of scope names grants `scope`.
pub open spec fn grants(scopes: Seq<String>, scope: Scope) -> bool {
    exists|k: int| 0 <= k < scopes.len() && eq_ignore_ascii_case(scopes[k]@, scope_name(scope))
}

pub open spec fn lacks_scope_text(scope: Scope) -> Seq<char> {
    "API key lacks required scope: "@ + match scope {
        Scope::Post => "Post"@,
        Scope::Read => "Read"@,
        Scope::Delete => "Delete"@,
        Scope::Admin => "Admin"@,
    }
}

impl AuthenticatedAgent {
    /// Whether the key carries `scope`, in any ASCII letter case.
    pub fn has_scope(&self, scope: Scope) -> (r: bool)
        ensures
            r == grants(self.scopes@, scope),
    {
        let name = scope.name();
        let mut i: usize = 0;
        while i < self.scopes.len()
            invariant
                0 <= i <= self.scopes@.len(),
                name@ == scope_name(scope),
                forall|k: int| 0 <= k < i ==> !eq_ignore_ascii_case(self.scopes@[k]@, scope_name(scope)),
            decreases self.scopes.len() - i,
        {
            if same_ignoring_ascii_case(self.scopes[i].as_str(), name) {
                return true;
            }
            i += 1;
        }
        false
    }

    /// Admits iff the key carries `scope`; forbidden otherwise.
    pub fn require_scope(&self, scope: Scope) -> (r: Result<(), AppError>)
        ensures
            r is Ok <==> grants(self.scopes@, scope),
            r is Err ==> is_forbidden(r->Err_0, lacks_scope_text(scope)),
    {
        if self.has_scope(scope) {
            Ok(())
        } else {
            let mut s = String::from_str("API key lacks required scope: ");
            match scope {
                Scope::Post => s.append("Post"),
                Scope::Read => s.append("Read"),
                Scope::Delete => s.append("Delete"),
                Scope::Admin => s.append("Admin"),
            }
            Err(AppError::Forbidden(s))
        }
    }
}

/// Fingerprint under which an API key is stored and looked up.
pub fn hash_api_key(key: &str) -> (r: String)
    ensures
        r@ == fingerprint_of(key.spec_bytes()),
{
    hash_message(key)
}

/// A fresh API key: the service prefix and 64 random hex digits.
pub fn generate_api_key() -> (r: String)
    ensures
        exists|b: Seq<u8>| b.len() == 32 && r@ == "0rlhf_"@ + hex_of(b),
{
    let bytes = random_bytes();
    let mut key = String::from_str("0rlhf_");
    key.append(hex_encode(bytes.as_slice()).as_str());
    key
}

fn strip_prefix<'a>(s: &'a str, p: &str) -> (r: Option<&'a str>)
    ensures
        match r {
            Some(rest) => starts_with(s@, p@) && rest@ == s@.skip(p@.len() as int),
            None => !starts_with(s@, p@),
        },
{
    let n = s.unicode_len();
    let m = p.unicode_len();
    if m > n {
        return None;
    }
    let head = s.substring_char(0, m);
    if str_eq(head, p) {
        Some(s.substring_char(m, n))
    } else {
        None
    }
}

/// The API key carried by an `Authorization` header: `Bearer ` and a key
/// with the service prefix.
pub fn bearer_key(header: &str) -> (r: Result<&str, AppError>)
    ensures
        !starts_with(header@, "Bearer "@) ==> r is Err && crate::error::is_unauthorized(
            r->Err_0,
            "Invalid Authorization header format"@,
        ),
        starts_with(header@, "Bearer "@) ==> ({
            let token = header@.skip("Bearer "@.len() as int);
            if starts_with(token, "0rlhf_"@) {
                r is Ok && r->Ok_0@ == token
            } else {
                r is Err && crate::error::is_unauthorized(r->Err_0, "Invalid API key format"@)
            }
        }),
{
    let token = match strip_prefix(header, "Bearer ") {
        Some(t) => t,
        None => {
            return Err(
                AppError::Unauthorized(String::from_str("Invalid Authorization header format")),
            );
        },
    };
    match strip_prefix(token, "0rlhf_") {
        Some(_) => Ok(token),
        None => Err(AppError::Unauthorized(String::from_str("Invalid API key format"))),
    }
}

/// Fingerprint stored for a tripcode password.
pub fn hash_tripcode(password: &str) -> (r: String)
    ensures
        r@ == fingerprint_of(password.spec_bytes()),
{
    hash_message(password)
}

/// Shown form of a tripcode: the first eight characters of its stored hash.
pub fn tripcode_of(hash: &str) -> (r: String)
    ensures
        r@ == if hash@.len() <= 8 {
            hash@
        } else {
            hash@.take(8)
        },
{
    let cs = chars_of(hash);
    let n = if cs.len() <= 8 {
        cs.len()
    } else {
        8
    };
    let mut out = String::new();
    let mut i: usize = 0;
    while i < n
        invariant
            cs@ == hash@,
            n <= cs@.len(),
            0 <= i <= n,
            out@ == cs@.take(i as int),
        decreases n - i,
    {
        crate::text::push_char(&mut out, cs[i]);
        proof {
            assert(cs@.take(i + 1) =~= cs@.take(i as int).push(cs@[i as int]));
        }
        i += 1;
    }
    proof {
        if hash@.len() <= 8 {
            assert(cs@.take(n as int) =~= hash@);
        }
    }
    out
}

pub open spec fn key_budget_text(max_keys: i32) -> Seq<char> {
    "Maximum of "@ + crate::error::signed_decimal_of(max_keys as int) + " API keys per agent reached"@
}

/// Admits a new API key iff the agent holds fewer than `max_keys`.
pub fn check_key_budget(current: i64, max_keys: i32) -> (r: Result<(), AppError>)
    ensures
        r is Ok <==> current < max_keys as i64,
        r is Err ==> crate::error::is_bad_request(r->Err_0, key_budget_text(max_keys)),
{
    if current >= max_keys as i64 {
        let mut s = String::from_str("Maximum of ");
        s.append(crate::error::signed_decimal(max_keys as i64).as_str());
        s.append(" API keys per agent reached");
        Err(AppError::BadRequest(s))
    } else {
        Ok(())
    }
}

/// Admits an action on agent `target` iff the caller is that agent.
pub fn check_self(caller: &str, target: &str, refusal: &str) -> (r: Result<(), AppError>)
    ensures
        r is Ok <==> caller@ == target@,
        r is Err ==> is_forbidden(r->Err_0, refusal@),
{
    if str_eq(caller, target) {
        Ok(())
    } else {
        Err(AppError::Forbidden(String::from_str(refusal)))
    }
}

} // verus!
