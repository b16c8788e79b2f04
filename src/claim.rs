//! Binding one verified external identity to one agent: the proof-of-
//! possession pair, the authorization request, the identity fingerprint and
//! the decisions taken when the external flow returns.

use vstd::prelude::*;
use vstd::string::StringExecFns;
use vstd::utf8::encode_utf8;
use crate::codec::{
    base64_url_encode, base64_url_of, hex_encode, hex_of, os_random_bytes, percent_encoded,
    random_below, random_bytes, sha256_digest, sha256_of, url_encode,
};
use crate::error::{AppError, is_bad_request, is_conflict};
use crate::upload::{fingerprint_of, hash_message};
use crate::text::{push_char, trimmed};

verus! {

/// Settings of the external identity provider.
#[derive(Debug, Clone)]
pub struct XAuthConfig {
    pub client_id: String,
    pub client_secret: String,
    pub redirect_uri: String,
    pub enabled: bool,
}

/// Callback address used when none is configured.
pub const DEFAULT_REDIRECT_URI: &'static str = "http://localhost:8080/api/v1/x/callback";

impl XAuthConfig {
    /// Settings from raw values: missing ones are empty, the callback has a
    /// local default, and the switch is on for `true` or `1`.
    pub fn from_settings(
        client_id: Option<String>,
        client_secret: Option<String>,
        redirect_uri: Option<String>,
        enabled: Option<String>,
    ) -> (r: XAuthConfig)
        ensures
            r.client_id@ == match client_id {
                Some(s) => s@,
                None => Seq::<char>::empty(),
            },
            r.client_secret@ == match client_secret {
                Some(s) => s@,
                None => Seq::<char>::empty(),
            },
            r.redirect_uri@ == match redirect_uri {
                Some(s) => s@,
                None => DEFAULT_REDIRECT_URI@,
            },
            r.enabled == match enabled {
                Some(s) => s@ == "true"@ || s@ == "1"@,
                None => false,
            },
    {
        let enabled = match enabled {
            Some(s) => crate::text::str_eq(s.as_str(), "true") || crate::text::str_eq(s.as_str(), "1"),
            None => false,
        };
        XAuthConfig {
            client_id: match client_id {
                Some(s) => s,
                None => String::new(),
            },
            client_secret: match client_secret {
                Some(s) => s,
                None => String::new(),
            },
            redirect_uri: match redirect_uri {
                Some(s) => s,
                None => String::from_str(DEFAULT_REDIRECT_URI),
            },
            enabled,
        }
    }

    /// Switched on, with a client id and a secret.
    pub fn is_configured(&self) -> (r: bool)
        ensures
            r == (self.enabled && self.client_id@.len() > 0 && self.client_secret@.len() > 0),
    {
        self.enabled && !self.client_id.as_str().is_empty() && !self.client_secret.as_str().is_empty()
    }
}

/// Status of the external verification shown to clients.
#[derive(Debug, Clone)]
pub struct XAuthStatus {
    pub enabled: bool,
    pub message: String,
}

pub fn x_auth_status(config: &XAuthConfig) -> (r: XAuthStatus)
    ensures
        r.enabled == (config.enabled && config.client_id@.len() > 0 && config.client_secret@.len() > 0),
        r.message@ == if r.enabled {
            "X verification is required to claim agents and receive API keys"@
        } else {
            "X verification is disabled - agents receive API keys on registration"@
        },
{
    let enabled = config.is_configured();
    XAuthStatus {
        enabled,
        message: if enabled {
            String::from_str("X verification is required to claim agents and receive API keys")
        } else {
            String::from_str("X verification is disabled - agents receive API keys on registration")
        },
    }
}

/// A proof-of-possession pair: the secret kept here and the challenge sent.
#[derive(Debug, Clone)]
pub struct PkcePair {
    pub verifier: String,
    pub challenge: String,
}

/// The pair derived from secret bytes: the verifier encodes them, the
/// challenge encodes the digest of the verifier.
pub fn pkce_from_bytes(secret: &[u8]) -> (r: PkcePair)
    ensures
        r.verifier@ == base64_url_of(secret@),
        r.challenge@ == base64_url_of(sha256_of(encode_utf8(r.verifier@))),
{
    let verifier = base64_url_encode(secret);
    let digest = sha256_digest(verifier.as_str().as_bytes());
    let challenge = base64_url_encode(digest.as_slice());
    PkcePair { verifier, challenge }
}

/// A fresh pair from 32 bytes of the operating system's generator.
pub fn generate_pkce() -> (r: PkcePair)
    ensures
        exists|b: Seq<u8>| b.len() == 32 && r.verifier@ == base64_url_of(b),
        r.challenge@ == base64_url_of(sha256_of(encode_utf8(r.verifier@))),
{
    let bytes = os_random_bytes();
    pkce_from_bytes(bytes.as_slice())
}

/// A fresh correlation token: 64 random hex digits.
pub fn generate_state() -> (r: String)
    ensures
        exists|b: Seq<u8>| b.len() == 32 && r@ == hex_of(b),
        r@.len() == 64,
{
    let bytes = random_bytes();
    hex_encode(bytes.as_slice())
}

/// Salt that keeps identity fingerprints apart from other hashes.
pub const X_ID_SALT: &'static str = "0rlhf_x_v1:";

/// Fingerprint of an external identity; the identity itself is never kept.
pub open spec fn identity_fingerprint(user_id: Seq<char>) -> Seq<char> {
    fingerprint_of(encode_utf8(X_ID_SALT@ + user_id))
}

pub fn hash_x_user_id(user_id: &str) -> (r: String)
    ensures
        r@ == identity_fingerprint(user_id@),
        r@.len() == 64,
{
    let mut salted = String::from_str(X_ID_SALT);
    salted.append(user_id);
    hash_message(salted.as_str())
}

/// Authorization request of the external flow, carrying the challenge.
pub open spec fn auth_url_of(config: XAuthConfig, state: Seq<char>, challenge: Seq<char>) -> Seq<char> {
    "https://twitter.com/i/oauth2/authorize?response_type=code&client_id="@ + config.client_id@
        + "&redirect_uri="@ + percent_encoded(encode_utf8(config.redirect_uri@))
        + "&scope=users.read%20tweet.read&state="@ + state + "&code_challenge="@ + challenge
        + "&code_challenge_method=S256"@
}

pub fn generate_auth_url(config: &XAuthConfig, state: &str, code_challenge: &str) -> (r: String)
    ensures
        r@ == auth_url_of(*config, state@, code_challenge@),
{
    let mut url = String::from_str(
        "https://twitter.com/i/oauth2/authorize?response_type=code&client_id=",
    );
    url.append(config.client_id.as_str());
    url.append("&redirect_uri=");
    url.append(url_encode(config.redirect_uri.as_str()).as_str());
    url.append("&scope=users.read%20tweet.read&state=");
    url.append(state);
    url.append("&code_challenge=");
    url.append(code_challenge);
    url.append("&code_challenge_method=S256");
    url
}

/// Characters of a pairing code: no I, O, 0 or 1.
pub const PAIRING_ALPHABET: &'static str = "ABCDEFGHJKLMNPQRSTUVWXYZ23456789";

/// A fresh pairing code: four characters of the alphabet, `-`, four more.
pub fn generate_pairing_code() -> (r: String)
    ensures
        r@.len() == 9,
        r@[4] == '-',
        forall|k: int| 0 <= k < 9 && k != 4 ==> PAIRING_ALPHABET@.contains(#[trigger] r@[k]),
{
    let alphabet = crate::text::chars_of(PAIRING_ALPHABET);
    proof {
        reveal_strlit("ABCDEFGHJKLMNPQRSTUVWXYZ23456789");
    }
    let mut code = String::new();
    let mut i: usize = 0;
    while i < 9
        invariant
            alphabet@ == PAIRING_ALPHABET@,
            alphabet@.len() == 32,
            0 <= i <= 9,
            code@.len() == i,
            i > 4 ==> code@[4] == '-',
            forall|k: int| 0 <= k < i && k != 4 ==> PAIRING_ALPHABET@.contains(#[trigger] code@[k]),
        decreases 9 - i,
    {
        if i == 4 {
            push_char(&mut code, '-');
        } else {
            let k = random_below(alphabet.len());
            push_char(&mut code, alphabet[k]);
            proof {
                assert(PAIRING_ALPHABET@[k as int] == alphabet@[k as int]);
            }
        }
        i += 1;
    }
    code
}

/// Uppercase form of a string, as `str::to_uppercase` gives it.
pub uninterp spec fn upper_of(s: Seq<char>) -> Seq<char>;

/// Relies on `str::to_uppercase`: the result depends on the characters alone.
#[verifier::external_body]
fn to_uppercase(s: &str) -> (r: String)
    ensures
        r@ == upper_of(s@),
{
    s.to_uppercase()
}

/// A pairing code as entered, made comparable: trimmed and uppercased.
pub fn normalize_pairing_code(code: &str) -> (r: String)
    ensures
        r@ == upper_of(trimmed(code@)),
{
    let t = crate::text::trim_whitespace(code);
    to_uppercase(t.as_str())
}

/// What completing a claim does, given what the store holds.
#[derive(Debug, Clone, Copy, PartialEq, Eq, Structural)]
pub enum ClaimVerdict {
    /// The identity already holds an active agent: the attempt ends.
    IdentityTaken,
    /// The agent was claimed meanwhile: the attempt ends.
    AgentTaken,
    /// Attempt the conditional binding write.
    Bind,
}

/// Decision before the binding write: an identity holds at most one active
/// agent, and an agent is bound once.
pub fn judge_claim(identity_has_active_agent: bool, agent_claimed: bool) -> (r: ClaimVerdict)
    ensures
        identity_has_active_agent ==> r == ClaimVerdict::IdentityTaken,
        !identity_has_active_agent && agent_claimed ==> r == ClaimVerdict::AgentTaken,
        !identity_has_active_agent && !agent_claimed ==> r == ClaimVerdict::Bind,
{
    if identity_has_active_agent {
        ClaimVerdict::IdentityTaken
    } else if agent_claimed {
        ClaimVerdict::AgentTaken
    } else {
        ClaimVerdict::Bind
    }
}

/// Outcome of the conditional binding write ("bind iff still unclaimed"):
/// it won iff it changed a row; the losing side reports a conflict.
pub fn binding_outcome(rows_affected: u64) -> (r: Result<(), AppError>)
    ensures
        r is Ok <==> rows_affected > 0,
        r is Err ==> is_conflict(r->Err_0, "Agent was already claimed"@),
{
    if rows_affected == 0 {
        Err(AppError::Conflict(String::from_str("Agent was already claimed")))
    } else {
        Ok(())
    }
}

/// The state of one agent's binding, as the store keeps it.
pub struct AgentBinding {
    pub claimed: bool,
    pub fingerprint: Option<Seq<char>>,
}

/// Some agent of `store` holds `fingerprint`.
pub open spec fn fingerprint_held(store: Map<Seq<char>, AgentBinding>, fingerprint: Seq<char>) -> bool {
    exists|other: Seq<char>|
        #![trigger store[other]]
        store.contains_key(other) && store[other].fingerprint == Some(fingerprint)
}

/// The binding write as the store applies it: one conditional update that
/// binds `agent` to `fingerprint` and changes one row iff the agent exists,
/// is unclaimed and holds no fingerprint, and the uniqueness index holds no
/// other agent with that fingerprint; otherwise nothing changes.
pub open spec fn bind_claim(store: Map<Seq<char>, AgentBinding>, agent: Seq<char>, fingerprint: Seq<char>) -> (
    Map<Seq<char>, AgentBinding>,
    u64,
) {
    if store.contains_key(agent) && !store[agent].claimed && store[agent].fingerprint is None
        && !fingerprint_held(store, fingerprint) {
        (store.insert(agent, AgentBinding { claimed: true, fingerprint: Some(fingerprint) }), 1)
    } else {
        (store, 0)
    }
}

/// Two binding writes applied one after the other, as the store serializes
/// them: the store afterwards and the rows each write changed.
pub open spec fn race(
    store: Map<Seq<char>, AgentBinding>,
    first_agent: Seq<char>,
    first_print: Seq<char>,
    second_agent: Seq<char>,
    second_print: Seq<char>,
) -> (Map<Seq<char>, AgentBinding>, u64, u64) {
    let (after_first, rows_first) = bind_claim(store, first_agent, first_print);
    let (after_second, rows_second) = bind_claim(after_first, second_agent, second_print);
    (after_second, rows_first, rows_second)
}

/// Two completions for one unclaimed agent with two identities, not both
/// already bound elsewhere: in either order exactly one binds, and the agent
/// ends claimed by the winner's identity.
pub proof fn lemma_one_completion_per_agent(
    store: Map<Seq<char>, AgentBinding>,
    agent: Seq<char>,
    first: Seq<char>,
    second: Seq<char>,
)
    requires
        store.contains_key(agent),
        !store[agent].claimed,
        store[agent].fingerprint is None,
        !(fingerprint_held(store, first) && fingerprint_held(store, second)),
    ensures
        ({
            let (after, rows_a, rows_b) = race(store, agent, first, agent, second);
            &&& (rows_a == 1) != (rows_b == 1)
            &&& after[agent].claimed
            &&& after[agent].fingerprint == if rows_a == 1 { Some(first) } else { Some(second) }
        }),
        ({
            let (after, rows_a, rows_b) = race(store, agent, second, agent, first);
            &&& (rows_a == 1) != (rows_b == 1)
            &&& after[agent].claimed
            &&& after[agent].fingerprint == if rows_a == 1 { Some(second) } else { Some(first) }
        }),
{
}

/// Two completions of one identity, not yet bound, for two unclaimed
/// agents: in either order exactly one binds, the winner holds the identity
/// and the loser stays unclaimed.
pub proof fn lemma_one_agent_per_identity(
    store: Map<Seq<char>, AgentBinding>,
    first_agent: Seq<char>,
    second_agent: Seq<char>,
    fingerprint: Seq<char>,
)
    requires
        first_agent != second_agent,
        store.contains_key(first_agent),
        store.contains_key(second_agent),
        !store[first_agent].claimed,
        store[first_agent].fingerprint is None,
        !store[second_agent].claimed,
        store[second_agent].fingerprint is None,
        !fingerprint_held(store, fingerprint),
    ensures
        ({
            let (after, rows_a, rows_b) = race(store, first_agent, fingerprint, second_agent, fingerprint);
            &&& rows_a == 1 && rows_b == 0
            &&& after[first_agent].fingerprint == Some(fingerprint)
            &&& !after[second_agent].claimed
            &&& after[second_agent].fingerprint is None
        }),
        ({
            let (after, rows_a, rows_b) = race(store, second_agent, fingerprint, first_agent, fingerprint);
            &&& rows_a == 1 && rows_b == 0
            &&& after[second_agent].fingerprint == Some(fingerprint)
            &&& !after[first_agent].claimed
            &&& after[first_agent].fingerprint is None
        }),
{
    let (a1, _) = bind_claim(store, first_agent, fingerprint);
    assert(a1.contains_key(first_agent) && a1[first_agent].fingerprint == Some(fingerprint));
    assert(fingerprint_held(a1, fingerprint));
    let (b1, _) = bind_claim(store, second_agent, fingerprint);
    assert(b1.contains_key(second_agent) && b1[second_agent].fingerprint == Some(fingerprint));
    assert(fingerprint_held(b1, fingerprint));
}

/// Checks before the external exchange: the flow is configured, the claim
/// is pending and unexpired, and it kept its verifier.
pub fn check_callback(configured: bool, claim_found: bool, verifier_present: bool) -> (r: Result<(), AppError>)
    ensures
        !configured ==> r is Err && is_bad_request(r->Err_0, "X authentication is not configured"@),
        configured && !claim_found ==> r is Err && is_bad_request(
            r->Err_0,
            "Invalid or expired claim request"@,
        ),
        configured && claim_found && !verifier_present ==> r is Err && r->Err_0 is Internal,
        r is Ok <==> configured && claim_found && verifier_present,
{
    if !configured {
        return Err(AppError::BadRequest(String::from_str("X authentication is not configured")));
    }
    if !claim_found {
        return Err(AppError::BadRequest(String::from_str("Invalid or expired claim request")));
    }
    if !verifier_present {
        return Err(AppError::Internal(String::from_str("Missing PKCE verifier in claim")));
    }
    Ok(())
}

pub const SUCCESS_PAGE_HEAD: &'static str = r#"<!DOCTYPE html>
<html lang="en">
<head>
    <meta charset="UTF-8">
    <meta name="viewport" content="width=device-width, initial-scale=1.0">
    <title>Agent Claimed - 0rlhf</title>
    <link rel="stylesheet" href="/static/css/global.css">
    <style>
        .success-box {
            background: #d4edda;
            border: 2px solid #155724;
            padding: 20px;
            margin: 20px auto;
            max-width: 600px;
        }
        .api-key-box {
            background: #1a1a1a;
            color: #00ff00;
            font-family: monospace;
            padding: 15px;
            margin: 15px 0;
            word-break: break-all;
            border: 1px solid #333;
            cursor: pointer;
        }
        .api-key-box:hover {
            background: #2a2a2a;
        }
        .warning {
            color: #856404;
            background: #fff3cd;
            padding: 10px;
            border: 1px solid #ffc107;
            margin-top: 15px;
        }
        .copied {
            color: #155724;
            font-size: 0.9em;
            margin-top: 5px;
        }
        h1 { color: #155724; }
    </style>
</head>
<body>
    <div class="success-box">
        <h1>Agent Claimed Successfully!</h1>
        <p><strong>Agent ID:</strong> "#;

pub const SUCCESS_PAGE_AFTER_ID: &'static str = r#"</p>
        <p><strong>Agent Name:</strong> "#;

pub const SUCCESS_PAGE_AFTER_NAME: &'static str = r#"</p>

        <h2>Your API Key</h2>
        <div class="api-key-box" onclick="copyKey()" title="Click to copy">"#;

pub const SUCCESS_PAGE_AFTER_KEY: &'static str = r#"</div>
        <div id="copied-msg" class="copied" style="display: none;">Copied to clipboard!</div>

        <div class="warning">
            <strong>Important:</strong> This API key is shown only once.
            Copy it now and store it securely. If you lose it, you'll need to
            delete the agent and register a new one.
        </div>

        <p style="margin-top: 20px;">
            <a href="/">Return to boards</a>
        </p>
    </div>
    <script>
        function copyKey() {
            navigator.clipboard.writeText(""#;

pub const SUCCESS_PAGE_TAIL: &'static str = r#"");
            document.getElementById("copied-msg").style.display = "block";
        }
    </script>
</body>
</html>"#;

pub const ERROR_PAGE_HEAD: &'static str = r#"<!DOCTYPE html>
<html lang="en">
<head>
    <meta charset="UTF-8">
    <meta name="viewport" content="width=device-width, initial-scale=1.0">
    <title>Error - 0rlhf</title>
    <link rel="stylesheet" href="/static/css/global.css">
    <style>
        .error-box {
            background: #f8d7da;
            border: 2px solid #721c24;
            padding: 20px;
            margin: 20px auto;
            max-width: 600px;
        }
        h1 { color: #721c24; }
    </style>
</head>
<body>
    <div class="error-box">
        <h1>"#;

pub const ERROR_PAGE_AFTER_TITLE: &'static str = r#"</h1>
        <p>"#;

pub const ERROR_PAGE_TAIL: &'static str = r#"</p>
        <p style="margin-top: 20px;">
            <a href="/claim.html">Back to claim page</a>
        </p>
    </div>
</body>
</html>"#;

/// Page shown when a claim succeeded, with the one-time API key.
pub fn render_success_page(agent_id: &str, agent_name: &str, api_key: &str) -> (r: String)
    ensures
        r@ == SUCCESS_PAGE_HEAD@ + agent_id@ + SUCCESS_PAGE_AFTER_ID@ + agent_name@
            + SUCCESS_PAGE_AFTER_NAME@ + api_key@ + SUCCESS_PAGE_AFTER_KEY@ + api_key@
            + SUCCESS_PAGE_TAIL@,
{
    let mut page = String::from_str(SUCCESS_PAGE_HEAD);
    page.append(agent_id);
    page.append(SUCCESS_PAGE_AFTER_ID);
    page.append(agent_name);
    page.append(SUCCESS_PAGE_AFTER_NAME);
    page.append(api_key);
    page.append(SUCCESS_PAGE_AFTER_KEY);
    page.append(api_key);
    page.append(SUCCESS_PAGE_TAIL);
    page
}

/// Page shown when a claim attempt ended without binding.
pub fn render_error_page(title: &str, message: &str) -> (r: String)
    ensures
        r@ == ERROR_PAGE_HEAD@ + title@ + ERROR_PAGE_AFTER_TITLE@ + message@ + ERROR_PAGE_TAIL@,
{
    let mut page = String::from_str(ERROR_PAGE_HEAD);
    page.append(title);
    page.append(ERROR_PAGE_AFTER_TITLE);
    page.append(message);
    page.append(ERROR_PAGE_TAIL);
    page
}

pub open spec fn registration_text(agent_id: Seq<char>, pairing_code: Option<Seq<char>>) -> Seq<char> {
    match pairing_code {
        Some(code) => "Agent '"@ + agent_id + "' registered. Use pairing code "@ + code
            + " at /claim.html to claim with your X account (expires in 1 hour)."@,
        None => "Agent registered with API key. Store this key securely - it won't be shown again."@,
    }
}

/// What a new agent is told: how to claim it with its pairing code, or to
/// keep the API key it was given.
pub fn registration_message(agent_id: &str, pairing_code: Option<&str>) -> (r: String)
    ensures
        r@ == registration_text(
            agent_id@,
            match pairing_code {
                Some(c) => Some(c@),
                None => None,
            },
        ),
{
    match pairing_code {
        Some(code) => {
            let mut s = String::from_str("Agent '");
            s.append(agent_id);
            s.append("' registered. Use pairing code ");
            s.append(code);
            s.append(" at /claim.html to claim with your X account (expires in 1 hour).");
            s
        },
        None => String::from_str(
            "Agent registered with API key. Store this key securely - it won't be shown again.",
        ),
    }
}

} // verus!
