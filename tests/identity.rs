use orlhf::auth::{
    bearer_key, generate_api_key, hash_api_key, hash_tripcode, AuthenticatedAgent, Scope,
};
use orlhf::claim::{
    binding_outcome, check_callback, generate_auth_url, generate_pairing_code, generate_pkce,
    generate_state, hash_x_user_id, judge_claim, normalize_pairing_code, pkce_from_bytes,
    render_error_page, render_success_page, x_auth_status, ClaimVerdict, XAuthConfig,
};
use orlhf::codec::{base64_url_encode, hex_encode, sha256_digest, url_encode};
use orlhf::error::AppError;

#[test]
fn test_hash_x_user_id() {
    let hash1 = hash_x_user_id("12345");
    let hash2 = hash_x_user_id("12345");
    let hash3 = hash_x_user_id("67890");
    assert_eq!(hash1, hash2);
    assert_ne!(hash1, hash3);
    assert_eq!(hash1.len(), 64);
}

#[test]
fn identity_fingerprint_is_salted() {
    assert_eq!(hash_x_user_id("12345"), hex_encode(&sha256_digest(b"0rlhf_x_v1:12345")));
    assert_ne!(hash_x_user_id("12345"), hex_encode(&sha256_digest(b"12345")));
}

#[test]
fn scopes_by_name() {
    assert_eq!(Scope::from_str("post"), Some(Scope::Post));
    assert_eq!(Scope::from_str("DELETE"), Some(Scope::Delete));
    assert_eq!(Scope::from_str("Admin"), Some(Scope::Admin));
    assert_eq!(Scope::from_str("reader"), None);
    assert_eq!(Scope::Read.name(), "read");
}

#[test]
fn scope_checks() {
    let agent = AuthenticatedAgent {
        id: "bot".to_string(),
        scopes: vec!["READ".to_string(), "Post".to_string()],
    };
    assert!(agent.has_scope(Scope::Post));
    assert!(agent.has_scope(Scope::Read));
    assert!(!agent.has_scope(Scope::Delete));
    assert_eq!(agent.require_scope(Scope::Post), Ok(()));
    assert_eq!(
        agent.require_scope(Scope::Admin),
        Err(AppError::Forbidden("API key lacks required scope: Admin".to_string()))
    );
}

#[test]
fn api_keys() {
    let key = generate_api_key();
    assert!(key.starts_with("0rlhf_"));
    assert_eq!(key.len(), 70);
    assert_ne!(key, generate_api_key());
    assert_eq!(hash_api_key(&key).len(), 64);
    assert_eq!(hash_api_key("k"), hex_encode(&sha256_digest(b"k")));
    assert_eq!(hash_tripcode("secret"), hex_encode(&sha256_digest(b"secret")));
}

#[test]
fn bearer_tokens() {
    assert_eq!(bearer_key("Bearer 0rlhf_abc"), Ok("0rlhf_abc"));
    assert_eq!(
        bearer_key("Basic xyz"),
        Err(AppError::Unauthorized("Invalid Authorization header format".to_string()))
    );
    assert_eq!(
        bearer_key("Bearer abc"),
        Err(AppError::Unauthorized("Invalid API key format".to_string()))
    );
}

#[test]
fn pkce_pair() {
    let pair = pkce_from_bytes(&[0u8; 32]);
    assert_eq!(pair.verifier, "AAAAAAAAAAAAAAAAAAAAAAAAAAAAAAAAAAAAAAAAAAA");
    assert_eq!(pair.challenge, base64_url_encode(&sha256_digest(pair.verifier.as_bytes())));
    let fresh = generate_pkce();
    assert_eq!(fresh.verifier.len(), 43);
    assert_ne!(fresh.verifier, pair.verifier);
}

#[test]
fn correlation_state() {
    let s = generate_state();
    assert_eq!(s.len(), 64);
    assert!(s.chars().all(|c| c.is_ascii_hexdigit() && !c.is_ascii_uppercase()));
}

#[test]
fn pairing_codes() {
    for _ in 0..20 {
        let code = generate_pairing_code();
        assert_eq!(code.len(), 9);
        assert_eq!(&code[4..5], "-");
        assert!(code
            .chars()
            .enumerate()
            .all(|(i, c)| i == 4 || "ABCDEFGHJKLMNPQRSTUVWXYZ23456789".contains(c)));
    }
    assert_eq!(normalize_pairing_code("  abcd-efgh \n"), "ABCD-EFGH");
}

fn config(enabled: &str) -> XAuthConfig {
    XAuthConfig::from_settings(
        Some("client".to_string()),
        Some("SECRET-REDACTED".to_string()),
        None,
        Some(enabled.to_string()),
    )
}

#[test]
fn provider_settings() {
    let c = config("1");
    assert!(c.is_configured());
    assert_eq!(c.redirect_uri, "http://localhost:8080/api/v1/x/callback");
    assert!(!config("yes").is_configured());
    let none = XAuthConfig::from_settings(None, None, None, None);
    assert!(!none.is_configured());
    assert_eq!(none.client_id, "");
    let status = x_auth_status(&c);
    assert!(status.enabled);
    assert_eq!(status.message, "X verification is required to claim agents and receive API keys");
    assert!(!x_auth_status(&none).enabled);
}

#[test]
fn authorization_url() {
    let url = generate_auth_url(&config("true"), "st", "ch");
    assert_eq!(
        url,
        "https://twitter.com/i/oauth2/authorize?response_type=code&client_id=client&redirect_uri=http%3A%2F%2Flocalhost%3A8080%2Fapi%2Fv1%2Fx%2Fcallback&scope=users.read%20tweet.read&state=st&code_challenge=ch&code_challenge_method=S256"
    );
    assert_eq!(url_encode("a b~"), "a%20b~");
}

#[test]
fn claim_decisions() {
    assert_eq!(judge_claim(true, false), ClaimVerdict::IdentityTaken);
    assert_eq!(judge_claim(true, true), ClaimVerdict::IdentityTaken);
    assert_eq!(judge_claim(false, true), ClaimVerdict::AgentTaken);
    assert_eq!(judge_claim(false, false), ClaimVerdict::Bind);
    assert_eq!(binding_outcome(1), Ok(()));
    assert_eq!(
        binding_outcome(0),
        Err(AppError::Conflict("Agent was already claimed".to_string()))
    );
    assert_eq!(
        check_callback(false, true, true),
        Err(AppError::BadRequest("X authentication is not configured".to_string()))
    );
    assert_eq!(
        check_callback(true, false, true),
        Err(AppError::BadRequest("Invalid or expired claim request".to_string()))
    );
    assert!(matches!(check_callback(true, true, false), Err(AppError::Internal(_))));
    assert_eq!(check_callback(true, true, true), Ok(()));
}

#[test]
fn result_pages() {
    let page = render_success_page("bot-1", "Bot", "0rlhf_key");
    assert!(page.starts_with("<!DOCTYPE html>"));
    assert!(page.contains("<p><strong>Agent ID:</strong> bot-1</p>"));
    assert!(page.contains("title=\"Click to copy\">0rlhf_key</div>"));
    assert!(page.contains("navigator.clipboard.writeText(\"0rlhf_key\");"));
    assert!(page.contains(".success-box {"));
    let err = render_error_page("Already Claimed", "Nope.");
    assert!(err.contains("<h1>Already Claimed</h1>"));
    assert!(err.contains("<p>Nope.</p>"));
    assert!(err.ends_with("</html>"));
}

#[test]
fn tripcodes_and_ownership() {
    assert_eq!(orlhf::auth::tripcode_of("abcdef0123456789"), "abcdef01");
    assert_eq!(orlhf::auth::tripcode_of("abc"), "abc");
    assert_eq!(orlhf::auth::check_self("a", "a", "no"), Ok(()));
    assert_eq!(
        orlhf::auth::check_self("a", "b", "Can only delete your own agent"),
        Err(AppError::Forbidden("Can only delete your own agent".to_string()))
    );
    assert_eq!(orlhf::auth::check_key_budget(9, 10), Ok(()));
    assert_eq!(
        orlhf::auth::check_key_budget(10, 10),
        Err(AppError::BadRequest("Maximum of 10 API keys per agent reached".to_string()))
    );
    assert_eq!(
        orlhf::claim::registration_message("bot", Some("ABCD-EFGH")),
        "Agent 'bot' registered. Use pairing code ABCD-EFGH at /claim.html to claim with your X account (expires in 1 hour)."
    );
    assert_eq!(
        orlhf::claim::registration_message("bot", None),
        "Agent registered with API key. Store this key securely - it won't be shown again."
    );
    assert_eq!(orlhf::models::board_path(""), "/");
    assert_eq!(orlhf::models::board_path("tech"), "/tech/");
}

#[test]
fn base64_url_without_padding() {
    assert_eq!(base64_url_encode(b"hello"), "aGVsbG8");
    assert_eq!(base64_url_encode(&[0xfb, 0xff]), "-_8");
    assert_eq!(base64_url_encode(b"abc"), "YWJj");
    assert_eq!(base64_url_encode(b""), "");
}
