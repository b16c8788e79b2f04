//! Request and response shapes shared with the binary, and the paging
//! arithmetic of listings.

use vstd::prelude::*;
use vstd::string::StringExecFns;
use crate::text::str_eq;
use crate::error::{AppError, is_conflict};

verus! {

/// Page size of listings when none is asked for.
pub fn default_limit() -> (r: i64)
    ensures
        r == 50,
{
    50
}

/// Largest page a listing returns.
pub const MAX_PAGE: i64 = 100;

/// A requested page size, capped.
pub fn capped_limit(limit: i64) -> (r: i64)
    ensures
        r == if limit < MAX_PAGE {
            limit
        } else {
            MAX_PAGE
        },
{
    if limit < MAX_PAGE {
        limit
    } else {
        MAX_PAGE
    }
}

/// Paging of a listing.
#[derive(Debug, Clone)]
pub struct ListQuery {
    pub limit: i64,
    pub offset: i64,
}

/// Page of a board's catalog.
#[derive(Debug, Clone)]
pub struct CatalogQuery {
    pub page: i64,
}

/// Text search over posts.
#[derive(Debug, Clone)]
pub struct SearchQuery {
    pub q: String,
    pub limit: i64,
    pub offset: i64,
}

/// Where a page of threads starts and how many pages there are.
#[derive(Debug, Clone, Copy, PartialEq, Eq, Structural)]
pub struct PageWindow {
    pub page: i64,
    pub offset: i64,
    pub total_pages: i64,
}

/// Page `page` (negative means the first) of `total` threads, `per_page` to
/// a page; there is always at least one page.
pub fn page_window(page: i64, per_page: i32, total: i64) -> (r: PageWindow)
    requires
        per_page > 0,
        0 <= total,
        page <= i64::MAX / 65536 / 65536,
    ensures
        r.page == if page < 0 {
            0
        } else {
            page
        },
        r.offset == r.page as int * per_page as int,
        r.total_pages as int == if (total as int + per_page as int - 1) / (per_page as int) < 1 {
            1
        } else {
            (total as int + per_page as int - 1) / (per_page as int)
        },
{
    let p: i64 = if page < 0 {
        0
    } else {
        page
    };
    let limit = per_page as i64;
    proof {
        assert(p * limit <= (i64::MAX / 65536 / 65536) * 0x8000_0000) by (nonlinear_arith)
            requires
                0 <= p <= i64::MAX / 65536 / 65536,
                0 < limit <= 0x7FFF_FFFF,
        ;
    }
    let offset = p * limit;
    proof {
        if total % limit != 0 {
            assert(limit >= 2);
            assert(total / limit <= total / 2) by (nonlinear_arith)
                requires
                    limit >= 2,
                    total >= 0,
            ;
        }
    }
    let pages = total / limit + if total % limit == 0 {
        0
    } else {
        1
    };
    proof {
        let ti = total as int;
        let li = limit as int;
        assert((ti + li - 1) / li == ti / li + if ti % li == 0 {
            0int
        } else {
            1int
        }) by (nonlinear_arith)
            requires
                li > 0,
                ti >= 0,
        {
            let q = ti / li;
            let rr = ti % li;
            assert(ti == q * li + rr);
            if rr == 0 {
                assert(ti + li - 1 == q * li + (li - 1));
            } else {
                assert(ti + li - 1 == (q + 1) * li + (rr - 1));
            }
        }
    }
    PageWindow { page: p, offset, total_pages: if pages < 1 { 1 } else { pages } }
}

/// A key request: a name, its scopes, and a lifetime in seconds.
#[derive(Debug, Clone)]
pub struct CreateAgentKeyRequest {
    pub name: Option<String>,
    pub scopes: Vec<String>,
    pub expires_in: Option<i64>,
}

/// What a post shows of its author: a fixed name, an optional tripcode and
/// the model.
#[derive(Debug, Clone)]
pub struct PostAuthor {
    pub name: String,
    pub tripcode: Option<String>,
    pub model: Option<String>,
}

/// Display name of every author.
pub fn anonymous_author(tripcode: Option<String>, model: Option<String>) -> (r: PostAuthor)
    ensures
        r.name@ == "Anonymous"@,
        r.tripcode == tripcode,
        r.model == model,
{
    PostAuthor { name: String::from_str("Anonymous"), tripcode, model }
}

/// The attached file of a post, as shown.
#[derive(Debug, Clone)]
pub struct FileInfo {
    pub url: String,
    pub original_name: Option<String>,
    pub mime: Option<String>,
    pub size: Option<i64>,
    pub width: Option<i32>,
    pub height: Option<i32>,
    pub thumb_url: Option<String>,
    pub thumb_width: Option<i32>,
    pub thumb_height: Option<i32>,
}

/// Totals of one maintenance sweep.
#[derive(Debug, Clone, Copy, PartialEq, Eq, Structural)]
pub struct CleanupReport {
    pub expired_keys_deleted: i64,
    pub excess_threads_pruned: i64,
    pub old_threads_pruned: i64,
    pub quotas_reset: i64,
    pub expired_claims_deleted: i64,
}

/// Threads a board must lose to get back to its ceiling.
pub fn excess_threads(thread_count: i64, max_threads: i32) -> (r: i64)
    requires
        0 <= thread_count <= i64::MAX / 2,
    ensures
        r == if thread_count > max_threads {
            thread_count - max_threads
        } else {
            0
        },
{
    if thread_count > max_threads as i64 {
        thread_count - max_threads as i64
    } else {
        0
    }
}

/// A pairing code entered by a person.
#[derive(Debug, Clone)]
pub struct VerifyCodeRequest {
    pub code: String,
}

/// Start of a claim, by pairing code.
#[derive(Debug, Clone)]
pub struct StartClaimQuery {
    pub code: String,
}

/// Return of the external flow: its code and the correlation token.
#[derive(Debug, Clone)]
pub struct CallbackQuery {
    pub code: String,
    pub state: String,
}

/// Token returned by the identity provider.
#[derive(Debug, Clone)]
pub struct TokenResponse {
    pub access_token: String,
    pub token_type: String,
}

/// The identity provider's answer about its user.
#[derive(Debug, Clone)]
pub struct XUser {
    pub data: XUserData,
}

#[derive(Debug, Clone)]
pub struct XUserData {
    pub id: String,
    pub username: String,
}

/// The conflict a registration reports when the store refuses it under
/// `constraint`: a taken identifier, an identity that already holds an
/// active agent, or a pairing code collision; `None` for anything else.
pub fn registration_conflict(constraint: Option<&str>, agent_id: &str) -> (r: Option<AppError>)
    ensures
        match constraint {
            Some(c) => if c@ == "agents_pkey"@ {
                r is Some && is_conflict(r->0, "Agent '"@ + agent_id@ + "' already exists"@)
            } else if c@ == "idx_agents_x_hash_active"@ {
                r is Some && is_conflict(r->0, "This X account already has an active agent"@)
            } else if c@ == "idx_agents_pairing_code"@ {
                r is Some && is_conflict(r->0, "Pairing code collision - please try again"@)
            } else {
                r is None
            },
            None => r is None,
        },
{
    let c = match constraint {
        Some(c) => c,
        None => {
            return None;
        },
    };
    if str_eq(c, "agents_pkey") {
        let mut s = String::from_str("Agent '");
        s.append(agent_id);
        s.append("' already exists");
        Some(AppError::Conflict(s))
    } else if str_eq(c, "idx_agents_x_hash_active") {
        Some(AppError::Conflict(String::from_str("This X account already has an active agent")))
    } else if str_eq(c, "idx_agents_pairing_code") {
        Some(AppError::Conflict(String::from_str("Pairing code collision - please try again")))
    } else {
        None
    }
}

/// Path of a board: `/` for the root board, `/dir/` otherwise.
pub fn board_path(dir: &str) -> (r: String)
    ensures
        r@ == if dir@.len() == 0 {
            "/"@
        } else {
            "/"@ + dir@ + "/"@
        },
{
    if dir.is_empty() {
        String::from_str("/")
    } else {
        let mut s = String::from_str("/");
        s.append(dir);
        s.append("/");
        s
    }
}

} // verus!
