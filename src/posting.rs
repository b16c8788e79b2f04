//! Rules that gate a new thread or reply before the store commits it, the
//! bump rule applied inside that commit, and per-agent quota accounting.

use vstd::prelude::*;
use vstd::string::StringExecFns;
use vstd::string::StringSliceAdditionalSpecFns;
use crate::error::{
    AppError, is_bad_request, is_conflict, is_forbidden, signed_decimal, signed_decimal_of,
};

verus! {

/// Length of a quota period, in seconds.
pub const QUOTA_PERIOD_SECS: i64 = 86400;

/// A message over the ceiling, counted in bytes. A negative ceiling bounds
/// nothing.
pub open spec fn too_long(message: &str, max_message_length: i32) -> bool {
    max_message_length >= 0 && message.spec_bytes().len() > max_message_length as int
}

pub open spec fn too_long_text(max_message_length: i32) -> Seq<char> {
    "Message too long (max "@ + signed_decimal_of(max_message_length as int) + " characters)"@
}

pub open spec fn duplicate_text(image: bool, existing: i64) -> Seq<char> {
    (if image {
        "This image has already been posted (post #"@
    } else {
        "This message has already been posted (post #"@
    }) + signed_decimal_of(existing as int) + ")"@
}

fn too_long_error(max_message_length: i32) -> (e: AppError)
    ensures
        is_bad_request(e, too_long_text(max_message_length)),
{
    let mut s = String::from_str("Message too long (max ");
    s.append(signed_decimal(max_message_length as i64).as_str());
    s.append(" characters)");
    AppError::BadRequest(s)
}

/// Gate for a new thread: a non-empty message within the board's ceiling,
/// and an image.
pub fn check_thread_request(message: Option<&str>, has_file: bool, max_message_length: i32) -> (r:
    Result<(), AppError>)
    ensures
        match message {
            None => r is Err && is_bad_request(r->Err_0, "message is required"@),
            Some(m) => if m@.len() == 0 {
                r is Err && is_bad_request(r->Err_0, "message is required"@)
            } else if !has_file {
                r is Err && is_bad_request(r->Err_0, "Image file is required to start a thread"@)
            } else if too_long(m, max_message_length) {
                r is Err && is_bad_request(r->Err_0, too_long_text(max_message_length))
            } else {
                r is Ok
            },
        },
{
    let m = match message {
        None => {
            return Err(AppError::BadRequest(String::from_str("message is required")));
        },
        Some(m) => m,
    };
    if m.is_empty() {
        return Err(AppError::BadRequest(String::from_str("message is required")));
    }
    if !has_file {
        return Err(
            AppError::BadRequest(String::from_str("Image file is required to start a thread")),
        );
    }
    if max_message_length >= 0 && m.as_bytes().len() > max_message_length as usize {
        return Err(too_long_error(max_message_length));
    }
    Ok(())
}

/// Gate for a reply: the target is a thread (not itself a reply), it is
/// not locked, and the message is present and within the ceiling.
pub fn check_reply_request(
    target_parent: Option<i64>,
    target_locked: bool,
    message: Option<&str>,
    max_message_length: i32,
) -> (r: Result<(), AppError>)
    ensures
        if target_parent is Some {
            r is Err && is_bad_request(
                r->Err_0,
                "Cannot reply to a reply, must reply to thread OP"@,
            )
        } else if target_locked {
            r is Err && is_forbidden(r->Err_0, "Thread is locked"@)
        } else {
            match message {
                None => r is Err && is_bad_request(r->Err_0, "message is required"@),
                Some(m) => if too_long(m, max_message_length) {
                    r is Err && is_bad_request(r->Err_0, too_long_text(max_message_length))
                } else {
                    r is Ok
                },
            }
        },
{
    if target_parent.is_some() {
        return Err(
            AppError::BadRequest(
                String::from_str("Cannot reply to a reply, must reply to thread OP"),
            ),
        );
    }
    if target_locked {
        return Err(AppError::Forbidden(String::from_str("Thread is locked")));
    }
    let m = match message {
        None => {
            return Err(AppError::BadRequest(String::from_str("message is required")));
        },
        Some(m) => m,
    };
    if max_message_length >= 0 && m.as_bytes().len() > max_message_length as usize {
        return Err(too_long_error(max_message_length));
    }
    Ok(())
}

/// Outcome of a fingerprint lookup: a conflict naming the post that already
/// holds the content, or clear to go on.
pub fn check_duplicate_content(existing: Option<i64>, image: bool) -> (r: Result<(), AppError>)
    ensures
        match existing {
            None => r is Ok,
            Some(id) => r is Err && is_conflict(r->Err_0, duplicate_text(image, id)),
        },
{
    match existing {
        None => Ok(()),
        Some(id) => {
            let mut s = if image {
                String::from_str("This image has already been posted (post #")
            } else {
                String::from_str("This message has already been posted (post #")
            };
            s.append(signed_decimal(id).as_str());
            s.append(")");
            Err(AppError::Conflict(s))
        },
    }
}

/// The bump rule: a reply bumps its thread unless it asks not to, or the
/// thread already holds `bump_limit` replies.
pub open spec fn bumps(sage: bool, reply_count: i64, bump_limit: i32) -> bool {
    !sage && (reply_count as int) < (bump_limit as int)
}

/// The thread's bump time once a reply has been committed at `now`.
pub open spec fn bumped_at_after(
    bumped_at: i64,
    now: i64,
    sage: bool,
    reply_count: i64,
    bump_limit: i32,
) -> i64 {
    if bumps(sage, reply_count, bump_limit) {
        now
    } else {
        bumped_at
    }
}

/// Whether the commit of a reply also bumps its thread; `reply_count` is the
/// number of replies the thread held before this one.
pub fn should_bump(sage: bool, reply_count: i64, bump_limit: i32) -> (r: bool)
    ensures
        r == bumps(sage, reply_count, bump_limit),
{
    !sage && reply_count < bump_limit as i64
}

/// A thread at its bump ceiling keeps its bump time, whatever a reply asks.
pub proof fn lemma_ceiling_keeps_bump_time(
    bumped_at: i64,
    now: i64,
    sage: bool,
    reply_count: i64,
    bump_limit: i32,
)
    requires
        reply_count as int >= bump_limit as int,
    ensures
        !bumps(sage, reply_count, bump_limit),
        bumped_at_after(bumped_at, now, sage, reply_count, bump_limit) == bumped_at,
{
}

/// An agent's rolling daily budget. Times are seconds since the epoch.
#[derive(Debug, Clone)]
pub struct AgentQuota {
    pub agent_id: String,
    pub posts_today: i32,
    pub posts_limit: i32,
    pub bytes_today: i64,
    pub bytes_limit: i64,
    pub reset_at: i64,
}

/// The quota once a lazy reset has been applied at `now`: counters zeroed
/// and the next reset a period from now, iff the reset time has come.
pub open spec fn refreshed(q: AgentQuota, now: i64) -> AgentQuota {
    if now >= q.reset_at {
        AgentQuota {
            agent_id: q.agent_id,
            posts_today: 0,
            posts_limit: q.posts_limit,
            bytes_today: 0,
            bytes_limit: q.bytes_limit,
            reset_at: (now + QUOTA_PERIOD_SECS) as i64,
        }
    } else {
        q
    }
}

pub open spec fn clamp_i32(x: int) -> i32 {
    if x > i32::MAX {
        i32::MAX
    } else if x < i32::MIN {
        i32::MIN
    } else {
        x as i32
    }
}

pub open spec fn clamp_i64(x: int) -> i64 {
    if x > i64::MAX {
        i64::MAX
    } else if x < i64::MIN {
        i64::MIN
    } else {
        x as i64
    }
}

impl AgentQuota {
    /// Applies the lazy reset due at `now`.
    pub fn refresh(&mut self, now: i64)
        requires
            now <= i64::MAX - QUOTA_PERIOD_SECS,
        ensures
            *final(self) == refreshed(*old(self), now),
    {
        if now >= self.reset_at {
            self.posts_today = 0;
            self.bytes_today = 0;
            self.reset_at = now + QUOTA_PERIOD_SECS;
        }
    }

    /// Resets the counters if due, then admits iff posts remain in the
    /// budget.
    pub fn check(&mut self, now: i64) -> (r: Result<(), AppError>)
        requires
            now <= i64::MAX - QUOTA_PERIOD_SECS,
        ensures
            *final(self) == refreshed(*old(self), now),
            r is Ok <==> final(self).posts_today < final(self).posts_limit,
            r is Err ==> r->Err_0 == AppError::RateLimited,
    {
        self.refresh(now);
        if self.posts_today >= self.posts_limit {
            Err(AppError::RateLimited)
        } else {
            Ok(())
        }
    }

    /// Counts one committed post of `bytes` bytes; the counters stop at
    /// their type's bounds.
    pub fn consume(&mut self, bytes: i64)
        ensures
            final(self).posts_today == clamp_i32(old(self).posts_today + 1),
            final(self).bytes_today == clamp_i64(old(self).bytes_today + bytes),
            final(self).agent_id == old(self).agent_id,
            final(self).posts_limit == old(self).posts_limit,
            final(self).bytes_limit == old(self).bytes_limit,
            final(self).reset_at == old(self).reset_at,
    {
        if self.posts_today < i32::MAX {
            self.posts_today = self.posts_today + 1;
        }
        if bytes >= 0 {
            if self.bytes_today <= i64::MAX - bytes {
                self.bytes_today = self.bytes_today + bytes;
            } else {
                self.bytes_today = i64::MAX;
            }
        } else {
            if self.bytes_today >= i64::MIN - bytes {
                self.bytes_today = self.bytes_today + bytes;
            } else {
                self.bytes_today = i64::MIN;
            }
        }
    }
}

/// Two checks in quick succession at or after the reset time reset the
/// counters once: the second finds nothing due, both leave them at zero, and
/// no counter goes below zero.
pub proof fn lemma_quota_resets_once(q: AgentQuota, first: i64, second: i64)
    requires
        q.reset_at <= first <= second,
        second < first + QUOTA_PERIOD_SECS,
        first <= i64::MAX - QUOTA_PERIOD_SECS,
    ensures
        refreshed(refreshed(q, first), second) == refreshed(q, first),
        refreshed(q, first).posts_today == 0,
        refreshed(q, first).bytes_today == 0,
        refreshed(refreshed(q, first), second).posts_today == 0,
{
}

/// A reset never drives a counter below zero.
pub proof fn lemma_refresh_keeps_counters_nonnegative(q: AgentQuota, now: i64)
    requires
        q.posts_today >= 0,
        q.bytes_today >= 0,
        now <= i64::MAX - QUOTA_PERIOD_SECS,
    ensures
        refreshed(q, now).posts_today >= 0,
        refreshed(q, now).bytes_today >= 0,
{
}

/// The store's insert under a uniqueness constraint on fingerprints: the
/// first post to carry `fp` takes it; a later one is rejected, naming the
/// post that holds it.
pub open spec fn insert_fingerprint(index: Map<Seq<char>, i64>, fp: Seq<char>, post: i64) -> (
    Map<Seq<char>, i64>,
    Option<i64>,
) {
    if index.contains_key(fp) {
        (index, Some(index[fp]))
    } else {
        (index.insert(fp, post), None)
    }
}

/// Submissions of the same content as posts `posts`, in the order the
/// store serializes them: `None` for a commit, `Some(holder)` for a
/// rejection.
pub open spec fn submit_all(index: Map<Seq<char>, i64>, fp: Seq<char>, posts: Seq<i64>) -> Seq<
    Option<i64>,
>
    decreases posts.len(),
{
    if posts.len() == 0 {
        Seq::empty()
    } else {
        let (next, outcome) = insert_fingerprint(index, fp, posts[0]);
        seq![outcome] + submit_all(next, fp, posts.drop_first())
    }
}

proof fn lemma_submit_all_held(index: Map<Seq<char>, i64>, fp: Seq<char>, posts: Seq<i64>)
    requires
        index.contains_key(fp),
    ensures
        submit_all(index, fp, posts).len() == posts.len(),
        forall|i: int| 0 <= i < posts.len() ==> submit_all(index, fp, posts)[i] == Some(index[fp]),
    decreases posts.len(),
{
    if posts.len() > 0 {
        lemma_submit_all_held(index, fp, posts.drop_first());
        let r = submit_all(index, fp, posts);
        assert forall|i: int| 0 <= i < posts.len() implies r[i] == Some(index[fp]) by {
            if i > 0 {
                assert(r[i] == submit_all(index, fp, posts.drop_first())[i - 1]);
            }
        }
    }
}

/// Identical content submitted many times: the store commits exactly the
/// first submission, and every other one is rejected naming that post,
/// which `check_duplicate_content` reports as a conflict.
pub proof fn lemma_identical_submissions_one_wins(
    index: Map<Seq<char>, i64>,
    fp: Seq<char>,
    posts: Seq<i64>,
)
    requires
        !index.contains_key(fp),
        posts.len() > 0,
    ensures
        submit_all(index, fp, posts).len() == posts.len(),
        submit_all(index, fp, posts)[0] is None,
        forall|i: int| 1 <= i < posts.len() ==> submit_all(index, fp, posts)[i] == Some(posts[0]),
{
    let next = index.insert(fp, posts[0]);
    lemma_submit_all_held(next, fp, posts.drop_first());
    let r = submit_all(index, fp, posts);
    assert forall|i: int| 1 <= i < posts.len() implies r[i] == Some(posts[0]) by {
        assert(r[i] == submit_all(next, fp, posts.drop_first())[i - 1]);
    }
}

} // verus!
