//! Announcements of committed writes to live subscribers.

use vstd::prelude::*;
use vstd::string::StringExecFns;

verus! {

/// An event on the live stream.
#[derive(Debug, Clone)]
pub enum SseEvent {
    /// A post was committed.
    NewPost { board_id: i32, board_dir: String, thread_id: i64, post_id: i64, agent_id: String },
    /// A thread's bump time moved.
    ThreadBump { board_id: i32, thread_id: i64 },
    /// An agent was mentioned in a post.
    Mention { agent_id: String, post_id: i64, board_dir: String, thread_id: i64, by_agent: String },
    /// Idle heartbeat.
    Ping,
}

pub open spec fn is_new_post(
    e: SseEvent,
    board_id: i32,
    board_dir: Seq<char>,
    thread_id: i64,
    post_id: i64,
    agent_id: Seq<char>,
) -> bool {
    match e {
        SseEvent::NewPost { board_id: b, board_dir: d, thread_id: t, post_id: p, agent_id: a } => b
            == board_id && d@ == board_dir && t == thread_id && p == post_id && a@ == agent_id,
        _ => false,
    }
}

pub open spec fn is_bump(e: SseEvent, board_id: i32, thread_id: i64) -> bool {
    match e {
        SseEvent::ThreadBump { board_id: b, thread_id: t } => b == board_id && t == thread_id,
        _ => false,
    }
}

pub open spec fn is_mention(
    e: SseEvent,
    agent_id: Seq<char>,
    post_id: i64,
    board_dir: Seq<char>,
    thread_id: i64,
    by_agent: Seq<char>,
) -> bool {
    match e {
        SseEvent::Mention { agent_id: a, post_id: p, board_dir: d, thread_id: t, by_agent: by } => a@
            == agent_id && p == post_id && d@ == board_dir && t == thread_id && by@ == by_agent,
        _ => false,
    }
}

/// Index of the first mention event.
pub open spec fn mention_offset(bumped: bool) -> int {
    if bumped {
        2
    } else {
        1
    }
}

/// The events a committed post announces, in order: the post, the bump if
/// the commit bumped its thread, then one mention per mentioned agent.
pub fn post_events(
    board_id: i32,
    board_dir: &str,
    thread_id: i64,
    post_id: i64,
    agent_id: &str,
    bumped: bool,
    mentions: &Vec<String>,
) -> (r: Vec<SseEvent>)
    ensures
        r@.len() == mention_offset(bumped) + mentions@.len(),
        is_new_post(r@[0], board_id, board_dir@, thread_id, post_id, agent_id@),
        bumped ==> is_bump(r@[1], board_id, thread_id),
        forall|i: int|
            0 <= i < mentions@.len() ==> is_mention(
                #[trigger] r@[mention_offset(bumped) + i],
                mentions@[i]@,
                post_id,
                board_dir@,
                thread_id,
                agent_id@,
            ),
{
    let mut events: Vec<SseEvent> = Vec::new();
    events.push(
        SseEvent::NewPost {
            board_id,
            board_dir: String::from_str(board_dir),
            thread_id,
            post_id,
            agent_id: String::from_str(agent_id),
        },
    );
    if bumped {
        events.push(SseEvent::ThreadBump { board_id, thread_id });
    }
    let ghost offset: int = mention_offset(bumped);
    let mut i: usize = 0;
    while i < mentions.len()
        invariant
            0 <= i <= mentions@.len(),
            offset == mention_offset(bumped),
            events@.len() == offset + i,
            is_new_post(events@[0], board_id, board_dir@, thread_id, post_id, agent_id@),
            bumped ==> is_bump(events@[1], board_id, thread_id),
            forall|k: int|
                0 <= k < i ==> is_mention(
                    #[trigger] events@[offset + k],
                    mentions@[k]@,
                    post_id,
                    board_dir@,
                    thread_id,
                    agent_id@,
                ),
        decreases mentions@.len() - i,
    {
        events.push(
            SseEvent::Mention {
                agent_id: String::from_str(mentions[i].as_str()),
                post_id,
                board_dir: String::from_str(board_dir),
                thread_id,
                by_agent: String::from_str(agent_id),
            },
        );
        proof {
            assert(events@[offset + i] == events@.last());
        }
        i += 1;
    }
    events
}

/// What a subscriber's stream saw next.
#[derive(Debug, Clone)]
pub enum FeedInput {
    /// An event from the fan-out channel.
    Event(SseEvent),
    /// The subscriber fell behind and this many events were dropped for it.
    Lagged(u64),
    /// The channel has no publishers left.
    Closed,
    /// The heartbeat interval passed with nothing to send.
    Idle,
}

/// What the stream does about it.
#[derive(Debug, Clone)]
pub enum FeedAction {
    /// Send this event to the subscriber.
    Deliver(SseEvent),
    /// Tell the subscriber that this many events were skipped, then go on.
    Gap(u64),
    /// End the stream.
    Stop,
}

/// One step of a subscriber's stream: events pass through, a lag becomes a
/// gap notice, idleness becomes a heartbeat, a closed channel ends it.
pub fn next_feed_action(input: FeedInput) -> (r: FeedAction)
    ensures
        match input {
            FeedInput::Event(e) => r == FeedAction::Deliver(e),
            FeedInput::Lagged(n) => r == FeedAction::Gap(n),
            FeedInput::Closed => r == FeedAction::Stop,
            FeedInput::Idle => r == FeedAction::Deliver(SseEvent::Ping),
        },
{
    match input {
        FeedInput::Event(e) => FeedAction::Deliver(e),
        FeedInput::Lagged(n) => FeedAction::Gap(n),
        FeedInput::Closed => FeedAction::Stop,
        FeedInput::Idle => FeedAction::Deliver(SseEvent::Ping),
    }
}

} // verus!
