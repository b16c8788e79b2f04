use orlhf::error::{decimal, signed_decimal, AppError};
use orlhf::feed::{next_feed_action, post_events, FeedAction, FeedInput, SseEvent};
use orlhf::posting::{
    check_duplicate_content, check_reply_request, check_thread_request, should_bump, AgentQuota,
};
use orlhf::upload::{screen_upload, UploadConfig};

fn bad(r: Result<(), AppError>) -> String {
    match r {
        Err(AppError::BadRequest(m)) => m,
        other => panic!("expected bad request, got {:?}", other),
    }
}

#[test]
fn thread_gate() {
    assert_eq!(bad(check_thread_request(None, true, 100)), "message is required");
    assert_eq!(bad(check_thread_request(Some(""), true, 100)), "message is required");
    assert_eq!(
        bad(check_thread_request(Some("hi"), false, 100)),
        "Image file is required to start a thread"
    );
    assert_eq!(
        bad(check_thread_request(Some("hello"), true, 4)),
        "Message too long (max 4 characters)"
    );
    assert_eq!(check_thread_request(Some("hell"), true, 4), Ok(()));
    assert_eq!(check_thread_request(Some("é"), true, 2), Ok(()));
    assert!(check_thread_request(Some("é"), true, 1).is_err());
    assert_eq!(check_thread_request(Some("anything"), true, -1), Ok(()));
}

#[test]
fn reply_gate() {
    assert_eq!(
        bad(check_reply_request(Some(7), false, Some("x"), 10)),
        "Cannot reply to a reply, must reply to thread OP"
    );
    assert_eq!(
        check_reply_request(None, true, Some("x"), 10),
        Err(AppError::Forbidden("Thread is locked".to_string()))
    );
    assert_eq!(bad(check_reply_request(None, false, None, 10)), "message is required");
    assert_eq!(
        bad(check_reply_request(None, false, Some("abcdefghijk"), 10)),
        "Message too long (max 10 characters)"
    );
    assert_eq!(check_reply_request(None, false, Some(""), 10), Ok(()));
}

#[test]
fn duplicates_name_the_holder() {
    assert_eq!(check_duplicate_content(None, false), Ok(()));
    assert_eq!(
        check_duplicate_content(Some(42), false),
        Err(AppError::Conflict("This message has already been posted (post #42)".to_string()))
    );
    assert_eq!(
        check_duplicate_content(Some(7), true),
        Err(AppError::Conflict("This image has already been posted (post #7)".to_string()))
    );
}

#[test]
fn bump_rule_at_ceiling() {
    assert!(should_bump(false, 0, 300));
    assert!(should_bump(false, 299, 300));
    assert!(!should_bump(false, 300, 300));
    assert!(!should_bump(true, 300, 300));
    assert!(!should_bump(true, 5, 300));
    assert!(!should_bump(false, 500, 300));
}

fn quota(posts_today: i32, reset_at: i64) -> AgentQuota {
    AgentQuota {
        agent_id: "a".to_string(),
        posts_today,
        posts_limit: 1000,
        bytes_today: 77,
        bytes_limit: 104857600,
        reset_at,
    }
}

#[test]
fn quota_resets_once() {
    let mut q = quota(1000, 5_000);
    assert_eq!(q.check(4_999), Err(AppError::RateLimited));
    assert_eq!(q.posts_today, 1000);
    assert_eq!(q.check(5_000), Ok(()));
    assert_eq!((q.posts_today, q.bytes_today, q.reset_at), (0, 0, 5_000 + 86_400));
    q.consume(10);
    assert_eq!(q.check(5_001), Ok(()));
    assert_eq!((q.posts_today, q.bytes_today, q.reset_at), (1, 10, 5_000 + 86_400));
}

#[test]
fn quota_consume_saturates() {
    let mut q = quota(i32::MAX, 10);
    q.bytes_today = i64::MAX - 1;
    q.consume(5);
    assert_eq!(q.posts_today, i32::MAX);
    assert_eq!(q.bytes_today, i64::MAX);
}

#[test]
fn events_of_a_reply() {
    let mentions = vec!["bob".to_string(), "carol".to_string()];
    let events = post_events(3, "tech", 10, 11, "alice", true, &mentions);
    assert_eq!(events.len(), 4);
    match &events[0] {
        SseEvent::NewPost { board_id, board_dir, thread_id, post_id, agent_id } => {
            assert_eq!((*board_id, board_dir.as_str(), *thread_id, *post_id, agent_id.as_str()), (3, "tech", 10, 11, "alice"));
        }
        other => panic!("{:?}", other),
    }
    assert!(matches!(events[1], SseEvent::ThreadBump { board_id: 3, thread_id: 10 }));
    match &events[3] {
        SseEvent::Mention { agent_id, by_agent, post_id, .. } => {
            assert_eq!((agent_id.as_str(), by_agent.as_str(), *post_id), ("carol", "alice", 11));
        }
        other => panic!("{:?}", other),
    }
    let quiet = post_events(3, "tech", 10, 11, "alice", false, &vec![]);
    assert_eq!(quiet.len(), 1);
}

#[test]
fn feed_steps() {
    assert!(matches!(next_feed_action(FeedInput::Idle), FeedAction::Deliver(SseEvent::Ping)));
    assert!(matches!(next_feed_action(FeedInput::Lagged(4)), FeedAction::Gap(4)));
    assert!(matches!(next_feed_action(FeedInput::Closed), FeedAction::Stop));
    assert!(matches!(
        next_feed_action(FeedInput::Event(SseEvent::ThreadBump { board_id: 1, thread_id: 2 })),
        FeedAction::Deliver(SseEvent::ThreadBump { board_id: 1, thread_id: 2 })
    ));
}

#[test]
fn decimal_text() {
    assert_eq!(decimal(0), "0");
    assert_eq!(decimal(1234567890), "1234567890");
    assert_eq!(signed_decimal(-45), "-45");
    assert_eq!(signed_decimal(i64::MIN), "-9223372036854775808");
}

#[test]
fn error_response_parts() {
    let e = AppError::Conflict("dup".to_string());
    assert_eq!((e.status(), e.code(), e.public_message()), (409, "conflict", "dup".to_string()));
    let e = AppError::Database("connection reset".to_string());
    assert_eq!((e.status(), e.code(), e.public_message()), (500, "database_error", "Database error".to_string()));
    let e = AppError::RateLimited;
    assert_eq!((e.status(), e.code(), e.public_message()), (429, "rate_limited", "Rate limit exceeded".to_string()));
    assert_eq!(AppError::NotFound("x".into()).status(), 404);
    assert_eq!(AppError::Unauthorized("x".into()).code(), "unauthorized");
    assert_eq!(AppError::Internal("boom".into()).public_message(), "Internal server error");
}

fn png(width: u32, height: u32, seed: u8) -> Vec<u8> {
    let img = image::DynamicImage::ImageRgb8(image::RgbImage::from_fn(width, height, |x, y| {
        image::Rgb([x as u8 ^ seed, y as u8, seed])
    }));
    let mut out = std::io::Cursor::new(Vec::new());
    img.write_to(&mut out, image::ImageFormat::Png).unwrap();
    out.into_inner()
}

#[test]
fn end_to_end_thread_sage_reply_and_duplicate() {
    // agent A, with a fresh quota, opens a thread with a PNG
    let mut quota_a = quota(0, 1_000_000);
    assert_eq!(quota_a.check(10), Ok(()));
    let image = png(64, 32, 1);
    let screened = screen_upload(&image, &UploadConfig::default()).unwrap();
    assert_eq!(check_thread_request(Some("first post"), true, 2000), Ok(()));
    assert_eq!(check_duplicate_content(None, false), Ok(()));
    assert_eq!(check_duplicate_content(None, true), Ok(()));
    quota_a.consume("first post".len() as i64);
    assert_eq!(quota_a.posts_today, 1);
    assert_eq!(screened.thumb_width, 64);
    // agent B replies with sage to the thread sitting at its bump ceiling
    assert_eq!(check_reply_request(None, false, Some("sage reply"), 2000), Ok(()));
    assert!(!should_bump(true, 300, 300));
    let events = post_events(1, "b", 1, 2, "agent-b", false, &vec![]);
    assert_eq!(events.len(), 1);
    // the same text again, on another thread, conflicts with B's post
    assert_eq!(
        check_duplicate_content(Some(2), false),
        Err(AppError::Conflict("This message has already been posted (post #2)".to_string()))
    );
}
