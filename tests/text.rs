use orlhf::config::{default_cors_origins, default_host, default_max_file_size, default_port, default_thumb_size};
use orlhf::error::AppError;
use orlhf::models::{registration_conflict, anonymous_author, capped_limit, default_limit, excess_threads, page_window};
use orlhf::render::{escape_html, render_code_blocks, render_message, render_spoilers};
use orlhf::text::{extract_mentions, validate_agent_id};

#[test]
fn mentions_are_distinct_and_ordered() {
    assert_eq!(
        extract_mentions("hi @alice and @bob-1! @alice @ @Carol x@dave"),
        vec!["alice".to_string(), "bob-1".to_string()]
    );
    assert_eq!(extract_mentions("@a_b\n@c"), vec!["a_b".to_string(), "c".to_string()]);
    assert!(extract_mentions("").is_empty());
}

#[test]
fn agent_ids() {
    assert_eq!(validate_agent_id(""), Err("Agent ID cannot be empty"));
    assert_eq!(validate_agent_id(&"a".repeat(65)), Err("Agent ID must be 64 characters or less"));
    assert_eq!(validate_agent_id(&"a".repeat(64)), Ok(()));
    assert_eq!(
        validate_agent_id("Bad"),
        Err("Agent ID must contain only lowercase letters, numbers, hyphens, and underscores")
    );
    assert_eq!(validate_agent_id("poster-main_2"), Ok(()));
}

#[test]
fn html_escaping() {
    assert_eq!(escape_html("<a href='x'>&\"</a>"), "&lt;a href=&#39;x&#39;&gt;&amp;&quot;&lt;/a&gt;");
    assert_eq!(escape_html("plain"), "plain");
}

#[test]
fn tagged_blocks() {
    assert_eq!(render_code_blocks("a[code]<b>[/code]c"), "a<pre><code>&lt;b&gt;</code></pre>c");
    assert_eq!(render_code_blocks("a[code]open"), "a[code]open");
    assert_eq!(render_spoilers("x[spoiler]s<[/spoiler]y"), "x<span class=\"spoiler\">s&lt;</span>y");
}

#[test]
fn message_rendering() {
    assert_eq!(
        render_message(">>12 see", "tech"),
        "<a href=\"/tech/thread/12#p12\" class=\"ref\">&gt;&gt;12</a> see"
    );
    assert_eq!(render_message(">green\nnext", "b"), "<span class=\"quote\">&gt;green</span><br>next");
    assert_eq!(
        render_message("@bob, hi", "b"),
        "<a href=\"/api/v1/agents/bob\" class=\"mention\">@bob</a>, hi"
    );
    assert_eq!(
        render_message(">>>/tech/ https://x.io/?a=1&b", "b"),
        "<a href=\"/api/v1/boards/tech/catalog\" class=\"ref\">&gt;&gt;&gt;/tech/</a> <a href=\"https://x.io/?a=1&amp;b\" rel=\"nofollow noopener\" target=\"_blank\">https://x.io/?a=1&amp;b</a>"
    );
    assert_eq!(render_message("a  b\r\nc", "b"), "a b<br>c");
    assert_eq!(
        render_message("[code]x<y\nz[/code]", "b"),
        "<pre><code>x&lt;y<br>z</code></pre>"
    );
    assert_eq!(render_message("[spoiler]<i>[/spoiler]", "b"), "<span class=\"spoiler\">&amp;lt;i&amp;gt;</span>");
    assert_eq!(render_message(">>+7", "b"), "<a href=\"/b/thread/7#p7\" class=\"ref\">&gt;&gt;7</a>");
    assert_eq!(render_message(">>99999999999999999999", "b"), "&gt;&gt;99999999999999999999");
}

#[test]
fn defaults() {
    assert_eq!(default_host(), "0.0.0.0");
    assert_eq!(default_port(), 8080);
    assert_eq!(default_cors_origins(), "*");
    assert_eq!(default_max_file_size(), 4 * 1024 * 1024);
    assert_eq!(default_thumb_size(), 250);
    assert_eq!(default_limit(), 50);
    assert_eq!(capped_limit(500), 100);
    assert_eq!(capped_limit(20), 20);
}

#[test]
fn paging() {
    let w = page_window(2, 10, 35);
    assert_eq!((w.page, w.offset, w.total_pages), (2, 20, 4));
    let w = page_window(-3, 10, 0);
    assert_eq!((w.page, w.offset, w.total_pages), (0, 0, 1));
    assert_eq!(page_window(0, 10, 40).total_pages, 4);
    assert_eq!(excess_threads(205, 200), 5);
    assert_eq!(excess_threads(10, 200), 0);
    let author = anonymous_author(None, Some("m".to_string()));
    assert_eq!(author.name, "Anonymous");
}

#[test]
fn registration_conflicts() {
    assert_eq!(
        registration_conflict(Some("agents_pkey"), "bot"),
        Some(AppError::Conflict("Agent 'bot' already exists".to_string()))
    );
    assert_eq!(
        registration_conflict(Some("idx_agents_pairing_code"), "bot"),
        Some(AppError::Conflict("Pairing code collision - please try again".to_string()))
    );
    assert_eq!(registration_conflict(Some("other"), "bot"), None);
    assert_eq!(registration_conflict(None, "bot"), None);
}

#[test]
fn code_lines_keep_only_their_own_tags() {
    assert_eq!(render_message("<pre><code><i>", "b"), "<pre><code>&lt;i&gt;");
    assert_eq!(
        render_message("x </code></pre><script>", "b"),
        "x </code></pre>&lt;script&gt;"
    );
    assert_eq!(
        render_message("<pre><code onclick=x>", "b"),
        "&lt;pre&gt;&lt;code onclick=x&gt;"
    );
    assert_eq!(
        render_message("[code]a & <b>[/code]", "b"),
        "<pre><code>a &amp; &lt;b&gt;</code></pre>"
    );
}
