//! Rendering of message text into HTML: escaping, tagged blocks, and the
//! per-line markup of references, mentions and links.

use vstd::prelude::*;
use vstd::string::StringExecFns;
use crate::text::{chars_of, push_char, id_run, is_id_char, is_white, is_whitespace};
use crate::error::{decimal_of, digit_char, signed_decimal, signed_decimal_of};
use crate::text::starts_with;

verus! {

/// HTML form of one character.
pub open spec fn escape_char(c: char) -> Seq<char> {
    if c == '&' {
        "&amp;"@
    } else if c == '<' {
        "&lt;"@
    } else if c == '>' {
        "&gt;"@
    } else if c == '"' {
        "&quot;"@
    } else if c == '\'' {
        "&#39;"@
    } else {
        seq![c]
    }
}

/// `s` with the five HTML-special characters replaced by entities.
pub open spec fn escaped(s: Seq<char>) -> Seq<char>
    decreases s.len(),
{
    if s.len() == 0 {
        Seq::empty()
    } else {
        escaped(s.drop_last()) + escape_char(s.last())
    }
}

fn escape_chars_into(out: &mut String, cs: &Vec<char>, from: usize, to: usize)
    requires
        from <= to <= cs@.len(),
    ensures
        final(out)@ == old(out)@ + escaped(cs@.subrange(from as int, to as int)),
{
    let mut i: usize = from;
    while i < to
        invariant
            from <= i <= to <= cs@.len(),
            out@ == old(out)@ + escaped(cs@.subrange(from as int, i as int)),
        decreases to - i,
    {
        let c = cs[i];
        let ghost before = out@;
        if c == '&' {
            out.append("&amp;");
        } else if c == '<' {
            out.append("&lt;");
        } else if c == '>' {
            out.append("&gt;");
        } else if c == '"' {
            out.append("&quot;");
        } else if c == '\'' {
            out.append("&#39;");
        } else {
            push_char(out, c);
        }
        proof {
            assert(cs@.subrange(from as int, i + 1).drop_last() =~= cs@.subrange(from as int, i as int));
            assert(out@ =~= before + escape_char(c));
        }
        i += 1;
    }
}

/// Escapes the HTML-special characters of `s`.
pub fn escape_html(s: &str) -> (r: String)
    ensures
        r@ == escaped(s@),
{
    let cs = chars_of(s);
    let mut out = String::new();
    escape_chars_into(&mut out, &cs, 0, cs.len());
    proof {
        assert(cs@.subrange(0, cs@.len() as int) =~= s@);
    }
    out
}

/// Index of the first occurrence of `p` in `s`.
pub open spec fn find(s: Seq<char>, p: Seq<char>) -> Option<int>
    decreases s.len(),
{
    if s.len() < p.len() {
        None
    } else if s.take(p.len() as int) == p {
        Some(0)
    } else if s.len() == 0 {
        None
    } else {
        match find(s.drop_first(), p) {
            Some(i) => Some(i + 1),
            None => None,
        }
    }
}

proof fn lemma_find_bounds(s: Seq<char>, p: Seq<char>)
    ensures
        find(s, p) matches Some(i) ==> 0 <= i && i + p.len() <= s.len() && s.subrange(
            i,
            i + p.len(),
        ) == p,
    decreases s.len(),
{
    if s.len() >= p.len() && s.take(p.len() as int) != p && s.len() > 0 {
        lemma_find_bounds(s.drop_first(), p);
        if let Some(i) = find(s.drop_first(), p) {
            assert(s.subrange(i + 1, i + 1 + p.len()) =~= s.drop_first().subrange(i, i + p.len()));
        }
    } else if s.len() >= p.len() && s.take(p.len() as int) == p {
        assert(s.subrange(0, p.len() as int) =~= s.take(p.len() as int));
    }
}

/// `s` with each block between `open` and the next `close` replaced by
/// `pre`, the escaped block, and `post`; an `open` without a `close` stays.
pub open spec fn tagged(
    s: Seq<char>,
    open: Seq<char>,
    close: Seq<char>,
    pre: Seq<char>,
    post: Seq<char>,
) -> Seq<char>
    decreases s.len(),
{
    match find(s, open) {
        None => s,
        Some(i) => if 0 <= i && i + open.len() <= s.len() && open.len() > 0 {
            let after = s.skip(i + open.len());
            match find(after, close) {
                Some(j) => if 0 <= j && j + close.len() <= after.len() {
                    s.take(i) + pre + escaped(after.take(j)) + post + tagged(
                        after.skip(j + close.len()),
                        open,
                        close,
                        pre,
                        post,
                    )
                } else {
                    s
                },
                None => s.take(i) + open + tagged(after, open, close, pre, post),
            }
        } else {
            s
        },
    }
}

fn matches_at(cs: &Vec<char>, at: usize, p: &Vec<char>) -> (r: bool)
    requires
        at + p@.len() <= cs@.len(),
    ensures
        r == (cs@.skip(at as int).take(p@.len() as int) == p@),
{
    let n = cs.len();
    let mut k: usize = 0;
    while k < p.len()
        invariant
            n == cs@.len(),
            at + p@.len() <= cs@.len(),
            0 <= k <= p@.len(),
            forall|m: int| 0 <= m < k ==> cs@[at + m] == p@[m],
        decreases p.len() - k,
    {
        if cs[at + k] != p[k] {
            proof {
                assert(cs@.skip(at as int).take(p@.len() as int)[k as int] == cs@[at + k]);
            }
            return false;
        }
        k += 1;
    }
    proof {
        assert(cs@.skip(at as int).take(p@.len() as int) =~= p@);
    }
    true
}

/// First occurrence of `p` in `cs` at or after `from`.
fn find_from(cs: &Vec<char>, from: usize, p: &Vec<char>) -> (r: Option<usize>)
    requires
        from <= cs@.len(),
    ensures
        match find(cs@.skip(from as int), p@) {
            Some(i) => r == Some((i + from) as usize),
            None => r is None,
        },
{
    let n = cs.len();
    let mut i: usize = from;
    while p.len() <= n - i
        invariant
            n == cs@.len(),
            from <= i <= cs@.len(),
            match find(cs@.skip(from as int), p@) {
                Some(k) => match find(cs@.skip(i as int), p@) {
                    Some(k2) => k == k2 + (i - from),
                    None => false,
                },
                None => find(cs@.skip(i as int), p@) is None,
            },
        decreases cs.len() - i,
    {
        if matches_at(cs, i, p) {
            return Some(i);
        }
        proof {
            if p@.len() == 0 {
                assert(cs@.skip(i as int).take(0) =~= p@);
            }
            assert(i < n);
            assert(cs@.skip(i as int).drop_first() =~= cs@.skip(i + 1));
        }
        i += 1;
    }
    None
}

/// Renders every `open`…`close` block of `s`.
#[verifier::rlimit(60)]
fn render_tagged(s: &str, open: &str, close: &str, pre: &str, post: &str) -> (r: String)
    requires
        open@.len() > 0,
    ensures
        r@ == tagged(s@, open@, close@, pre@, post@),
{
    let cs = chars_of(s);
    let o = chars_of(open);
    let c = chars_of(close);
    let mut out = String::new();
    let mut pos: usize = 0;
    let n = cs.len();
    proof {
        assert(cs@.skip(0) =~= s@);
        assert(out@ + tagged(s@, open@, close@, pre@, post@) =~= tagged(s@, open@, close@, pre@, post@));
    }
    loop
        invariant
            n == cs@.len(),
            cs@ == s@,
            o@ == open@,
            c@ == close@,
            o@.len() > 0,
            0 <= pos <= cs@.len(),
            out@ + tagged(cs@.skip(pos as int), open@, close@, pre@, post@) == tagged(
                s@,
                open@,
                close@,
                pre@,
                post@,
            ),
        decreases cs@.len() - pos,
    {
        let ghost rest = cs@.skip(pos as int);
        let ghost whole = tagged(s@, open@, close@, pre@, post@);
        proof {
            lemma_find_bounds(rest, open@);
        }
        match find_from(&cs, pos, &o) {
            None => {
                proof {
                    assert(tagged(rest, open@, close@, pre@, post@) == rest);
                }
                escape_free_append(&mut out, &cs, pos, n);
                proof {
                    assert(cs@.subrange(pos as int, cs@.len() as int) =~= rest);
                }
                return out;
            },
            Some(i) => {
                let ghost k = i - pos;
                proof {
                    assert(find(rest, open@) == Some(k));
                    assert(k + open@.len() <= rest.len());
                }
                let after = i + o.len();
                let ghost rest_after = rest.skip(k + open@.len());
                proof {
                    assert(rest_after =~= cs@.skip(after as int));
                    lemma_find_bounds(rest_after, close@);
                }
                let ghost out0 = out@;
                escape_free_append(&mut out, &cs, pos, i);
                proof {
                    assert(cs@.subrange(pos as int, i as int) =~= rest.take(k));
                }
                match find_from(&cs, after, &c) {
                    Some(j) => {
                        let ghost m = j - after;
                        proof {
                            assert(find(rest_after, close@) == Some(m));
                            assert(tagged(rest, open@, close@, pre@, post@) == rest.take(k) + pre@
                                + escaped(rest_after.take(m)) + post@ + tagged(
                                rest_after.skip(m + close@.len()),
                                open@,
                                close@,
                                pre@,
                                post@,
                            ));
                        }
                        out.append(pre);
                        escape_chars_into(&mut out, &cs, after, j);
                        out.append(post);
                        proof {
                            assert(cs@.subrange(after as int, j as int) =~= rest_after.take(m));
                            assert(rest_after.skip(m + close@.len()) =~= cs@.skip(j + close@.len()));
                        }
                        pos = j + c.len();
                        proof {
                            let t = tagged(cs@.skip(pos as int), open@, close@, pre@, post@);
                            assert(out@ + t =~= out0 + (rest.take(k) + pre@ + escaped(
                                rest_after.take(m),
                            ) + post@ + t));
                        }
                    },
                    None => {
                        proof {
                            assert(find(rest_after, close@) is None);
                            assert(tagged(rest, open@, close@, pre@, post@) == rest.take(k) + open@
                                + tagged(rest_after, open@, close@, pre@, post@));
                        }
                        out.append(open);
                        pos = after;
                        proof {
                            let t = tagged(cs@.skip(pos as int), open@, close@, pre@, post@);
                            assert(out@ + t =~= out0 + (rest.take(k) + open@ + t));
                        }
                    },
                }
            },
        }
    }
}

/// Appends `cs[from..to]` as it is.
fn escape_free_append(out: &mut String, cs: &Vec<char>, from: usize, to: usize)
    requires
        from <= to <= cs@.len(),
    ensures
        final(out)@ == old(out)@ + cs@.subrange(from as int, to as int),
{
    let mut i: usize = from;
    while i < to
        invariant
            from <= i <= to <= cs@.len(),
            out@ == old(out)@ + cs@.subrange(from as int, i as int),
        decreases to - i,
    {
        push_char(out, cs[i]);
        proof {
            assert(cs@.subrange(from as int, i + 1) =~= cs@.subrange(from as int, i as int).push(cs@[i as int]));
        }
        i += 1;
    }
}

/// `[code]`…`[/code]` blocks become escaped preformatted code.
pub fn render_code_blocks(message: &str) -> (r: String)
    ensures
        r@ == tagged(message@, "[code]"@, "[/code]"@, "<pre><code>"@, "</code></pre>"@),
{
    proof {
        reveal_strlit("[code]");
    }
    render_tagged(message, "[code]", "[/code]", "<pre><code>", "</code></pre>")
}

/// `[spoiler]`…`[/spoiler]` blocks become escaped spoiler spans.
pub fn render_spoilers(message: &str) -> (r: String)
    ensures
        r@ == tagged(
            message@,
            "[spoiler]"@,
            "[/spoiler]"@,
            "<span class=\"spoiler\">"@,
            "</span>"@,
        ),
{
    proof {
        reveal_strlit("[spoiler]");
    }
    render_tagged(message, "[spoiler]", "[/spoiler]", "<span class=\"spoiler\">", "</span>")
}

/// Value of a string of decimal digits.
pub open spec fn digits_value(d: Seq<char>) -> int
    decreases d.len(),
{
    if d.len() == 0 {
        0
    } else {
        10 * digits_value(d.drop_last()) + (d.last() as int - '0' as int)
    }
}

pub open spec fn all_digits(d: Seq<char>) -> bool {
    forall|k: int| 0 <= k < d.len() ==> '0' <= #[trigger] d[k] <= '9'
}

/// The integer `s` denotes as `i64`'s `from_str` reads it: an optional sign,
/// then one digit or more, within range.
pub open spec fn parse_i64(s: Seq<char>) -> Option<int> {
    let neg = s.len() > 0 && s[0] == '-';
    let d = if s.len() > 0 && (s[0] == '-' || s[0] == '+') {
        s.skip(1)
    } else {
        s
    };
    if d.len() == 0 || !all_digits(d) {
        None
    } else {
        let v = if neg {
            -digits_value(d)
        } else {
            digits_value(d)
        };
        if i64::MIN <= v <= i64::MAX {
            Some(v)
        } else {
            None
        }
    }
}

/// Cap used while reading digits: past it the value is out of range anyway.
pub const DIGITS_CAP: u128 = 0x1_0000_0000_0000_0000;

fn parse_i64_chars(w: &Vec<char>, from: usize) -> (r: Option<i64>)
    requires
        from <= w@.len(),
    ensures
        match parse_i64(w@.skip(from as int)) {
            Some(v) => r == Some(v as i64),
            None => r is None,
        },
{
    let ghost s = w@.skip(from as int);
    let n = w.len();
    let mut i: usize = from;
    let mut neg = false;
    if i < n && (w[i] == '-' || w[i] == '+') {
        neg = w[i] == '-';
        i += 1;
    }
    let ghost d = w@.skip(i as int);
    proof {
        if s.len() > 0 && (s[0] == '-' || s[0] == '+') {
            assert(s.skip(1) =~= d);
        } else {
            assert(s =~= d);
        }
    }
    if i == n {
        return None;
    }
    proof {
        assert(neg == (s.len() > 0 && s[0] == '-'));
    }
    let start = i;
    let mut acc: u128 = 0;
    while i < n
        invariant
            n == w@.len(),
            start <= i <= n,
            d == w@.skip(start as int),
            d.len() > 0,
            s == w@.skip(from as int),
            neg == (s.len() > 0 && s[0] == '-'),
            s.len() > 0 && (s[0] == '-' || s[0] == '+') ==> s.skip(1) == d,
            !(s.len() > 0 && (s[0] == '-' || s[0] == '+')) ==> s == d,
            forall|k: int| start <= k < i ==> '0' <= #[trigger] w@[k] <= '9',
            acc as int == if digits_value(w@.subrange(start as int, i as int)) < DIGITS_CAP as int {
                digits_value(w@.subrange(start as int, i as int))
            } else {
                DIGITS_CAP as int
            },
            acc <= DIGITS_CAP,
        decreases n - i,
    {
        let c = w[i];
        if !('0' <= c && c <= '9') {
            proof {
                assert(d[i - start] == c);
            }
            return None;
        }
        let digit = (c as u32 - '0' as u32) as u128;
        let ghost prev = w@.subrange(start as int, i as int);
        proof {
            assert(w@.subrange(start as int, i + 1).drop_last() =~= prev);
            assert(digits_value(w@.subrange(start as int, i + 1)) == 10 * digits_value(prev) + digit);
            assert(digits_value(prev) >= 0) by {
                lemma_digits_nonneg(prev);
            }
        }
        let next = acc * 10 + digit;
        acc = if next < DIGITS_CAP { next } else { DIGITS_CAP };
        i += 1;
    }
    proof {
        assert(w@.subrange(start as int, n as int) =~= d);
        assert(all_digits(d));
    }
    if neg {
        if acc <= 0x8000_0000_0000_0000 {
            Some((0 - (acc as i128)) as i64)
        } else {
            None
        }
    } else {
        if acc <= 0x7FFF_FFFF_FFFF_FFFF {
            Some(acc as i64)
        } else {
            None
        }
    }
}

proof fn lemma_digits_nonneg(d: Seq<char>)
    requires
        all_digits(d),
    ensures
        digits_value(d) >= 0,
    decreases d.len(),
{
    if d.len() > 0 {
        lemma_digits_nonneg(d.drop_last());
    }
}

/// Index of the first `c` in `s`, or its length.
pub open spec fn char_index(s: Seq<char>, c: char) -> int
    decreases s.len(),
{
    if s.len() == 0 {
        0
    } else if s[0] == c {
        0
    } else {
        1 + char_index(s.drop_first(), c)
    }
}

proof fn lemma_char_index(s: Seq<char>, c: char, k: int)
    requires
        0 <= k <= s.len(),
        forall|m: int| 0 <= m < k ==> s[m] != c,
        k == s.len() || s[k] == c,
    ensures
        char_index(s, c) == k,
    decreases s.len(),
{
    if s.len() > 0 && s[0] != c {
        lemma_char_index(s.drop_first(), c, k - 1);
    }
}

/// First index at or after `from` holding `c`, or the length.
fn index_of(cs: &Vec<char>, from: usize, c: char) -> (r: usize)
    requires
        from <= cs@.len(),
    ensures
        from <= r <= cs@.len(),
        r - from == char_index(cs@.skip(from as int), c),
{
    let mut k: usize = from;
    while k < cs.len() && cs[k] != c
        invariant
            from <= k <= cs@.len(),
            forall|m: int| from <= m < k ==> cs@[m] != c,
        decreases cs.len() - k,
    {
        k += 1;
    }
    proof {
        lemma_char_index(cs@.skip(from as int), c, k - from);
    }
    k
}

fn has_prefix(w: &Vec<char>, lit: &str) -> (r: bool)
    ensures
        r == starts_with(w@, lit@),
{
    let p = chars_of(lit);
    if p.len() > w.len() {
        return false;
    }
    let r = matches_at(w, 0, &p);
    proof {
        assert(w@.skip(0) =~= w@);
    }
    r
}

/// HTML of one word: a post reference, a board reference, a mention, a
/// link, or escaped text.
pub open spec fn word_html(w: Seq<char>, dir: Seq<char>) -> Seq<char> {
    if starts_with(w, ">>"@) && parse_i64(w.skip(2)) is Some {
        let d = signed_decimal_of(parse_i64(w.skip(2))->0);
        "<a href=\"/"@ + dir + "/thread/"@ + d + "#p"@ + d + "\" class=\"ref\">&gt;&gt;"@ + d
            + "</a>"@
    } else if starts_with(w, ">>>/"@) && char_index(w.skip(4), '/') > 0 {
        let b = escaped(w.skip(4).take(char_index(w.skip(4), '/')));
        "<a href=\"/api/v1/boards/"@ + b + "/catalog\" class=\"ref\">&gt;&gt;&gt;/"@ + b + "/</a>"@
    } else if starts_with(w, "@"@) && id_run(w, 1) > 0 {
        let id = w.subrange(1, 1 + id_run(w, 1));
        "<a href=\"/api/v1/agents/"@ + id + "\" class=\"mention\">@"@ + id + "</a>"@ + escaped(
            w.skip(1 + id_run(w, 1)),
        )
    } else if starts_with(w, "http://"@) || starts_with(w, "https://"@) {
        "<a href=\""@ + escaped(w) + "\" rel=\"nofollow noopener\" target=\"_blank\">"@ + escaped(w)
            + "</a>"@
    } else {
        escaped(w)
    }
}

fn render_word(out: &mut String, w: &Vec<char>, dir: &str)
    ensures
        final(out)@ == old(out)@ + word_html(w@, dir@),
{
    proof {
        reveal_strlit(">>");
        reveal_strlit(">>>/");
        reveal_strlit("@");
    }
    let n = w.len();
    if has_prefix(w, ">>") {
        if let Some(num) = parse_i64_chars(w, 2) {
            let d = signed_decimal(num);
            out.append("<a href=\"/");
            out.append(dir);
            out.append("/thread/");
            out.append(d.as_str());
            out.append("#p");
            out.append(d.as_str());
            out.append("\" class=\"ref\">&gt;&gt;");
            out.append(d.as_str());
            out.append("</a>");
            return;
        }
    }
    if has_prefix(w, ">>>/") {
        proof {
            assert(starts_with(w@, ">>"@)) by {
                assert(w@.take(4) == ">>>/"@);
                assert(">>>/"@[0] == '>' && ">>>/"@[1] == '>');
                assert(w@[0] == w@.take(4)[0]);
                assert(w@[1] == w@.take(4)[1]);
                assert(w@.take(2) =~= ">>"@);
            }
        }
        let k = index_of(w, 4, '/');
        if k > 4 {
            out.append("<a href=\"/api/v1/boards/");
            escape_chars_into(out, w, 4, k);
            out.append("/catalog\" class=\"ref\">&gt;&gt;&gt;/");
            escape_chars_into(out, w, 4, k);
            out.append("/</a>");
            proof {
                assert(w@.subrange(4, k as int) =~= w@.skip(4).take(char_index(w@.skip(4), '/')));
            }
            return;
        }
    }
    if has_prefix(w, "@") {
        let mut j: usize = 1;
        while j < n && crate::text::id_char(w[j])
            invariant
                n == w@.len(),
                1 <= j <= n,
                forall|k: int| 1 <= k < j ==> is_id_char(w@[k]),
            decreases n - j,
        {
            j += 1;
        }
        proof {
            crate::text::lemma_id_run(w@, 1, j as int);
        }
        if j > 1 {
            proof {
                if starts_with(w@, ">>"@) {
                    assert(w@.take(2)[0] == w@.take(1)[0]);
                }
                if starts_with(w@, ">>>/"@) {
                    assert(w@.take(4)[0] == w@.take(1)[0]);
                }
            }
            out.append("<a href=\"/api/v1/agents/");
            escape_free_append(out, w, 1, j);
            out.append("\" class=\"mention\">@");
            escape_free_append(out, w, 1, j);
            out.append("</a>");
            escape_chars_into(out, w, j, n);
            proof {
                assert(w@.subrange(j as int, n as int) =~= w@.skip(j as int));
            }
            return;
        }
    }
    if has_prefix(w, "http://") || has_prefix(w, "https://") {
        out.append("<a href=\"");
        escape_chars_into(out, w, 0, n);
        out.append("\" rel=\"nofollow noopener\" target=\"_blank\">");
        escape_chars_into(out, w, 0, n);
        out.append("</a>");
        proof {
            assert(w@.subrange(0, n as int) =~= w@);
        }
        return;
    }
    escape_chars_into(out, w, 0, n);
    proof {
        assert(w@.subrange(0, n as int) =~= w@);
    }
}

/// HTML form of one character in a code line: the tag characters and
/// quotes become entities; `&` stays, so entities already written stay.
pub open spec fn escape_tag_char(c: char) -> Seq<char> {
    if c == '<' {
        "&lt;"@
    } else if c == '>' {
        "&gt;"@
    } else if c == '"' {
        "&quot;"@
    } else if c == '\'' {
        "&#39;"@
    } else {
        seq![c]
    }
}

/// A code line as shown: the exact code-block tags `<pre><code>` and
/// `</code></pre>` stay, every other tag character is escaped.
pub open spec fn escape_marked(s: Seq<char>) -> Seq<char>
    decreases s.len(),
{
    if s.len() == 0 {
        s
    } else if "<pre><code>"@.len() > 0 && starts_with(s, "<pre><code>"@) {
        "<pre><code>"@ + escape_marked(s.skip("<pre><code>"@.len() as int))
    } else if "</code></pre>"@.len() > 0 && starts_with(s, "</code></pre>"@) {
        "</code></pre>"@ + escape_marked(s.skip("</code></pre>"@.len() as int))
    } else {
        escape_tag_char(s[0]) + escape_marked(s.drop_first())
    }
}

fn escape_marked_into(out: &mut String, line: &Vec<char>)
    ensures
        final(out)@ == old(out)@ + escape_marked(line@),
{
    let open = chars_of("<pre><code>");
    let close = chars_of("</code></pre>");
    proof {
        reveal_strlit("<pre><code>");
        reveal_strlit("</code></pre>");
    }
    let n = line.len();
    let mut i: usize = 0;
    proof {
        assert(line@.skip(0) =~= line@);
        assert(old(out)@ + escape_marked(line@) =~= out@ + escape_marked(line@.skip(0)));
    }
    while i < n
        invariant
            n == line@.len(),
            0 <= i <= n,
            open@ == "<pre><code>"@,
            close@ == "</code></pre>"@,
            open@.len() == 11,
            close@.len() == 13,
            out@ + escape_marked(line@.skip(i as int)) == old(out)@ + escape_marked(line@),
        decreases n - i,
    {
        let ghost rest = line@.skip(i as int);
        let ghost before = out@;
        if n - i >= 11 && matches_at(line, i, &open) {
            out.append("<pre><code>");
            proof {
                assert(starts_with(rest, "<pre><code>"@));
                assert(rest.skip(11) =~= line@.skip(i + 11));
                assert(out@ + escape_marked(line@.skip(i + 11)) =~= before + escape_marked(rest));
            }
            i = i + 11;
        } else if n - i >= 13 && matches_at(line, i, &close) {
            out.append("</code></pre>");
            proof {
                assert(!starts_with(rest, "<pre><code>"@)) by {
                    if rest.len() >= 11 {
                        assert(rest.take(11)[1] == line@.skip(i as int).take(13)[1]);
                    }
                }
                assert(starts_with(rest, "</code></pre>"@));
                assert(rest.skip(13) =~= line@.skip(i + 13));
                assert(out@ + escape_marked(line@.skip(i + 13)) =~= before + escape_marked(rest));
            }
            i = i + 13;
        } else {
            let c = line[i];
            if c == '<' {
                out.append("&lt;");
            } else if c == '>' {
                out.append("&gt;");
            } else if c == '"' {
                out.append("&quot;");
            } else if c == '\'' {
                out.append("&#39;");
            } else {
                push_char(out, c);
            }
            proof {
                if n - i >= 11 {
                    assert(rest.take(11) =~= line@.skip(i as int).take(11));
                }
                if n - i >= 13 {
                    assert(rest.take(13) =~= line@.skip(i as int).take(13));
                }
                assert(!starts_with(rest, "<pre><code>"@));
                assert(!starts_with(rest, "</code></pre>"@));
                assert(rest[0] == c);
                assert(rest.drop_first() =~= line@.skip(i + 1));
                assert(out@ =~= before + escape_tag_char(c));
                assert(out@ + escape_marked(line@.skip(i + 1)) =~= before + escape_marked(rest));
            }
            i = i + 1;
        }
    }
}

/// Length of the run of non-whitespace characters of `s` from `j`.
pub open spec fn word_run(s: Seq<char>, j: int) -> int
    decreases s.len() - j,
{
    if 0 <= j < s.len() && !is_white(s[j]) {
        1 + word_run(s, j + 1)
    } else {
        0
    }
}

proof fn lemma_word_run(s: Seq<char>, a: int, b: int)
    requires
        0 <= a <= b <= s.len(),
        forall|k: int| a <= k < b ==> !is_white(s[k]),
        b == s.len() || is_white(s[b]),
    ensures
        word_run(s, a) == b - a,
    decreases b - a,
{
    if a < b {
        lemma_word_run(s, a + 1, b);
    }
}

/// The words of `rest`, as `split_whitespace` cuts them, rendered after
/// `acc` and joined by single spaces.
pub open spec fn words_from(rest: Seq<char>, acc: Seq<char>, first: bool, dir: Seq<char>) -> Seq<
    char,
>
    decreases rest.len(),
{
    if rest.len() == 0 {
        acc
    } else if is_white(rest[0]) {
        words_from(rest.drop_first(), acc, first, dir)
    } else {
        let n = word_run(rest, 0);
        if 1 <= n <= rest.len() {
            words_from(
                rest.skip(n),
                acc + (if first {
                    Seq::<char>::empty()
                } else {
                    seq![' ']
                }) + word_html(rest.take(n), dir),
                false,
                dir,
            )
        } else {
            acc
        }
    }
}

fn copy_range(cs: &Vec<char>, from: usize, to: usize) -> (r: Vec<char>)
    requires
        from <= to <= cs@.len(),
    ensures
        r@ == cs@.subrange(from as int, to as int),
{
    let mut v: Vec<char> = Vec::new();
    let mut i: usize = from;
    while i < to
        invariant
            from <= i <= to <= cs@.len(),
            v@ == cs@.subrange(from as int, i as int),
        decreases to - i,
    {
        v.push(cs[i]);
        proof {
            assert(cs@.subrange(from as int, i + 1) =~= cs@.subrange(from as int, i as int).push(cs@[i as int]));
        }
        i += 1;
    }
    v
}

fn render_words(out: &mut String, line: &Vec<char>, dir: &str)
    ensures
        final(out)@ == words_from(line@, old(out)@, true, dir@),
{
    let n = line.len();
    let mut i: usize = 0;
    let mut first = true;
    proof {
        assert(line@.skip(0) =~= line@);
    }
    while i < n
        invariant
            n == line@.len(),
            0 <= i <= n,
            words_from(line@.skip(i as int), out@, first, dir@) == words_from(
                line@,
                old(out)@,
                true,
                dir@,
            ),
        decreases n - i,
    {
        let ghost rest = line@.skip(i as int);
        if is_whitespace(line[i]) {
            proof {
                assert(rest.drop_first() =~= line@.skip(i + 1));
            }
            i += 1;
        } else {
            let mut j: usize = i;
            while j < n && !is_whitespace(line[j])
                invariant
                    n == line@.len(),
                    i <= j <= n,
                    forall|k: int| i <= k < j ==> !is_white(line@[k]),
                decreases n - j,
            {
                j += 1;
            }
            proof {
                lemma_word_run(rest, 0, j - i);
                assert(rest.take(j - i) =~= line@.subrange(i as int, j as int));
                assert(rest.skip(j - i) =~= line@.skip(j as int));
            }
            let word = copy_range(line, i, j);
            let ghost acc = out@;
            if !first {
                push_char(out, ' ');
            }
            render_word(out, &word, dir);
            proof {
                assert(rest[0] == line@[i as int]);
                assert(out@ =~= acc + (if first {
                    Seq::<char>::empty()
                } else {
                    seq![' ']
                }) + word_html(rest.take(j - i), dir@));
            }
            first = false;
            i = j;
        }
    }
}

proof fn lemma_words_shift(
    rest: Seq<char>,
    pre: Seq<char>,
    acc: Seq<char>,
    first: bool,
    dir: Seq<char>,
)
    ensures
        words_from(rest, pre + acc, first, dir) == pre + words_from(rest, acc, first, dir),
    decreases rest.len(),
{
    if rest.len() == 0 {
    } else if is_white(rest[0]) {
        lemma_words_shift(rest.drop_first(), pre, acc, first, dir);
    } else {
        let n = word_run(rest, 0);
        if 1 <= n <= rest.len() {
            let sep = if first {
                Seq::<char>::empty()
            } else {
                seq![' ']
            };
            let w = word_html(rest.take(n), dir);
            lemma_words_shift(rest.skip(n), pre, acc + sep + w, false, dir);
            assert(pre + acc + sep + w =~= pre + (acc + sep + w));
        }
    }
}

pub open spec fn contains(s: Seq<char>, p: Seq<char>) -> bool {
    find(s, p) is Some
}

/// HTML of one line, the code-block state after it, given whether any HTML
/// precedes it and whether it lies inside a code block.
pub open spec fn line_html(line: Seq<char>, html_empty: bool, in_code: bool, dir: Seq<char>) -> (
    Seq<char>,
    bool,
) {
    let opened = if contains(line, "<pre><code"@) {
        true
    } else {
        in_code
    };
    let state = if contains(line, "</code></pre>"@) {
        false
    } else {
        opened
    };
    if state || starts_with(line, "<pre><code"@) || contains(line, "</code></pre>"@) {
        (
            (if !html_empty && !starts_with(line, "<pre><code"@) {
                "<br>"@
            } else {
                Seq::<char>::empty()
            }) + escape_marked(line),
            state,
        )
    } else {
        let br = if !html_empty {
            "<br>"@
        } else {
            Seq::<char>::empty()
        };
        if starts_with(line, ">"@) && !starts_with(line, ">>"@) {
            (br + "<span class=\"quote\">"@ + escaped(line) + "</span>"@, state)
        } else {
            (words_from(line, br, true, dir), state)
        }
    }
}

fn contains_lit(cs: &Vec<char>, lit: &str) -> (r: bool)
    ensures
        r == contains(cs@, lit@),
{
    let p = chars_of(lit);
    let r = find_from(cs, 0, &p);
    proof {
        assert(cs@.skip(0) =~= cs@);
    }
    r.is_some()
}

fn render_line(out: &mut String, line: &Vec<char>, in_code: bool, dir: &str) -> (r: bool)
    ensures
        ({
            let (piece, state) = line_html(line@, old(out)@.len() == 0, in_code, dir@);
            final(out)@ == old(out)@ + piece && r == state
        }),
{
    let html_empty = out.as_str().is_empty();
    let opens = contains_lit(line, "<pre><code");
    let closes = contains_lit(line, "</code></pre>");
    let starts_code = has_prefix(line, "<pre><code");
    let mut state = in_code;
    if opens {
        state = true;
    }
    if closes {
        state = false;
    }
    if state || starts_code || closes {
        if !html_empty && !starts_code {
            out.append("<br>");
        }
        escape_marked_into(out, line);
        return state;
    }
    if !html_empty {
        out.append("<br>");
    }
    if has_prefix(line, ">") && !has_prefix(line, ">>") {
        out.append("<span class=\"quote\">");
        escape_chars_into(out, line, 0, line.len());
        out.append("</span>");
        proof {
            assert(line@.subrange(0, line@.len() as int) =~= line@);
        }
        return state;
    }
    let ghost before = out@;
    render_words(out, line, dir);
    proof {
        let br = if !html_empty {
            "<br>"@
        } else {
            Seq::<char>::empty()
        };
        assert(before == old(out)@ + br);
        lemma_words_shift(line@, old(out)@, br, true, dir@);
    }
    state
}

/// HTML of the lines of `rest` (split at `\n`, a `\r` before it dropped),
/// appended to `html`.
pub open spec fn render_from(rest: Seq<char>, html: Seq<char>, in_code: bool, dir: Seq<char>) -> Seq<
    char,
>
    decreases rest.len(),
{
    if rest.len() == 0 {
        html
    } else {
        let k = char_index(rest, '\n');
        if 0 <= k <= rest.len() {
            let raw = rest.take(k);
            let line = if k < rest.len() && raw.len() > 0 && raw.last() == '\r' {
                raw.drop_last()
            } else {
                raw
            };
            let (piece, state) = line_html(line, html.len() == 0, in_code, dir);
            let next = if k < rest.len() {
                rest.skip(k + 1)
            } else {
                Seq::<char>::empty()
            };
            render_from(next, html + piece, state, dir)
        } else {
            html
        }
    }
}

proof fn lemma_char_index_bound(s: Seq<char>, c: char)
    ensures
        0 <= char_index(s, c) <= s.len(),
        char_index(s, c) < s.len() ==> s[char_index(s, c)] == c,
    decreases s.len(),
{
    if s.len() > 0 && s[0] != c {
        lemma_char_index_bound(s.drop_first(), c);
    }
}

/// Renders a message to HTML: code blocks first, then each line (quotes,
/// post and board references, mentions, links, escaped text), then
/// spoilers.
pub fn render_message(message: &str, board_dir: &str) -> (r: String)
    ensures
        r@ == tagged(
            render_from(
                tagged(message@, "[code]"@, "[/code]"@, "<pre><code>"@, "</code></pre>"@),
                Seq::empty(),
                false,
                board_dir@,
            ),
            "[spoiler]"@,
            "[/spoiler]"@,
            "<span class=\"spoiler\">"@,
            "</span>"@,
        ),
        no_lt(board_dir@) ==> only_own_tags(r@),
{
    let code = render_code_blocks(message);
    let cs = chars_of(code.as_str());
    let n = cs.len();
    let mut html = String::new();
    let mut in_code = false;
    let mut pos: usize = 0;
    proof {
        assert(cs@.skip(0) =~= cs@);
    }
    while pos < n
        invariant
            n == cs@.len(),
            0 <= pos <= n,
            render_from(cs@.skip(pos as int), html@, in_code, board_dir@) == render_from(
                code@,
                Seq::empty(),
                false,
                board_dir@,
            ),
            cs@ == code@,
        decreases n - pos,
    {
        let ghost rest = cs@.skip(pos as int);
        let k = index_of(&cs, pos, '\n');
        proof {
            lemma_char_index_bound(rest, '\n');
        }
        let mut end = k;
        if k < n && k > pos && cs[k - 1] == '\r' {
            end = k - 1;
        }
        let line = copy_range(&cs, pos, end);
        proof {
            let raw = rest.take(k - pos);
            assert(raw =~= cs@.subrange(pos as int, k as int));
            if k < n && k > pos && cs@[k - 1] == '\r' {
                assert(raw.drop_last() =~= line@);
            } else {
                assert(raw =~= line@);
            }
        }
        in_code = render_line(&mut html, &line, in_code, board_dir);
        if k < n {
            proof {
                assert(rest.skip(k - pos + 1) =~= cs@.skip(k + 1));
            }
            pos = k + 1;
        } else {
            pos = n;
            proof {
                assert(cs@.skip(n as int) =~= Seq::<char>::empty());
            }
        }
    }
    proof {
        assert(cs@.skip(pos as int) =~= Seq::<char>::empty());
        if no_lt(board_dir@) {
            lemma_render_from_tags(code@, Seq::empty(), false, board_dir@);
            lemma_spoilers_tags(html@);
        }
    }
    render_spoilers(html.as_str())
}

/// `t` occurs in `s` at index `k`.
pub open spec fn occurs_at(s: Seq<char>, k: int, t: Seq<char>) -> bool {
    0 <= k && k + t.len() <= s.len() && s.subrange(k, k + t.len()) == t
}

/// A tag the renderer writes itself starts at index `k` of `s`.
pub open spec fn own_tag_at(s: Seq<char>, k: int) -> bool {
    occurs_at(s, k, "<a "@) || occurs_at(s, k, "</a>"@) || occurs_at(s, k, "<span "@)
        || occurs_at(s, k, "</span>"@) || occurs_at(s, k, "<br>"@) || occurs_at(s, k, "<pre>"@)
        || occurs_at(s, k, "</pre>"@) || occurs_at(s, k, "<code>"@) || occurs_at(s, k, "</code>"@)
}

/// Every `<` of `s` starts a tag the renderer writes itself: no text of a
/// message reaches the page as markup.
pub open spec fn only_own_tags(s: Seq<char>) -> bool {
    forall|k: int| 0 <= k < s.len() && s[k] == '<' ==> #[trigger] own_tag_at(s, k)
}

pub open spec fn no_lt(s: Seq<char>) -> bool {
    forall|k: int| 0 <= k < s.len() ==> s[k] != '<'
}

proof fn lemma_occurs_concat(a: Seq<char>, b: Seq<char>, k: int, t: Seq<char>)
    ensures
        occurs_at(a, k, t) ==> occurs_at(a + b, k, t),
        occurs_at(b, k, t) ==> occurs_at(a + b, k + a.len(), t),
{
    if occurs_at(a, k, t) {
        assert((a + b).subrange(k, k + t.len()) =~= a.subrange(k, k + t.len()));
    }
    if occurs_at(b, k, t) {
        assert((a + b).subrange(k + a.len(), k + a.len() + t.len()) =~= b.subrange(k, k + t.len()));
    }
}

proof fn lemma_tags_concat(a: Seq<char>, b: Seq<char>)
    requires
        only_own_tags(a),
        only_own_tags(b),
    ensures
        only_own_tags(a + b),
{
    assert forall|k: int| 0 <= k < (a + b).len() && (a + b)[k] == '<' implies #[trigger] own_tag_at(
        a + b,
        k,
    ) by {
        if k < a.len() {
            assert(a[k] == '<');
            assert(own_tag_at(a, k));
            lemma_occurs_concat(a, b, k, "<a "@);
            lemma_occurs_concat(a, b, k, "</a>"@);
            lemma_occurs_concat(a, b, k, "<span "@);
            lemma_occurs_concat(a, b, k, "</span>"@);
            lemma_occurs_concat(a, b, k, "<br>"@);
            lemma_occurs_concat(a, b, k, "<pre>"@);
            lemma_occurs_concat(a, b, k, "</pre>"@);
            lemma_occurs_concat(a, b, k, "<code>"@);
            lemma_occurs_concat(a, b, k, "</code>"@);
        } else {
            let j = k - a.len();
            assert(b[j] == '<');
            assert(own_tag_at(b, j));
            lemma_occurs_concat(a, b, j, "<a "@);
            lemma_occurs_concat(a, b, j, "</a>"@);
            lemma_occurs_concat(a, b, j, "<span "@);
            lemma_occurs_concat(a, b, j, "</span>"@);
            lemma_occurs_concat(a, b, j, "<br>"@);
            lemma_occurs_concat(a, b, j, "<pre>"@);
            lemma_occurs_concat(a, b, j, "</pre>"@);
            lemma_occurs_concat(a, b, j, "<code>"@);
            lemma_occurs_concat(a, b, j, "</code>"@);
        }
    }
}

proof fn lemma_no_lt_tags(s: Seq<char>)
    requires
        no_lt(s),
    ensures
        only_own_tags(s),
{
}

proof fn lemma_escaped_no_lt(s: Seq<char>)
    ensures
        no_lt(escaped(s)),
    decreases s.len(),
{
    reveal_strlit("&amp;");
    reveal_strlit("&lt;");
    reveal_strlit("&gt;");
    reveal_strlit("&quot;");
    reveal_strlit("&#39;");
    if s.len() > 0 {
        lemma_escaped_no_lt(s.drop_last());
        let a = escaped(s.drop_last());
        let b = escape_char(s.last());
        assert(no_lt(b));
        assert forall|k: int| 0 <= k < (a + b).len() implies (a + b)[k] != '<' by {
            if k >= a.len() {
                assert((a + b)[k] == b[k - a.len()]);
            }
        }
    }
}

proof fn lemma_own_tags_a_open()
    ensures
        only_own_tags("<a href=\"/"@),
{
    reveal_strlit("<a href=\"/");
    reveal_strlit("<a ");
    assert forall|k: int| 0 <= k < "<a href=\"/"@.len() && "<a href=\"/"@[k] == '<' implies #[trigger] own_tag_at(
        "<a href=\"/"@,
        k,
    ) by {
        if k == 0 {
            assert("<a href=\"/"@.subrange(0, 3) =~= "<a "@);
        } else if k == 1 {
        } else if k == 2 {
        } else if k == 3 {
        } else if k == 4 {
        } else if k == 5 {
        } else if k == 6 {
        } else if k == 7 {
        } else if k == 8 {
        } else if k == 9 {
        }
    }
}

proof fn lemma_own_tags_thread()
    ensures
        only_own_tags("/thread/"@),
{
    reveal_strlit("/thread/");

    assert forall|k: int| 0 <= k < "/thread/"@.len() && "/thread/"@[k] == '<' implies #[trigger] own_tag_at(
        "/thread/"@,
        k,
    ) by {
        if k == 0 {
        } else if k == 1 {
        } else if k == 2 {
        } else if k == 3 {
        } else if k == 4 {
        } else if k == 5 {
        } else if k == 6 {
        } else if k == 7 {
        }
    }
}

proof fn lemma_own_tags_hash_p()
    ensures
        only_own_tags("#p"@),
{
    reveal_strlit("#p");

    assert forall|k: int| 0 <= k < "#p"@.len() && "#p"@[k] == '<' implies #[trigger] own_tag_at(
        "#p"@,
        k,
    ) by {
        if k == 0 {
        } else if k == 1 {
        }
    }
}

proof fn lemma_own_tags_ref_mid()
    ensures
        only_own_tags("\" class=\"ref\">&gt;&gt;"@),
{
    reveal_strlit("\" class=\"ref\">&gt;&gt;");

    assert forall|k: int| 0 <= k < "\" class=\"ref\">&gt;&gt;"@.len() && "\" class=\"ref\">&gt;&gt;"@[k] == '<' implies #[trigger] own_tag_at(
        "\" class=\"ref\">&gt;&gt;"@,
        k,
    ) by {
        if k == 0 {
        } else if k == 1 {
        } else if k == 2 {
        } else if k == 3 {
        } else if k == 4 {
        } else if k == 5 {
        } else if k == 6 {
        } else if k == 7 {
        } else if k == 8 {
        } else if k == 9 {
        } else if k == 10 {
        } else if k == 11 {
        } else if k == 12 {
        } else if k == 13 {
        } else if k == 14 {
        } else if k == 15 {
        } else if k == 16 {
        } else if k == 17 {
        } else if k == 18 {
        } else if k == 19 {
        } else if k == 20 {
        } else if k == 21 {
        }
    }
}

proof fn lemma_own_tags_a_close()
    ensures
        only_own_tags("</a>"@),
{
    reveal_strlit("</a>");
    reveal_strlit("</a>");
    assert forall|k: int| 0 <= k < "</a>"@.len() && "</a>"@[k] == '<' implies #[trigger] own_tag_at(
        "</a>"@,
        k,
    ) by {
        if k == 0 {
            assert("</a>"@.subrange(0, 4) =~= "</a>"@);
        } else if k == 1 {
        } else if k == 2 {
        } else if k == 3 {
        }
    }
}

proof fn lemma_own_tags_board_open()
    ensures
        only_own_tags("<a href=\"/api/v1/boards/"@),
{
    reveal_strlit("<a href=\"/api/v1/boards/");
    reveal_strlit("<a ");
    assert forall|k: int| 0 <= k < "<a href=\"/api/v1/boards/"@.len() && "<a href=\"/api/v1/boards/"@[k] == '<' implies #[trigger] own_tag_at(
        "<a href=\"/api/v1/boards/"@,
        k,
    ) by {
        if k == 0 {
            assert("<a href=\"/api/v1/boards/"@.subrange(0, 3) =~= "<a "@);
        } else if k == 1 {
        } else if k == 2 {
        } else if k == 3 {
        } else if k == 4 {
        } else if k == 5 {
        } else if k == 6 {
        } else if k == 7 {
        } else if k == 8 {
        } else if k == 9 {
        } else if k == 10 {
        } else if k == 11 {
        } else if k == 12 {
        } else if k == 13 {
        } else if k == 14 {
        } else if k == 15 {
        } else if k == 16 {
        } else if k == 17 {
        } else if k == 18 {
        } else if k == 19 {
        } else if k == 20 {
        } else if k == 21 {
        } else if k == 22 {
        } else if k == 23 {
        }
    }
}

proof fn lemma_own_tags_board_mid()
    ensures
        only_own_tags("/catalog\" class=\"ref\">&gt;&gt;&gt;/"@),
{
    reveal_strlit("/catalog\" class=\"ref\">&gt;&gt;&gt;/");

    assert forall|k: int| 0 <= k < "/catalog\" class=\"ref\">&gt;&gt;&gt;/"@.len() && "/catalog\" class=\"ref\">&gt;&gt;&gt;/"@[k] == '<' implies #[trigger] own_tag_at(
        "/catalog\" class=\"ref\">&gt;&gt;&gt;/"@,
        k,
    ) by {
        if k == 0 {
        } else if k == 1 {
        } else if k == 2 {
        } else if k == 3 {
        } else if k == 4 {
        } else if k == 5 {
        } else if k == 6 {
        } else if k == 7 {
        } else if k == 8 {
        } else if k == 9 {
        } else if k == 10 {
        } else if k == 11 {
        } else if k == 12 {
        } else if k == 13 {
        } else if k == 14 {
        } else if k == 15 {
        } else if k == 16 {
        } else if k == 17 {
        } else if k == 18 {
        } else if k == 19 {
        } else if k == 20 {
        } else if k == 21 {
        } else if k == 22 {
        } else if k == 23 {
        } else if k == 24 {
        } else if k == 25 {
        } else if k == 26 {
        } else if k == 27 {
        } else if k == 28 {
        } else if k == 29 {
        } else if k == 30 {
        } else if k == 31 {
        } else if k == 32 {
        } else if k == 33 {
        } else if k == 34 {
        }
    }
}

proof fn lemma_own_tags_board_close()
    ensures
        only_own_tags("/</a>"@),
{
    reveal_strlit("/</a>");
    reveal_strlit("</a>");
    assert forall|k: int| 0 <= k < "/</a>"@.len() && "/</a>"@[k] == '<' implies #[trigger] own_tag_at(
        "/</a>"@,
        k,
    ) by {
        if k == 0 {
        } else if k == 1 {
            assert("/</a>"@.subrange(1, 5) =~= "</a>"@);
        } else if k == 2 {
        } else if k == 3 {
        } else if k == 4 {
        }
    }
}

proof fn lemma_own_tags_agent_open()
    ensures
        only_own_tags("<a href=\"/api/v1/agents/"@),
{
    reveal_strlit("<a href=\"/api/v1/agents/");
    reveal_strlit("<a ");
    assert forall|k: int| 0 <= k < "<a href=\"/api/v1/agents/"@.len() && "<a href=\"/api/v1/agents/"@[k] == '<' implies #[trigger] own_tag_at(
        "<a href=\"/api/v1/agents/"@,
        k,
    ) by {
        if k == 0 {
            assert("<a href=\"/api/v1/agents/"@.subrange(0, 3) =~= "<a "@);
        } else if k == 1 {
        } else if k == 2 {
        } else if k == 3 {
        } else if k == 4 {
        } else if k == 5 {
        } else if k == 6 {
        } else if k == 7 {
        } else if k == 8 {
        } else if k == 9 {
        } else if k == 10 {
        } else if k == 11 {
        } else if k == 12 {
        } else if k == 13 {
        } else if k == 14 {
        } else if k == 15 {
        } else if k == 16 {
        } else if k == 17 {
        } else if k == 18 {
        } else if k == 19 {
        } else if k == 20 {
        } else if k == 21 {
        } else if k == 22 {
        } else if k == 23 {
        }
    }
}

proof fn lemma_own_tags_agent_mid()
    ensures
        only_own_tags("\" class=\"mention\">@"@),
{
    reveal_strlit("\" class=\"mention\">@");

    assert forall|k: int| 0 <= k < "\" class=\"mention\">@"@.len() && "\" class=\"mention\">@"@[k] == '<' implies #[trigger] own_tag_at(
        "\" class=\"mention\">@"@,
        k,
    ) by {
        if k == 0 {
        } else if k == 1 {
        } else if k == 2 {
        } else if k == 3 {
        } else if k == 4 {
        } else if k == 5 {
        } else if k == 6 {
        } else if k == 7 {
        } else if k == 8 {
        } else if k == 9 {
        } else if k == 10 {
        } else if k == 11 {
        } else if k == 12 {
        } else if k == 13 {
        } else if k == 14 {
        } else if k == 15 {
        } else if k == 16 {
        } else if k == 17 {
        } else if k == 18 {
        }
    }
}

proof fn lemma_own_tags_link_open()
    ensures
        only_own_tags("<a href=\""@),
{
    reveal_strlit("<a href=\"");
    reveal_strlit("<a ");
    assert forall|k: int| 0 <= k < "<a href=\""@.len() && "<a href=\""@[k] == '<' implies #[trigger] own_tag_at(
        "<a href=\""@,
        k,
    ) by {
        if k == 0 {
            assert("<a href=\""@.subrange(0, 3) =~= "<a "@);
        } else if k == 1 {
        } else if k == 2 {
        } else if k == 3 {
        } else if k == 4 {
        } else if k == 5 {
        } else if k == 6 {
        } else if k == 7 {
        } else if k == 8 {
        }
    }
}

proof fn lemma_own_tags_link_mid()
    ensures
        only_own_tags("\" rel=\"nofollow noopener\" target=\"_blank\">"@),
{
    reveal_strlit("\" rel=\"nofollow noopener\" target=\"_blank\">");

    assert forall|k: int| 0 <= k < "\" rel=\"nofollow noopener\" target=\"_blank\">"@.len() && "\" rel=\"nofollow noopener\" target=\"_blank\">"@[k] == '<' implies #[trigger] own_tag_at(
        "\" rel=\"nofollow noopener\" target=\"_blank\">"@,
        k,
    ) by {
        if k == 0 {
        } else if k == 1 {
        } else if k == 2 {
        } else if k == 3 {
        } else if k == 4 {
        } else if k == 5 {
        } else if k == 6 {
        } else if k == 7 {
        } else if k == 8 {
        } else if k == 9 {
        } else if k == 10 {
        } else if k == 11 {
        } else if k == 12 {
        } else if k == 13 {
        } else if k == 14 {
        } else if k == 15 {
        } else if k == 16 {
        } else if k == 17 {
        } else if k == 18 {
        } else if k == 19 {
        } else if k == 20 {
        } else if k == 21 {
        } else if k == 22 {
        } else if k == 23 {
        } else if k == 24 {
        } else if k == 25 {
        } else if k == 26 {
        } else if k == 27 {
        } else if k == 28 {
        } else if k == 29 {
        } else if k == 30 {
        } else if k == 31 {
        } else if k == 32 {
        } else if k == 33 {
        } else if k == 34 {
        } else if k == 35 {
        } else if k == 36 {
        } else if k == 37 {
        } else if k == 38 {
        } else if k == 39 {
        } else if k == 40 {
        } else if k == 41 {
        }
    }
}

proof fn lemma_own_tags_br()
    ensures
        only_own_tags("<br>"@),
{
    reveal_strlit("<br>");
    reveal_strlit("<br>");
    assert forall|k: int| 0 <= k < "<br>"@.len() && "<br>"@[k] == '<' implies #[trigger] own_tag_at(
        "<br>"@,
        k,
    ) by {
        if k == 0 {
            assert("<br>"@.subrange(0, 4) =~= "<br>"@);
        } else if k == 1 {
        } else if k == 2 {
        } else if k == 3 {
        }
    }
}

proof fn lemma_own_tags_quote_open()
    ensures
        only_own_tags("<span class=\"quote\">"@),
{
    reveal_strlit("<span class=\"quote\">");
    reveal_strlit("<span ");
    assert forall|k: int| 0 <= k < "<span class=\"quote\">"@.len() && "<span class=\"quote\">"@[k] == '<' implies #[trigger] own_tag_at(
        "<span class=\"quote\">"@,
        k,
    ) by {
        if k == 0 {
            assert("<span class=\"quote\">"@.subrange(0, 6) =~= "<span "@);
        } else if k == 1 {
        } else if k == 2 {
        } else if k == 3 {
        } else if k == 4 {
        } else if k == 5 {
        } else if k == 6 {
        } else if k == 7 {
        } else if k == 8 {
        } else if k == 9 {
        } else if k == 10 {
        } else if k == 11 {
        } else if k == 12 {
        } else if k == 13 {
        } else if k == 14 {
        } else if k == 15 {
        } else if k == 16 {
        } else if k == 17 {
        } else if k == 18 {
        } else if k == 19 {
        }
    }
}

proof fn lemma_own_tags_span_close()
    ensures
        only_own_tags("</span>"@),
{
    reveal_strlit("</span>");
    reveal_strlit("</span>");
    assert forall|k: int| 0 <= k < "</span>"@.len() && "</span>"@[k] == '<' implies #[trigger] own_tag_at(
        "</span>"@,
        k,
    ) by {
        if k == 0 {
            assert("</span>"@.subrange(0, 7) =~= "</span>"@);
        } else if k == 1 {
        } else if k == 2 {
        } else if k == 3 {
        } else if k == 4 {
        } else if k == 5 {
        } else if k == 6 {
        }
    }
}

proof fn lemma_own_tags_pre_open()
    ensures
        only_own_tags("<pre><code>"@),
{
    reveal_strlit("<pre><code>");
    reveal_strlit("<code>");
    reveal_strlit("<pre>");
    assert forall|k: int| 0 <= k < "<pre><code>"@.len() && "<pre><code>"@[k] == '<' implies #[trigger] own_tag_at(
        "<pre><code>"@,
        k,
    ) by {
        if k == 0 {
            assert("<pre><code>"@.subrange(0, 5) =~= "<pre>"@);
        } else if k == 1 {
        } else if k == 2 {
        } else if k == 3 {
        } else if k == 4 {
        } else if k == 5 {
            assert("<pre><code>"@.subrange(5, 11) =~= "<code>"@);
        } else if k == 6 {
        } else if k == 7 {
        } else if k == 8 {
        } else if k == 9 {
        } else if k == 10 {
        }
    }
}

proof fn lemma_own_tags_pre_close()
    ensures
        only_own_tags("</code></pre>"@),
{
    reveal_strlit("</code></pre>");
    reveal_strlit("</code>");
    reveal_strlit("</pre>");
    assert forall|k: int| 0 <= k < "</code></pre>"@.len() && "</code></pre>"@[k] == '<' implies #[trigger] own_tag_at(
        "</code></pre>"@,
        k,
    ) by {
        if k == 0 {
            assert("</code></pre>"@.subrange(0, 7) =~= "</code>"@);
        } else if k == 1 {
        } else if k == 2 {
        } else if k == 3 {
        } else if k == 4 {
        } else if k == 5 {
        } else if k == 6 {
        } else if k == 7 {
            assert("</code></pre>"@.subrange(7, 13) =~= "</pre>"@);
        } else if k == 8 {
        } else if k == 9 {
        } else if k == 10 {
        } else if k == 11 {
        } else if k == 12 {
        }
    }
}

proof fn lemma_own_tags_spoiler_open()
    ensures
        only_own_tags("<span class=\"spoiler\">"@),
{
    reveal_strlit("<span class=\"spoiler\">");
    reveal_strlit("<span ");
    assert forall|k: int| 0 <= k < "<span class=\"spoiler\">"@.len() && "<span class=\"spoiler\">"@[k] == '<' implies #[trigger] own_tag_at(
        "<span class=\"spoiler\">"@,
        k,
    ) by {
        if k == 0 {
            assert("<span class=\"spoiler\">"@.subrange(0, 6) =~= "<span "@);
        } else if k == 1 {
        } else if k == 2 {
        } else if k == 3 {
        } else if k == 4 {
        } else if k == 5 {
        } else if k == 6 {
        } else if k == 7 {
        } else if k == 8 {
        } else if k == 9 {
        } else if k == 10 {
        } else if k == 11 {
        } else if k == 12 {
        } else if k == 13 {
        } else if k == 14 {
        } else if k == 15 {
        } else if k == 16 {
        } else if k == 17 {
        } else if k == 18 {
        } else if k == 19 {
        } else if k == 20 {
        } else if k == 21 {
        }
    }
}

proof fn lemma_own_tags_lt()
    ensures
        only_own_tags("&lt;"@),
{
    reveal_strlit("&lt;");

    assert forall|k: int| 0 <= k < "&lt;"@.len() && "&lt;"@[k] == '<' implies #[trigger] own_tag_at(
        "&lt;"@,
        k,
    ) by {
        if k == 0 {
        } else if k == 1 {
        } else if k == 2 {
        } else if k == 3 {
        }
    }
}

proof fn lemma_own_tags_gt()
    ensures
        only_own_tags("&gt;"@),
{
    reveal_strlit("&gt;");

    assert forall|k: int| 0 <= k < "&gt;"@.len() && "&gt;"@[k] == '<' implies #[trigger] own_tag_at(
        "&gt;"@,
        k,
    ) by {
        if k == 0 {
        } else if k == 1 {
        } else if k == 2 {
        } else if k == 3 {
        }
    }
}

proof fn lemma_own_tags_quot()
    ensures
        only_own_tags("&quot;"@),
{
    reveal_strlit("&quot;");

    assert forall|k: int| 0 <= k < "&quot;"@.len() && "&quot;"@[k] == '<' implies #[trigger] own_tag_at(
        "&quot;"@,
        k,
    ) by {
        if k == 0 {
        } else if k == 1 {
        } else if k == 2 {
        } else if k == 3 {
        } else if k == 4 {
        } else if k == 5 {
        }
    }
}

proof fn lemma_own_tags_apos()
    ensures
        only_own_tags("&#39;"@),
{
    reveal_strlit("&#39;");

    assert forall|k: int| 0 <= k < "&#39;"@.len() && "&#39;"@[k] == '<' implies #[trigger] own_tag_at(
        "&#39;"@,
        k,
    ) by {
        if k == 0 {
        } else if k == 1 {
        } else if k == 2 {
        } else if k == 3 {
        } else if k == 4 {
        }
    }
}

proof fn lemma_own_tags_amp()
    ensures
        only_own_tags("&amp;"@),
{
    reveal_strlit("&amp;");

    assert forall|k: int| 0 <= k < "&amp;"@.len() && "&amp;"@[k] == '<' implies #[trigger] own_tag_at(
        "&amp;"@,
        k,
    ) by {
        if k == 0 {
        } else if k == 1 {
        } else if k == 2 {
        } else if k == 3 {
        } else if k == 4 {
        }
    }
}

proof fn lemma_own_tags_spoiler_tag()
    ensures
        only_own_tags("[spoiler]"@),
{
    reveal_strlit("[spoiler]");
    assert forall|k: int| 0 <= k < "[spoiler]"@.len() && "[spoiler]"@[k] == '<' implies #[trigger] own_tag_at(
        "[spoiler]"@,
        k,
    ) by {
        if k == 0 {
        } else if k == 1 {
        } else if k == 2 {
        } else if k == 3 {
        } else if k == 4 {
        } else if k == 5 {
        } else if k == 6 {
        } else if k == 7 {
        } else if k == 8 {
        }
    }
}

proof fn lemma_tags_no_bracket()
    ensures
        forall|m: int| 0 <= m < "<a "@.len() ==> "<a "@[m] != '[',
        forall|m: int| 0 <= m < "</a>"@.len() ==> "</a>"@[m] != '[',
        forall|m: int| 0 <= m < "<span "@.len() ==> "<span "@[m] != '[',
        forall|m: int| 0 <= m < "</span>"@.len() ==> "</span>"@[m] != '[',
        forall|m: int| 0 <= m < "<br>"@.len() ==> "<br>"@[m] != '[',
        forall|m: int| 0 <= m < "<pre>"@.len() ==> "<pre>"@[m] != '[',
        forall|m: int| 0 <= m < "</pre>"@.len() ==> "</pre>"@[m] != '[',
        forall|m: int| 0 <= m < "<code>"@.len() ==> "<code>"@[m] != '[',
        forall|m: int| 0 <= m < "</code>"@.len() ==> "</code>"@[m] != '[',
{
    reveal_strlit("<a ");
    reveal_strlit("</a>");
    reveal_strlit("<span ");
    reveal_strlit("</span>");
    reveal_strlit("<br>");
    reveal_strlit("<pre>");
    reveal_strlit("</pre>");
    reveal_strlit("<code>");
    reveal_strlit("</code>");
    assert forall|m: int| 0 <= m < 7 implies "</code>"@[m] != '[' by {
        if m == 0 {} else if m == 1 {} else if m == 2 {} else if m == 3 {} else if m == 4 {} else if m == 5 {} else if m == 6 {}
    }
    assert forall|m: int| 0 <= m < 6 implies "<code>"@[m] != '[' && "</pre>"@[m] != '[' by {
        if m == 0 {} else if m == 1 {} else if m == 2 {} else if m == 3 {} else if m == 4 {} else if m == 5 {}
    }
    assert forall|m: int| 0 <= m < 5 implies "<pre>"@[m] != '[' by {
        if m == 0 {} else if m == 1 {} else if m == 2 {} else if m == 3 {} else if m == 4 {}
    }
    assert forall|m: int| 0 <= m < 4 implies "<br>"@[m] != '[' && "</a>"@[m] != '[' by {
        if m == 0 {} else if m == 1 {} else if m == 2 {} else if m == 3 {}
    }
    assert forall|m: int| 0 <= m < 7 implies "</span>"@[m] != '[' by {
        if m == 0 {} else if m == 1 {} else if m == 2 {} else if m == 3 {} else if m == 4 {} else if m == 5 {} else if m == 6 {}
    }
    assert forall|m: int| 0 <= m < 6 implies "<span "@[m] != '[' by {
        if m == 0 {} else if m == 1 {} else if m == 2 {} else if m == 3 {} else if m == 4 {} else if m == 5 {}
    }
    assert forall|m: int| 0 <= m < 3 implies "<a "@[m] != '[' by {
        if m == 0 {} else if m == 1 {} else if m == 2 {}
    }
}

proof fn lemma_no_lt_concat(a: Seq<char>, b: Seq<char>)
    requires
        no_lt(a),
        no_lt(b),
    ensures
        no_lt(a + b),
{
    assert forall|k: int| 0 <= k < (a + b).len() implies (a + b)[k] != '<' by {
        if k >= a.len() {
            assert((a + b)[k] == b[k - a.len()]);
        }
    }
}

proof fn lemma_decimal_no_lt(n: nat)
    ensures
        no_lt(decimal_of(n)),
    decreases n,
{
    if n >= 10 {
        lemma_decimal_no_lt(n / 10);
        lemma_no_lt_concat(decimal_of(n / 10), seq![digit_char(n % 10)]);
    }
}

proof fn lemma_signed_decimal_no_lt(n: int)
    ensures
        no_lt(signed_decimal_of(n)),
{
    if n < 0 {
        lemma_decimal_no_lt((-n) as nat);
        lemma_no_lt_concat(seq!['-'], decimal_of((-n) as nat));
    } else {
        lemma_decimal_no_lt(n as nat);
    }
}

proof fn lemma_id_run_chars(s: Seq<char>, j: int)
    requires
        0 <= j,
    ensures
        0 <= id_run(s, j),
        id_run(s, j) > 0 ==> j + id_run(s, j) <= s.len(),
        forall|k: int| j <= k < j + id_run(s, j) ==> is_id_char(#[trigger] s[k]),
    decreases s.len() - j,
{
    if 0 <= j < s.len() && is_id_char(s[j]) {
        lemma_id_run_chars(s, j + 1);
    }
}

proof fn lemma_escape_marked_tags(s: Seq<char>)
    ensures
        only_own_tags(escape_marked(s)),
    decreases s.len(),
{
    reveal_strlit("<pre><code>");
    reveal_strlit("</code></pre>");
    if s.len() == 0 {
    } else if starts_with(s, "<pre><code>"@) {
        lemma_escape_marked_tags(s.skip(11));
        lemma_own_tags_pre_open();
        lemma_tags_concat("<pre><code>"@, escape_marked(s.skip(11)));
    } else if starts_with(s, "</code></pre>"@) {
        lemma_escape_marked_tags(s.skip(13));
        lemma_own_tags_pre_close();
        lemma_tags_concat("</code></pre>"@, escape_marked(s.skip(13)));
    } else {
        lemma_escape_marked_tags(s.drop_first());
        let c = s[0];
        if c == '<' {
            lemma_own_tags_lt();
        } else if c == '>' {
            lemma_own_tags_gt();
        } else if c == '"' {
            lemma_own_tags_quot();
        } else if c == '\'' {
            lemma_own_tags_apos();
        } else {
            assert(no_lt(seq![c]));
        }
        lemma_tags_concat(escape_tag_char(c), escape_marked(s.drop_first()));
    }
}

proof fn lemma_word_html_tags(w: Seq<char>, dir: Seq<char>)
    requires
        no_lt(dir),
    ensures
        only_own_tags(word_html(w, dir)),
{
    lemma_own_tags_a_close();
    if starts_with(w, ">>"@) && parse_i64(w.skip(2)) is Some {
        let d = signed_decimal_of(parse_i64(w.skip(2))->0);
        lemma_signed_decimal_no_lt(parse_i64(w.skip(2))->0);
        lemma_own_tags_a_open();
        lemma_own_tags_thread();
        lemma_own_tags_hash_p();
        lemma_own_tags_ref_mid();
        let p1 = "<a href=\"/"@ + dir;
        lemma_tags_concat("<a href=\"/"@, dir);
        lemma_tags_concat(p1, "/thread/"@);
        lemma_tags_concat(p1 + "/thread/"@, d);
        lemma_tags_concat(p1 + "/thread/"@ + d, "#p"@);
        lemma_tags_concat(p1 + "/thread/"@ + d + "#p"@, d);
        lemma_tags_concat(p1 + "/thread/"@ + d + "#p"@ + d, "\" class=\"ref\">&gt;&gt;"@);
        lemma_tags_concat(p1 + "/thread/"@ + d + "#p"@ + d + "\" class=\"ref\">&gt;&gt;"@, d);
        lemma_tags_concat(
            p1 + "/thread/"@ + d + "#p"@ + d + "\" class=\"ref\">&gt;&gt;"@ + d,
            "</a>"@,
        );
    } else if starts_with(w, ">>>/"@) && char_index(w.skip(4), '/') > 0 {
        let b = escaped(w.skip(4).take(char_index(w.skip(4), '/')));
        lemma_escaped_no_lt(w.skip(4).take(char_index(w.skip(4), '/')));
        lemma_own_tags_board_open();
        lemma_own_tags_board_mid();
        lemma_own_tags_board_close();
        let o = "<a href=\"/api/v1/boards/"@;
        let m = "/catalog\" class=\"ref\">&gt;&gt;&gt;/"@;
        lemma_tags_concat(o, b);
        lemma_tags_concat(o + b, m);
        lemma_tags_concat(o + b + m, b);
        lemma_tags_concat(o + b + m + b, "/</a>"@);
    } else if starts_with(w, "@"@) && id_run(w, 1) > 0 {
        let id = w.subrange(1, 1 + id_run(w, 1));
        lemma_id_run_chars(w, 1);
        assert(no_lt(id)) by {
            assert forall|k: int| 0 <= k < id.len() implies id[k] != '<' by {
                assert(id[k] == w[1 + k]);
                assert(is_id_char(w[1 + k]));
            }
        }
        lemma_escaped_no_lt(w.skip(1 + id_run(w, 1)));
        lemma_own_tags_agent_open();
        lemma_own_tags_agent_mid();
        let o = "<a href=\"/api/v1/agents/"@;
        let m = "\" class=\"mention\">@"@;
        lemma_tags_concat(o, id);
        lemma_tags_concat(o + id, m);
        lemma_tags_concat(o + id + m, id);
        lemma_tags_concat(o + id + m + id, "</a>"@);
        lemma_tags_concat(o + id + m + id + "</a>"@, escaped(w.skip(1 + id_run(w, 1))));
    } else if starts_with(w, "http://"@) || starts_with(w, "https://"@) {
        let e = escaped(w);
        lemma_escaped_no_lt(w);
        lemma_own_tags_link_open();
        lemma_own_tags_link_mid();
        let o = "<a href=\""@;
        let m = "\" rel=\"nofollow noopener\" target=\"_blank\">"@;
        lemma_tags_concat(o, e);
        lemma_tags_concat(o + e, m);
        lemma_tags_concat(o + e + m, e);
        lemma_tags_concat(o + e + m + e, "</a>"@);
    } else {
        lemma_escaped_no_lt(w);
    }
}

proof fn lemma_words_from_tags(rest: Seq<char>, acc: Seq<char>, first: bool, dir: Seq<char>)
    requires
        only_own_tags(acc),
        no_lt(dir),
    ensures
        only_own_tags(words_from(rest, acc, first, dir)),
    decreases rest.len(),
{
    if rest.len() == 0 {
    } else if is_white(rest[0]) {
        lemma_words_from_tags(rest.drop_first(), acc, first, dir);
    } else {
        let n = word_run(rest, 0);
        if 1 <= n <= rest.len() {
            let sep = if first {
                Seq::<char>::empty()
            } else {
                seq![' ']
            };
            assert(no_lt(sep));
            lemma_word_html_tags(rest.take(n), dir);
            lemma_tags_concat(acc, sep);
            lemma_tags_concat(acc + sep, word_html(rest.take(n), dir));
            lemma_words_from_tags(
                rest.skip(n),
                acc + sep + word_html(rest.take(n), dir),
                false,
                dir,
            );
        }
    }
}

proof fn lemma_line_html_tags(line: Seq<char>, html_empty: bool, in_code: bool, dir: Seq<char>)
    requires
        no_lt(dir),
    ensures
        only_own_tags(line_html(line, html_empty, in_code, dir).0),
{
    lemma_own_tags_br();
    let br = if !html_empty {
        "<br>"@
    } else {
        Seq::<char>::empty()
    };
    let code_br = if !html_empty && !starts_with(line, "<pre><code"@) {
        "<br>"@
    } else {
        Seq::<char>::empty()
    };
    lemma_escape_marked_tags(line);
    lemma_tags_concat(code_br, escape_marked(line));
    lemma_escaped_no_lt(line);
    lemma_own_tags_quote_open();
    lemma_own_tags_span_close();
    lemma_tags_concat(br, "<span class=\"quote\">"@);
    lemma_tags_concat(br + "<span class=\"quote\">"@, escaped(line));
    lemma_tags_concat(br + "<span class=\"quote\">"@ + escaped(line), "</span>"@);
    lemma_words_from_tags(line, br, true, dir);
}

proof fn lemma_render_from_tags(rest: Seq<char>, html: Seq<char>, in_code: bool, dir: Seq<char>)
    requires
        only_own_tags(html),
        no_lt(dir),
    ensures
        only_own_tags(render_from(rest, html, in_code, dir)),
    decreases rest.len(),
{
    if rest.len() > 0 {
        let k = char_index(rest, '\n');
        lemma_char_index_bound(rest, '\n');
        let raw = rest.take(k);
        let line = if k < rest.len() && raw.len() > 0 && raw.last() == '\r' {
            raw.drop_last()
        } else {
            raw
        };
        let (piece, state) = line_html(line, html.len() == 0, in_code, dir);
        lemma_line_html_tags(line, html.len() == 0, in_code, dir);
        lemma_tags_concat(html, piece);
        let next = if k < rest.len() {
            rest.skip(k + 1)
        } else {
            Seq::<char>::empty()
        };
        lemma_render_from_tags(next, html + piece, state, dir);
    }
}

proof fn lemma_occurs_prefix(s: Seq<char>, i: int, k: int, t: Seq<char>)
    requires
        occurs_at(s, k, t),
        forall|m: int| 0 <= m < t.len() ==> t[m] != '[',
        0 <= k < i <= s.len(),
        i == s.len() || s[i] == '[',
    ensures
        occurs_at(s.take(i), k, t),
{
    if k + t.len() > i {
        assert(s[i] == s.subrange(k, k + t.len())[i - k]);
    } else {
        assert(s.take(i).subrange(k, k + t.len()) =~= s.subrange(k, k + t.len()));
    }
}

proof fn lemma_prefix_tags(s: Seq<char>, i: int)
    requires
        only_own_tags(s),
        0 <= i <= s.len(),
        i == s.len() || s[i] == '[',
    ensures
        only_own_tags(s.take(i)),
{
    lemma_tags_no_bracket();
    assert forall|k: int| 0 <= k < s.take(i).len() && s.take(i)[k] == '<' implies #[trigger] own_tag_at(
        s.take(i),
        k,
    ) by {
        assert(s[k] == '<');
        assert(own_tag_at(s, k));
        if occurs_at(s, k, "<a "@) {
            lemma_occurs_prefix(s, i, k, "<a "@);
        } else if occurs_at(s, k, "</a>"@) {
            lemma_occurs_prefix(s, i, k, "</a>"@);
        } else if occurs_at(s, k, "<span "@) {
            lemma_occurs_prefix(s, i, k, "<span "@);
        } else if occurs_at(s, k, "</span>"@) {
            lemma_occurs_prefix(s, i, k, "</span>"@);
        } else if occurs_at(s, k, "<br>"@) {
            lemma_occurs_prefix(s, i, k, "<br>"@);
        } else if occurs_at(s, k, "<pre>"@) {
            lemma_occurs_prefix(s, i, k, "<pre>"@);
        } else if occurs_at(s, k, "</pre>"@) {
            lemma_occurs_prefix(s, i, k, "</pre>"@);
        } else if occurs_at(s, k, "<code>"@) {
            lemma_occurs_prefix(s, i, k, "<code>"@);
        } else {
            lemma_occurs_prefix(s, i, k, "</code>"@);
        }
    }
}

proof fn lemma_occurs_suffix(s: Seq<char>, j: int, k: int, t: Seq<char>)
    requires
        0 <= j <= s.len(),
        0 <= k,
    ensures
        occurs_at(s, k + j, t) ==> occurs_at(s.skip(j), k, t),
{
    if occurs_at(s, k + j, t) {
        assert(s.skip(j).subrange(k, k + t.len()) =~= s.subrange(k + j, k + j + t.len()));
    }
}

proof fn lemma_suffix_tags(s: Seq<char>, j: int)
    requires
        only_own_tags(s),
        0 <= j <= s.len(),
    ensures
        only_own_tags(s.skip(j)),
{
    assert forall|k: int| 0 <= k < s.skip(j).len() && s.skip(j)[k] == '<' implies #[trigger] own_tag_at(
        s.skip(j),
        k,
    ) by {
        assert(s[k + j] == '<');
        assert(own_tag_at(s, k + j));
        lemma_occurs_suffix(s, j, k, "<a "@);
        lemma_occurs_suffix(s, j, k, "</a>"@);
        lemma_occurs_suffix(s, j, k, "<span "@);
        lemma_occurs_suffix(s, j, k, "</span>"@);
        lemma_occurs_suffix(s, j, k, "<br>"@);
        lemma_occurs_suffix(s, j, k, "<pre>"@);
        lemma_occurs_suffix(s, j, k, "</pre>"@);
        lemma_occurs_suffix(s, j, k, "<code>"@);
        lemma_occurs_suffix(s, j, k, "</code>"@);
    }
}

proof fn lemma_spoilers_tags(s: Seq<char>)
    requires
        only_own_tags(s),
    ensures
        only_own_tags(
            tagged(s, "[spoiler]"@, "[/spoiler]"@, "<span class=\"spoiler\">"@, "</span>"@),
        ),
    decreases s.len(),
{
    let open = "[spoiler]"@;
    let close = "[/spoiler]"@;
    let pre = "<span class=\"spoiler\">"@;
    let post = "</span>"@;
    reveal_strlit("[spoiler]");
    lemma_find_bounds(s, open);
    match find(s, open) {
        None => {},
        Some(i) => {
            if 0 <= i && i + open.len() <= s.len() && open.len() > 0 {
                assert(s[i] == s.subrange(i, i + open.len())[0]);
                lemma_prefix_tags(s, i);
                let after = s.skip(i + open.len());
                lemma_suffix_tags(s, i + open.len());
                lemma_find_bounds(after, close);
                match find(after, close) {
                    Some(j) => {
                        if 0 <= j && j + close.len() <= after.len() {
                            lemma_suffix_tags(after, j + close.len());
                            lemma_spoilers_tags(after.skip(j + close.len()));
                            lemma_escaped_no_lt(after.take(j));
                            lemma_own_tags_spoiler_open();
                            lemma_own_tags_span_close();
                            lemma_tags_concat(s.take(i), pre);
                            lemma_tags_concat(s.take(i) + pre, escaped(after.take(j)));
                            lemma_tags_concat(s.take(i) + pre + escaped(after.take(j)), post);
                            lemma_tags_concat(
                                s.take(i) + pre + escaped(after.take(j)) + post,
                                tagged(after.skip(j + close.len()), open, close, pre, post),
                            );
                        }
                    },
                    None => {
                        lemma_spoilers_tags(after);
                        lemma_own_tags_spoiler_tag();
                        lemma_tags_concat(s.take(i), open);
                        lemma_tags_concat(s.take(i) + open, tagged(after, open, close, pre, post));
                    },
                }
            }
        },
    }
}

} // verus!
