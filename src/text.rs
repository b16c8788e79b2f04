//! Character-level helpers over message text.

use vstd::prelude::*;
use vstd::std_specs::iter::IteratorSpec;
use vstd::string::StringSliceAdditionalSpecFns;

verus! {

broadcast use vstd::string::axiom_spec_iter, vstd::string::next_postcondition;

/// The characters of `s`, in order.
pub fn chars_of(s: &str) -> (r: Vec<char>)
    ensures
        r@ == s@,
{
    let mut it = s.chars();
    let mut out: Vec<char> = Vec::new();
    loop
        invariant
            out@ + it.remaining() == s@,
            it.obeys_prophetic_iter_laws(),
        decreases s@.len() - out@.len(),
    {
        match it.next() {
            Some(c) => {
                out.push(c);
            },
            None => {
                assert(out@ =~= s@);
                return out;
            },
        }
    }
}

/// Relies on `String::push`: appends one character.
#[verifier::external_body]
pub fn push_char(s: &mut String, c: char)
    ensures
        final(s)@ == old(s)@.push(c),
{
    s.push(c)
}

/// The Unicode `White_Space` characters, which `char::is_whitespace` accepts.
pub open spec fn is_white(c: char) -> bool {
    let u = c as u32;
    (0x09 <= u <= 0x0D) || u == 0x20 || u == 0x85 || u == 0xA0 || u == 0x1680 || (0x2000 <= u
        <= 0x200A) || u == 0x2028 || u == 0x2029 || u == 0x202F || u == 0x205F || u == 0x3000
}

pub fn is_whitespace(c: char) -> (r: bool)
    ensures
        r == is_white(c),
{
    let u = c as u32;
    (0x09 <= u && u <= 0x0D) || u == 0x20 || u == 0x85 || u == 0xA0 || u == 0x1680 || (0x2000
        <= u && u <= 0x200A) || u == 0x2028 || u == 0x2029 || u == 0x202F || u == 0x205F || u
        == 0x3000
}

/// Characters of an agent identifier.
pub open spec fn is_id_char(c: char) -> bool {
    ('a' <= c <= 'z') || ('0' <= c <= '9') || c == '-' || c == '_'
}

/// Whether `c` may appear in an agent identifier.
pub fn id_char(c: char) -> (r: bool)
    ensures
        r == is_id_char(c),
{
    ('a' <= c && c <= 'z') || ('0' <= c && c <= '9') || c == '-' || c == '_'
}

/// Length of the run of identifier characters of `s` from index `j`.
pub open spec fn id_run(s: Seq<char>, j: int) -> int
    decreases s.len() - j,
{
    if 0 <= j < s.len() && is_id_char(s[j]) {
        1 + id_run(s, j + 1)
    } else {
        0
    }
}

/// The agent mentioned by the word that starts at `i`, if any: a word that
/// begins with `@` names the identifier characters right after it.
pub open spec fn mention_at(s: Seq<char>, i: int) -> Option<Seq<char>> {
    if s[i] == '@' && (i == 0 || is_white(s[i - 1])) && id_run(s, i + 1) > 0 {
        Some(s.subrange(i + 1, i + 1 + id_run(s, i + 1)))
    } else {
        None
    }
}

/// Distinct agents mentioned in the first `n` characters, in order of first
/// mention.
pub open spec fn mentions_upto(s: Seq<char>, n: int) -> Seq<Seq<char>>
    decreases n,
{
    if n <= 0 {
        Seq::empty()
    } else {
        let m = mentions_upto(s, n - 1);
        match mention_at(s, n - 1) {
            Some(id) => if m.contains(id) {
                m
            } else {
                m.push(id)
            },
            None => m,
        }
    }
}

pub open spec fn texts(v: Seq<String>) -> Seq<Seq<char>> {
    v.map_values(|x: String| x@)
}

pub proof fn lemma_id_run(s: Seq<char>, a: int, b: int)
    requires
        0 <= a <= b <= s.len(),
        forall|k: int| a <= k < b ==> is_id_char(s[k]),
        b == s.len() || !is_id_char(s[b]),
    ensures
        id_run(s, a) == b - a,
    decreases b - a,
{
    if a < b {
        lemma_id_run(s, a + 1, b);
    }
}

fn contains_text(v: &Vec<String>, t: &String) -> (r: bool)
    ensures
        r == texts(v@).contains(t@),
{
    let mut i: usize = 0;
    while i < v.len()
        invariant
            0 <= i <= v.len(),
            forall|k: int| 0 <= k < i ==> v@[k]@ != t@,
        decreases v.len() - i,
    {
        if v[i] == *t {
            proof {
                assert(texts(v@)[i as int] == t@);
            }
            return true;
        }
        i += 1;
    }
    proof {
        if texts(v@).contains(t@) {
            let k = choose|k: int| 0 <= k < texts(v@).len() && texts(v@)[k] == t@;
            assert(v@[k]@ == t@);
        }
    }
    false
}

/// Agents mentioned in a message, each once, in order of first mention.
pub fn extract_mentions(message: &str) -> (r: Vec<String>)
    ensures
        texts(r@) == mentions_upto(message@, message@.len() as int),
{
    let cs = chars_of(message);
    let mut mentions: Vec<String> = Vec::new();
    let mut i: usize = 0;
    while i < cs.len()
        invariant
            cs@ == message@,
            0 <= i <= cs@.len(),
            texts(mentions@) == mentions_upto(cs@, i as int),
        decreases cs.len() - i,
    {
        if cs[i] == '@' && (i == 0 || is_whitespace(cs[i - 1])) {
            let mut id = String::new();
            let mut j: usize = i + 1;
            while j < cs.len() && id_char(cs[j])
                invariant
                    i + 1 <= j <= cs@.len(),
                    id@ == cs@.subrange(i + 1, j as int),
                    forall|k: int| i + 1 <= k < j ==> is_id_char(cs@[k]),
                decreases cs.len() - j,
            {
                push_char(&mut id, cs[j]);
                proof {
                    assert(cs@.subrange(i + 1, j + 1) =~= cs@.subrange(i + 1, j as int).push(cs@[j as int]));
                }
                j += 1;
            }
            proof {
                lemma_id_run(cs@, i + 1, j as int);
            }
            if j > i + 1 && !contains_text(&mentions, &id) {
                let ghost before = mentions@;
                mentions.push(id);
                proof {
                    assert(texts(mentions@) =~= texts(before).push(id@));
                }
            }
        }
        i += 1;
    }
    mentions
}

pub open spec fn all_id_chars(s: Seq<char>) -> bool {
    forall|k: int| 0 <= k < s.len() ==> is_id_char(s[k])
}

/// Checks an agent identifier: non-empty, at most 64 bytes, and only
/// lowercase letters, digits, `-` and `_`.
pub fn validate_agent_id(id: &str) -> (r: Result<(), &'static str>)
    ensures
        id@.len() == 0 ==> r == Err::<(), &'static str>("Agent ID cannot be empty"),
        id@.len() > 0 && id.spec_bytes().len() > 64 ==> r == Err::<(), &'static str>(
            "Agent ID must be 64 characters or less",
        ),
        id@.len() > 0 && id.spec_bytes().len() <= 64 && !all_id_chars(id@) ==> r == Err::<
            (),
            &'static str,
        >("Agent ID must contain only lowercase letters, numbers, hyphens, and underscores"),
        r is Ok <==> id@.len() > 0 && id.spec_bytes().len() <= 64 && all_id_chars(id@),
{
    if id.is_empty() {
        return Err("Agent ID cannot be empty");
    }
    if id.as_bytes().len() > 64 {
        return Err("Agent ID must be 64 characters or less");
    }
    let cs = chars_of(id);
    let mut i: usize = 0;
    while i < cs.len()
        invariant
            cs@ == id@,
            id@.len() > 0,
            id.spec_bytes().len() <= 64,
            0 <= i <= cs@.len(),
            forall|k: int| 0 <= k < i ==> is_id_char(cs@[k]),
        decreases cs.len() - i,
    {
        if !id_char(cs[i]) {
            return Err(
                "Agent ID must contain only lowercase letters, numbers, hyphens, and underscores",
            );
        }
        i += 1;
    }
    Ok(())
}

/// Index of the first `,` in `s`, or its length.
pub open spec fn comma_index(s: Seq<char>) -> int
    decreases s.len(),
{
    if s.len() == 0 {
        0
    } else if s[0] == ',' {
        0
    } else {
        1 + comma_index(s.drop_first())
    }
}

/// Number of leading whitespace characters.
pub open spec fn lead_white(s: Seq<char>) -> int
    decreases s.len(),
{
    if s.len() > 0 && is_white(s[0]) {
        1 + lead_white(s.drop_first())
    } else {
        0
    }
}

/// Number of trailing whitespace characters.
pub open spec fn trail_white(s: Seq<char>) -> int
    decreases s.len(),
{
    if s.len() > 0 && is_white(s.last()) {
        1 + trail_white(s.drop_last())
    } else {
        0
    }
}

/// `s` without leading and trailing whitespace, as `str::trim` gives it.
pub open spec fn trimmed(s: Seq<char>) -> Seq<char> {
    let t = s.subrange(lead_white(s), s.len() as int);
    t.subrange(0, t.len() - trail_white(t))
}

proof fn lemma_comma_index(s: Seq<char>, k: int)
    requires
        0 <= k <= s.len(),
        forall|m: int| 0 <= m < k ==> s[m] != ',',
        k == s.len() || s[k] == ',',
    ensures
        comma_index(s) == k,
    decreases s.len(),
{
    if s.len() > 0 && s[0] != ',' {
        lemma_comma_index(s.drop_first(), k - 1);
    }
}

proof fn lemma_lead_white(s: Seq<char>, k: int)
    requires
        0 <= k <= s.len(),
        forall|m: int| 0 <= m < k ==> is_white(s[m]),
        k == s.len() || !is_white(s[k]),
    ensures
        lead_white(s) == k,
    decreases s.len(),
{
    if s.len() > 0 && is_white(s[0]) {
        lemma_lead_white(s.drop_first(), k - 1);
    }
}

proof fn lemma_trail_white(s: Seq<char>, k: int)
    requires
        0 <= k <= s.len(),
        forall|m: int| k <= m < s.len() ==> is_white(s[m]),
        k == 0 || !is_white(s[k - 1]),
    ensures
        trail_white(s) == s.len() - k,
    decreases s.len(),
{
    if s.len() > 0 && is_white(s.last()) {
        lemma_trail_white(s.drop_last(), k);
    }
}

/// The first entry of a forwarded-address list, trimmed.
pub fn first_forwarded(header: &str) -> (r: String)
    ensures
        r@ == trimmed(header@.take(comma_index(header@))),
{
    let cs = chars_of(header);
    let mut k: usize = 0;
    while k < cs.len() && cs[k] != ','
        invariant
            0 <= k <= cs@.len(),
            forall|m: int| 0 <= m < k ==> cs@[m] != ',',
        decreases cs.len() - k,
    {
        k += 1;
    }
    proof {
        lemma_comma_index(cs@, k as int);
    }
    let ghost entry = cs@.take(k as int);
    let mut lo: usize = 0;
    while lo < k && is_whitespace(cs[lo])
        invariant
            0 <= lo <= k <= cs@.len(),
            forall|m: int| 0 <= m < lo ==> is_white(cs@[m]),
        decreases k - lo,
    {
        lo += 1;
    }
    proof {
        lemma_lead_white(entry, lo as int);
    }
    let ghost t = entry.subrange(lo as int, k as int);
    let mut hi: usize = k;
    while hi > lo && is_whitespace(cs[hi - 1])
        invariant
            0 <= lo <= hi <= k <= cs@.len(),
            forall|m: int| hi <= m < k ==> is_white(cs@[m]),
        decreases hi - lo,
    {
        hi -= 1;
    }
    proof {
        lemma_trail_white(t, hi - lo);
    }
    let mut out = String::new();
    let mut i: usize = lo;
    while i < hi
        invariant
            lo <= i <= hi <= cs@.len(),
            out@ == cs@.subrange(lo as int, i as int),
        decreases hi - i,
    {
        push_char(&mut out, cs[i]);
        proof {
            assert(cs@.subrange(lo as int, i + 1) =~= cs@.subrange(lo as int, i as int).push(cs@[i as int]));
        }
        i += 1;
    }
    proof {
        assert(out@ =~= trimmed(entry));
    }
    out
}

/// `s` without leading and trailing whitespace.
pub fn trim_whitespace(s: &str) -> (r: String)
    ensures
        r@ == trimmed(s@),
{
    let cs = chars_of(s);
    let k = cs.len();
    let mut lo: usize = 0;
    while lo < k && is_whitespace(cs[lo])
        invariant
            0 <= lo <= k == cs@.len(),
            forall|m: int| 0 <= m < lo ==> is_white(cs@[m]),
        decreases k - lo,
    {
        lo += 1;
    }
    proof {
        lemma_lead_white(cs@, lo as int);
    }
    let ghost t = cs@.subrange(lo as int, k as int);
    let mut hi: usize = k;
    while hi > lo && is_whitespace(cs[hi - 1])
        invariant
            0 <= lo <= hi <= k == cs@.len(),
            forall|m: int| hi <= m < k ==> is_white(cs@[m]),
        decreases hi - lo,
    {
        hi -= 1;
    }
    proof {
        lemma_trail_white(t, hi - lo);
    }
    let mut out = String::new();
    let mut i: usize = lo;
    while i < hi
        invariant
            lo <= i <= hi <= cs@.len(),
            out@ == cs@.subrange(lo as int, i as int),
        decreases hi - i,
    {
        push_char(&mut out, cs[i]);
        proof {
            assert(cs@.subrange(lo as int, i + 1) =~= cs@.subrange(lo as int, i as int).push(cs@[i as int]));
        }
        i += 1;
    }
    proof {
        assert(out@ =~= trimmed(s@));
    }
    out
}

/// `p` is a prefix of `s`.
pub open spec fn starts_with(s: Seq<char>, p: Seq<char>) -> bool {
    p.len() <= s.len() && s.take(p.len() as int) == p
}

/// Whether two strings hold the same characters.
pub fn str_eq(a: &str, b: &str) -> (r: bool)
    ensures
        r == (a@ == b@),
{
    let x = chars_of(a);
    let y = chars_of(b);
    if x.len() != y.len() {
        return false;
    }
    let mut i: usize = 0;
    while i < x.len()
        invariant
            x@ == a@,
            y@ == b@,
            x@.len() == y@.len(),
            0 <= i <= x@.len(),
            forall|k: int| 0 <= k < i ==> x@[k] == y@[k],
        decreases x.len() - i,
    {
        if x[i] != y[i] {
            return false;
        }
        i += 1;
    }
    proof {
        assert(a@ =~= b@);
    }
    true
}

} // verus!
