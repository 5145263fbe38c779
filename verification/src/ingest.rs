//! Event-ingestion helpers: domain validation and the cursor protocol.
//!
//! An event domain is a dotted namespace identifier (for example
//! `"aussen"` or `"sensor.v1"`), validated by rules close to DNS hostname
//! rules. The cursor protocol decides, from one fetched batch, whether
//! ingestion advances, finishes, or has hit a protocol error.

use vstd::prelude::*;

verus! {

/// Names what `char::is_alphanumeric` returns: a function of the
/// character alone.
pub uninterp spec fn char_is_alphanumeric(c: char) -> bool;

/// Names what `char::is_whitespace` returns: a function of the character
/// alone.
pub uninterp spec fn char_is_whitespace(c: char) -> bool;

/// Relies on char::is_alphanumeric: true exactly for Unicode letters and
/// numbers, so never for `'.'` or `'-'`.
#[verifier::external_body]
fn is_alphanumeric_char(c: char) -> (r: bool)
    ensures
        r == char_is_alphanumeric(c),
        c == '.' ==> !r,
        c == '-' ==> !r,
{
    c.is_alphanumeric()
}

/// Relies on char::is_whitespace: true exactly for Unicode whitespace.
#[verifier::external_body]
fn is_whitespace_char(c: char) -> (r: bool)
    ensures
        r == char_is_whitespace(c),
{
    c.is_whitespace()
}

/// Index of the first character that is not whitespace; the length when
/// all of them are.
pub open spec fn trim_start_idx(d: Seq<char>) -> int
    decreases d.len(),
{
    if d.len() == 0 {
        0
    } else if !char_is_whitespace(d[0]) {
        0
    } else {
        1 + trim_start_idx(d.drop_first())
    }
}

/// One past the index of the last character that is not whitespace; zero
/// when all of them are.
pub open spec fn trim_end_idx(d: Seq<char>) -> int
    decreases d.len(),
{
    if d.len() == 0 {
        0
    } else if !char_is_whitespace(d[d.len() - 1]) {
        d.len() as int
    } else {
        trim_end_idx(d.drop_last())
    }
}

/// The string with leading and trailing whitespace removed.
pub open spec fn spec_trim(d: Seq<char>) -> Seq<char> {
    let a = trim_start_idx(d);
    let b = trim_end_idx(d);
    if a <= b {
        d.subrange(a, b)
    } else {
        Seq::empty()
    }
}

/// The first `a` characters are whitespace and, unless the string ends
/// there, the next one is not: then trimming starts at `a`.
proof fn lemma_trim_start(d: Seq<char>, a: int)
    requires
        0 <= a <= d.len(),
        forall|k: int| 0 <= k < a ==> char_is_whitespace(d[k]),
        a < d.len() ==> !char_is_whitespace(d[a]),
    ensures
        trim_start_idx(d) == a,
    decreases a,
{
    if a > 0 {
        lemma_trim_start(d.drop_first(), a - 1);
    }
}

/// The characters from `b` on are whitespace and, unless `b` is zero, the
/// one before is not: then trimming ends at `b`.
proof fn lemma_trim_end(d: Seq<char>, b: int)
    requires
        0 <= b <= d.len(),
        forall|k: int| b <= k < d.len() ==> char_is_whitespace(d[k]),
        b > 0 ==> !char_is_whitespace(d[b - 1]),
    ensures
        trim_end_idx(d) == b,
    decreases d.len(),
{
    if b < d.len() {
        assert(d.drop_last() =~= d.subrange(0, d.len() - 1));
        lemma_trim_end(d.drop_last(), b);
    }
}

/// Some position in the 64-character window starting at `i0` is a dot.
pub open spec fn window_has_dot(d: Seq<char>, i0: int) -> bool {
    exists|k: int| i0 <= k <= i0 + 63 && d[k] == '.'
}

/// Position `i` starts a label: it is the first position, or follows a
/// dot.
pub open spec fn label_start(d: Seq<char>, i: int) -> bool {
    i == 0 || d[i - 1] == '.'
}

/// Position `i` ends a label: it is the last position, or a dot follows.
pub open spec fn label_end(d: Seq<char>, i: int) -> bool {
    i == d.len() - 1 || d[i + 1] == '.'
}

/// A valid event domain, over the already-trimmed text: between 1 and
/// 253 characters, none of them whitespace, each alphanumeric, a hyphen
/// or a dot; no label is empty (no leading, trailing or doubled dots),
/// every label starts and ends alphanumeric, and every window of 64
/// characters contains a dot, so no label exceeds 63 characters.
pub open spec fn valid_domain(d: Seq<char>) -> bool {
    &&& 1 <= d.len() <= 253
    &&& forall|i: int| 0 <= i < d.len() ==> !char_is_whitespace(#[trigger] d[i])
    &&& forall|i: int|
        0 <= i < d.len() ==> (char_is_alphanumeric(#[trigger] d[i]) || d[i] == '-' || d[i] == '.')
    &&& forall|i: int| 0 <= i < d.len() && label_start(d, i) ==> (#[trigger] d[i]) != '.'
    &&& d[d.len() - 1] != '.'
    &&& forall|i: int|
        0 <= i < d.len() && label_start(d, i) ==> char_is_alphanumeric(#[trigger] d[i])
    &&& forall|i: int|
        0 <= i < d.len() && label_end(d, i) ==> char_is_alphanumeric(#[trigger] d[i])
    &&& forall|i0: int| 0 <= i0 && i0 + 63 < d.len() ==> #[trigger] window_has_dot(d, i0)
}

/// Whether `domain`, once trimmed, is a valid event namespace identifier.
#[verifier::loop_isolation(false)]
pub fn is_valid_event_domain(domain: &str) -> (r: bool)
    ensures
        r == valid_domain(spec_trim(domain@)),
{
    let n = domain.unicode_len();
    let mut a: usize = 0;
    while a < n && is_whitespace_char(domain.get_char(a))
        invariant
            a <= n,
            forall|k: int| 0 <= k < a ==> char_is_whitespace(domain@[k]),
        decreases n - a,
    {
        a += 1;
    }
    proof {
        lemma_trim_start(domain@, a as int);
    }
    if a == n {
        // all whitespace: the trimmed text is empty
        proof {
            lemma_trim_end(domain@, 0);
            assert(spec_trim(domain@) =~= Seq::<char>::empty());
        }
        return false;
    }
    let mut b: usize = n;
    while b > a && is_whitespace_char(domain.get_char(b - 1))
        invariant
            a <= b <= n,
            forall|k: int| b <= k < n ==> char_is_whitespace(domain@[k]),
        decreases b,
    {
        b -= 1;
    }
    proof {
        lemma_trim_end(domain@, b as int);
    }
    let t = domain.substring_char(a, b);
    let m = b - a;
    proof {
        assert(t@ =~= spec_trim(domain@));
    }
    if m > 253 {
        return false;
    }
    // One pass over the trimmed text; `run` counts the characters of the
    // current label so far.
    let mut i: usize = 0;
    let mut run: usize = 0;
    while i < m
        invariant
            i <= m,
            m == t@.len(),
            1 <= m <= 253,
            run <= i,
            run <= 63,
            forall|k: int| 0 <= k < i ==> !char_is_whitespace(#[trigger] t@[k]),
            forall|k: int|
                0 <= k < i ==> (char_is_alphanumeric(#[trigger] t@[k]) || t@[k] == '-'
                    || t@[k] == '.'),
            forall|k: int| 0 <= k < i && label_start(t@, k) ==> (#[trigger] t@[k]) != '.',
            forall|k: int|
                0 <= k < i && label_start(t@, k) ==> char_is_alphanumeric(#[trigger] t@[k]),
            forall|k: int|
                0 <= k < i - 1 && label_end(t@, k) ==> char_is_alphanumeric(#[trigger] t@[k]),
            // `run` characters before `i` belong to the current label
            forall|k: int| i - run <= k < i ==> (#[trigger] t@[k]) != '.',
            run < i ==> t@[i - run - 1] == '.',
            i > 0 && run > 0 ==> char_is_alphanumeric(t@[i - 1]) || t@[i - 1] == '-',
            run == 0 && i > 0 ==> t@[i - 1] == '.',
            forall|i0: int| 0 <= i0 && i0 + 63 < i ==> #[trigger] window_has_dot(t@, i0),
        decreases m - i,
    {
        let c = t.get_char(i);
        if is_whitespace_char(c) {
            return false;
        }
        let alnum = is_alphanumeric_char(c);
        if c == '.' {
            if run == 0 {
                // empty label: a dot at the start or right after a dot
                assert(label_start(t@, i as int) && t@[i as int] == '.');
                return false;
            }
            let prev = t.get_char(i - 1);
            if !is_alphanumeric_char(prev) {
                // the label ends on a non-alphanumeric character
                assert(label_end(t@, i as int - 1));
                return false;
            }
            run = 0;
        } else {
            if !alnum && c != '-' {
                return false;
            }
            if run == 0 && !alnum {
                // a label starts on a non-alphanumeric character
                assert(label_start(t@, i as int));
                return false;
            }
            if run == 63 {
                // a 64th consecutive character without a dot
                assert(forall|k: int|
                    i - 63 <= k <= i ==> (#[trigger] t@[k]) != '.');
                assert(!valid_domain(t@)) by {
                    let i0 = i - 63;
                    assert(0 <= i0 && i0 + 63 < t@.len());
                    assert(!window_has_dot(t@, i0));
                }
                return false;
            }
            run = run + 1;
        }
        i += 1;
        proof {
            if i - 64 >= 0 {
                // the newest full window contains the dot that closed or
                // interrupted the current label
                let i0 = i - 64;
                assert(t@[i - 1 - run] == '.');
                assert(i0 <= i - 1 - run <= i0 + 63);
                assert(window_has_dot(t@, i0));
            }
        }
    }
    // the final character ends the last label
    if run == 0 {
        assert(t@[m - 1] == '.');
        return false;
    }
    let last = t.get_char(m - 1);
    if !is_alphanumeric_char(last) {
        assert(label_end(t@, m as int - 1));
        return false;
    }
    proof {
        assert forall|k: int| 0 <= k < m && label_end(t@, k) implies char_is_alphanumeric(
            #[trigger] t@[k],
        ) by {
            if k == m - 1 {
            }
        }
    }
    true
}

/// A path-segment list without the empty segment a trailing slash
/// leaves behind.
pub open spec fn strip_empty_tail(s: Seq<Seq<char>>) -> Seq<Seq<char>> {
    if s.len() > 0 && s.last() == Seq::<char>::empty() {
        s.drop_last()
    } else {
        s
    }
}

/// A path-segment list without an existing `v1/events` or `v1` suffix.
pub open spec fn strip_api_suffix(s: Seq<Seq<char>>) -> Seq<Seq<char>> {
    if s.len() >= 2 && s[s.len() - 2] == "v1"@ && s.last() == "events"@ {
        s.drop_last().drop_last()
    } else if s.len() >= 1 && s.last() == "v1"@ {
        s.drop_last()
    } else {
        s
    }
}

/// The path segments of the events endpoint under a base path: any
/// trailing empty segment and any existing `v1` or `v1/events` suffix is
/// removed, then `v1` and `events` are appended.
pub open spec fn chronik_segments_spec(s: Seq<Seq<char>>) -> Seq<Seq<char>> {
    strip_api_suffix(strip_empty_tail(s)).push("v1"@).push("events"@)
}

/// Normalize a base path's segments to the events endpoint.
#[verifier::loop_isolation(false)]
pub fn chronik_api_segments(segments: &Vec<String>) -> (r: Vec<String>)
    ensures
        crate::policy::strs_model(r@) == chronik_segments_spec(
            crate::policy::strs_model(segments@),
        ),
{
    let ghost init = crate::policy::strs_model(segments@);
    let mut out: Vec<String> = Vec::new();
    let mut i: usize = 0;
    while i < segments.len()
        invariant
            i <= segments@.len(),
            out@.len() == i,
            forall|j: int| 0 <= j < i ==> out@[j]@ == segments@[j]@,
        decreases segments@.len() - i,
    {
        out.push(segments[i].clone());
        i += 1;
    }
    proof {
        assert(crate::policy::strs_model(out@) =~= init);
    }
    if out.len() > 0 && out[out.len() - 1].as_str().is_empty() {
        proof {
            assert(init.last() =~= Seq::<char>::empty());
        }
        out.pop();
    }
    let ghost cleaned = crate::policy::strs_model(out@);
    proof {
        assert(cleaned =~= strip_empty_tail(init));
    }
    let v1: String = "v1".to_owned();
    let events: String = "events".to_owned();
    if out.len() >= 2 && out[out.len() - 2] == v1 && out[out.len() - 1] == events {
        out.pop();
        out.pop();
    } else if out.len() >= 1 && out[out.len() - 1] == v1 {
        out.pop();
    }
    proof {
        assert(crate::policy::strs_model(out@) =~= strip_api_suffix(cleaned));
    }
    out.push(v1);
    out.push(events);
    proof {
        assert(crate::policy::strs_model(out@) =~= chronik_segments_spec(init));
    }
    out
}

/// One step of the ingest cursor protocol.
#[derive(Debug, Clone, Copy, PartialEq, Eq, Structural)]
pub enum IngestStep {
    /// The source claims more data but gave no cursor to resume from.
    MissingCursor,
    /// The source claims more data but the cursor did not move.
    Stalled,
    /// Ingestion continues from `cursor`; `has_more` says whether another
    /// batch should be fetched.
    Advance { cursor: u64, has_more: bool },
}

/// The cursor protocol: a missing cursor with more data pending, or a
/// cursor that did not move with more data pending, is a protocol error;
/// otherwise the cursor advances to the one returned, or stays at the
/// end of input.
pub open spec fn ingest_step_spec(cursor: u64, next_cursor: Option<u64>, has_more: bool)
    -> IngestStep {
    match next_cursor {
        None => if has_more {
            IngestStep::MissingCursor
        } else {
            IngestStep::Advance { cursor, has_more: false }
        },
        Some(nc) => if nc == cursor && has_more {
            IngestStep::Stalled
        } else {
            IngestStep::Advance { cursor: nc, has_more }
        },
    }
}

/// Decide how one fetched batch moves the ingest cursor.
pub fn ingest_step(cursor: u64, next_cursor: Option<u64>, has_more: bool) -> (r: IngestStep)
    ensures
        r == ingest_step_spec(cursor, next_cursor, has_more),
{
    match next_cursor {
        None => {
            if has_more {
                IngestStep::MissingCursor
            } else {
                IngestStep::Advance { cursor, has_more: false }
            }
        },
        Some(nc) => {
            if nc == cursor && has_more {
                IngestStep::Stalled
            } else {
                IngestStep::Advance { cursor: nc, has_more }
            }
        },
    }
}

} // verus!
