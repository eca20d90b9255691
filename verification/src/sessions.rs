//! Finding trace sessions left behind by earlier runs in the listing that
//! the system's session tool prints.
use vstd::prelude::*;
use crate::text::{chars_of, has_prefix, has_prefix_at, is_whitespace, is_whitespace_char, string_views};

verus! {

broadcast use vstd::string::group_string_axioms;

/// Name (and name prefix) of the trace sessions this program starts.
pub const SESSION_NAME: &'static str = "Trafmon-NetProc";

/// Index of the first line feed at or after `i`, or the length of `s`.
pub open spec fn newline_from(s: Seq<char>, i: int) -> int
    decreases s.len() - i,
{
    if i < 0 || i >= s.len() {
        s.len() as int
    } else if s[i] == '\n' {
        i
    } else {
        newline_from(s, i + 1)
    }
}

/// Index of the first non-whitespace character in `[i, end)`, or `end`.
pub open spec fn skip_ws_to(s: Seq<char>, i: int, end: int) -> int
    decreases end - i,
{
    if i < 0 || i >= end {
        end
    } else if is_whitespace_char(s[i]) {
        skip_ws_to(s, i + 1, end)
    } else {
        i
    }
}

/// Index of the first whitespace character in `[i, end)`, or `end`.
pub open spec fn token_end_to(s: Seq<char>, i: int, end: int) -> int
    decreases end - i,
{
    if i < 0 || i >= end {
        end
    } else if is_whitespace_char(s[i]) {
        i
    } else {
        token_end_to(s, i + 1, end)
    }
}

/// The first whitespace-separated word of the line `s[start..end)` (empty
/// when the line is blank).
pub open spec fn first_word(s: Seq<char>, start: int, end: int) -> Seq<char> {
    let a = skip_ws_to(s, start, end);
    s.subrange(a, token_end_to(s, a, end))
}

pub proof fn lemma_newline_from_bounds(s: Seq<char>, i: int)
    requires
        0 <= i <= s.len(),
    ensures
        i <= newline_from(s, i) <= s.len(),
        newline_from(s, i) < s.len() ==> s[newline_from(s, i)] == '\n',
    decreases s.len() - i,
{
    if i < s.len() && s[i] != '\n' {
        lemma_newline_from_bounds(s, i + 1);
    }
}

pub proof fn lemma_skip_ws_bounds(s: Seq<char>, i: int, end: int)
    requires
        0 <= i <= end,
    ensures
        i <= skip_ws_to(s, i, end) <= end,
    decreases end - i,
{
    if i < end && is_whitespace_char(s[i]) {
        lemma_skip_ws_bounds(s, i + 1, end);
    }
}

pub proof fn lemma_token_end_bounds(s: Seq<char>, i: int, end: int)
    requires
        0 <= i <= end,
    ensures
        i <= token_end_to(s, i, end) <= end,
    decreases end - i,
{
    if i < end && !is_whitespace_char(s[i]) {
        lemma_token_end_bounds(s, i + 1, end);
    }
}

/// The first words, from the line starting at `pos` on, that begin with the
/// session name: one per line (lines end at a line feed), in order.
pub open spec fn stale_from(s: Seq<char>, pos: int) -> Seq<Seq<char>>
    decreases s.len() + 1 - pos,
    via stale_from_decreases
{
    if pos < 0 || pos >= s.len() {
        Seq::empty()
    } else {
        let k = newline_from(s, pos);
        let word = first_word(s, pos, k);
        let here = if has_prefix(word, SESSION_NAME@) {
            seq![word]
        } else {
            Seq::empty()
        };
        here + stale_from(s, k + 1)
    }
}

#[via_fn]
proof fn stale_from_decreases(s: Seq<char>, pos: int) {
    if 0 <= pos < s.len() {
        lemma_newline_from_bounds(s, pos);
    }
}

/// Names of this program's sessions in the tool's listing `text`: of each
/// line, the first whitespace-separated word when it begins with the session
/// name, in order.
pub fn stale_session_names(text: &str) -> (r: Vec<String>)
    ensures
        string_views(r@) == stale_from(text@, 0),
{
    let s = chars_of(text);
    let prefix = chars_of(SESSION_NAME);
    let n = s.len();
    let mut out: Vec<String> = Vec::new();
    let mut pos: usize = 0;
    while pos < n
        invariant
            n == s@.len(),
            s@ == text@,
            prefix@ == SESSION_NAME@,
            pos <= n,
            string_views(out@) + stale_from(s@, pos as int) == stale_from(s@, 0),
        decreases n - pos,
    {
        let mut k: usize = pos;
        while k < n && s[k] != '\n'
            invariant
                n == s@.len(),
                pos <= k <= n,
                newline_from(s@, k as int) == newline_from(s@, pos as int),
            decreases n - k,
        {
            k = k + 1;
        }
        let mut a: usize = pos;
        while a < k && is_whitespace(s[a])
            invariant
                n == s@.len(),
                pos <= a <= k <= n,
                skip_ws_to(s@, a as int, k as int) == skip_ws_to(s@, pos as int, k as int),
            decreases k - a,
        {
            a = a + 1;
        }
        let mut b: usize = a;
        while b < k && !is_whitespace(s[b])
            invariant
                n == s@.len(),
                a <= b <= k <= n,
                token_end_to(s@, b as int, k as int) == token_end_to(s@, a as int, k as int),
            decreases k - b,
        {
            b = b + 1;
        }
        let ghost word = s@.subrange(a as int, b as int);
        let ghost before = out@;
        proof {
            assert(word == first_word(s@, pos as int, k as int));
        }
        let mut is_ours = false;
        if b - a >= prefix.len() {
            let hit = has_prefix_at(&s, a, &prefix);
            proof {
                let tail = s@.subrange(a as int, n as int);
                assert(tail.subrange(0, prefix@.len() as int) =~= word.subrange(0, prefix@.len() as int));
            }
            is_ours = hit;
        }
        if is_ours {
            let w = text.substring_char(a, b).to_string();
            out.push(w);
            proof {
                assert(string_views(out@) =~= string_views(before).push(word));
            }
        }
        proof {
            assert(is_ours == has_prefix(word, SESSION_NAME@));
            if is_ours {
                assert(string_views(out@) + stale_from(s@, k + 1) =~= string_views(before) + (seq![word] + stale_from(s@, k + 1)));
            } else {
                assert(string_views(out@) =~= string_views(before));
                assert(Seq::<Seq<char>>::empty() + stale_from(s@, k + 1) =~= stale_from(s@, k + 1));
            }
        }
        if k < n {
            pos = k + 1;
        } else {
            pos = n;
        }
    }
    proof {
        assert(stale_from(s@, pos as int) =~= Seq::<Seq<char>>::empty());
        assert(string_views(out@) =~= string_views(out@) + Seq::<Seq<char>>::empty());
    }
    out
}

/// `w` holds no whitespace character.
pub open spec fn is_single_word(w: Seq<char>) -> bool {
    forall|j: int| 0 <= j < w.len() ==> !is_whitespace_char(#[trigger] w[j])
}

proof fn lemma_token_has_no_whitespace(s: Seq<char>, i: int, end: int)
    requires
        0 <= i <= end <= s.len(),
    ensures
        forall|j: int| i <= j < token_end_to(s, i, end) ==> !is_whitespace_char(#[trigger] s[j]),
    decreases end - i,
{
    if i < end && !is_whitespace_char(s[i]) {
        lemma_token_has_no_whitespace(s, i + 1, end);
    }
}

/// Every name found is a single word that begins with the session name.
pub proof fn lemma_found_names_are_ours(s: Seq<char>, pos: int)
    requires
        0 <= pos,
    ensures
        forall|i: int|
            0 <= i < stale_from(s, pos).len() ==> has_prefix(#[trigger] stale_from(s, pos)[i], SESSION_NAME@)
                && is_single_word(stale_from(s, pos)[i]),
    decreases s.len() + 1 - pos,
{
    if pos < s.len() {
        lemma_newline_from_bounds(s, pos);
        let k = newline_from(s, pos);
        let a = skip_ws_to(s, pos, k);
        lemma_skip_ws_bounds(s, pos, k);
        lemma_token_end_bounds(s, a, k);
        lemma_token_has_no_whitespace(s, a, k);
        let word = first_word(s, pos, k);
        assert(is_single_word(word)) by {
            assert forall|j: int| 0 <= j < word.len() implies !is_whitespace_char(#[trigger] word[j]) by {
                assert(word[j] == s[a + j]);
            }
        }
        lemma_found_names_are_ours(s, k + 1);
        let here = if has_prefix(word, SESSION_NAME@) {
            seq![word]
        } else {
            Seq::<Seq<char>>::empty()
        };
        let rest = stale_from(s, k + 1);
        assert(stale_from(s, pos) == here + rest);
        assert forall|i: int| 0 <= i < stale_from(s, pos).len() implies has_prefix(
            #[trigger] stale_from(s, pos)[i],
            SESSION_NAME@,
        ) && is_single_word(stale_from(s, pos)[i]) by {
            if i < here.len() {
                assert(stale_from(s, pos)[i] == word);
            } else {
                assert(stale_from(s, pos)[i] == rest[i - here.len()]);
            }
        }
    }
}

proof fn lemma_newline_from_first(s: Seq<char>, i: int, j: int)
    requires
        0 <= i <= j < s.len(),
        s[j] == '\n',
    ensures
        newline_from(s, i) <= j,
    decreases j - i,
{
    if s[i] != '\n' {
        lemma_newline_from_first(s, i + 1, j);
    }
}

proof fn lemma_session_line_found_from(s: Seq<char>, q: int, p: int)
    requires
        0 <= q <= p < s.len(),
        q == 0 || s[q - 1] == '\n',
        p == 0 || s[p - 1] == '\n',
        has_prefix(first_word(s, p, newline_from(s, p)), SESSION_NAME@),
    ensures
        stale_from(s, q).contains(first_word(s, p, newline_from(s, p))),
    decreases p - q,
{
    let word = first_word(s, p, newline_from(s, p));
    let k = newline_from(s, q);
    lemma_newline_from_bounds(s, q);
    let here = if has_prefix(first_word(s, q, k), SESSION_NAME@) {
        seq![first_word(s, q, k)]
    } else {
        Seq::<Seq<char>>::empty()
    };
    assert(stale_from(s, q) == here + stale_from(s, k + 1));
    if q == p {
        assert((here + stale_from(s, k + 1))[0] == word);
    } else {
        lemma_newline_from_first(s, q, p - 1);
        lemma_session_line_found_from(s, k + 1, p);
        let t = stale_from(s, k + 1);
        let j = choose|j: int| 0 <= j < t.len() && t[j] == word;
        assert((here + t)[here.len() + j] == word);
    }
}

/// Every line counts, wherever it stands: for each line of the listing (a
/// line starts at the beginning or right after a line feed) whose first
/// whitespace-separated word begins with the session name, that word is among
/// the names found, whatever lines (blank ones too) come before it.
pub proof fn lemma_every_session_line_found(s: Seq<char>, p: int)
    requires
        0 <= p < s.len(),
        p == 0 || s[p - 1] == '\n',
        has_prefix(first_word(s, p, newline_from(s, p)), SESSION_NAME@),
    ensures
        stale_from(s, 0).contains(first_word(s, p, newline_from(s, p))),
{
    lemma_session_line_found_from(s, 0, p);
}

} // verus!
