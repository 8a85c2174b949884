//! The candidate-extraction core: normalization of recognized frame text
//! and pattern matching for production-code-shaped substrings.
//!
//! Frame sampling, image decoding and character recognition happen outside
//! the library; this module takes the recognized text of each frame, in
//! frame order, and produces the ordered candidate list.

use vstd::prelude::*;

use crate::text;
use crate::text::is_ascii_letter;
use crate::text::is_digit_char;
use crate::text::is_space_char;

verus! {

// ---------------------------------------------------------------------------
// Normalization
// ---------------------------------------------------------------------------

/// The fixed confusable-character substitution that corrects a known
/// recognition bias against the font used for on-screen codes.
pub open spec fn confusable_char(c: char) -> char {
    if c == 'O' {
        '0'
    } else if c == 'I' {
        '1'
    } else if c == 'S' {
        '5'
    } else if c == '?' {
        'X'
    } else {
        c
    }
}

/// Recognized text, prepared for matching: all whitespace removed, then
/// each character passed through the confusable-character substitution.
pub open spec fn normalize_spec(s: Seq<char>) -> Seq<char>
    decreases s.len(),
{
    if s.len() == 0 {
        Seq::empty()
    } else {
        let rest = normalize_spec(s.drop_last());
        if is_space_char(s.last()) {
            rest
        } else {
            rest.push(confusable_char(s.last()))
        }
    }
}

fn exec_confusable_char(c: char) -> (r: char)
    ensures
        r == confusable_char(c),
{
    match c {
        'O' => '0',
        'I' => '1',
        'S' => '5',
        '?' => 'X',
        _ => c,
    }
}

/// Strips whitespace and applies the confusable-character substitution.
pub fn normalize_text(s: &Vec<char>) -> (r: Vec<char>)
    ensures
        r@ == normalize_spec(s@),
{
    let mut r: Vec<char> = Vec::new();
    let mut i: usize = 0;
    while i < s.len()
        invariant
            i <= s@.len(),
            r@ == normalize_spec(s@.take(i as int)),
        decreases s@.len() - i,
    {
        let ghost pre = s@.take(i as int);
        proof {
            assert(s@.take(i + 1 as int).drop_last() =~= pre);
            assert(s@.take(i + 1 as int).last() == s@[i as int]);
        }
        if !text::space_char(s[i]) {
            let c = exec_confusable_char(s[i]);
            r.push(c);
        }
        i += 1;
    }
    proof {
        assert(s@.take(s@.len() as int) =~= s@);
    }
    r
}

/// Normalization is idempotent: substituted characters are never
/// whitespace and pass through the substitution unchanged, so a second
/// pass changes nothing.
pub proof fn lemma_normalize_idempotent(s: Seq<char>)
    ensures
        normalize_spec(normalize_spec(s)) == normalize_spec(s),
    decreases s.len(),
{
    if s.len() > 0 {
        lemma_normalize_idempotent(s.drop_last());
        let rest = normalize_spec(s.drop_last());
        if !is_space_char(s.last()) {
            let c = confusable_char(s.last());
            assert(!is_space_char(c));
            assert(confusable_char(c) == c);
            assert((rest.push(c)).drop_last() =~= rest);
            assert(normalize_spec(rest.push(c)) == normalize_spec(rest).push(c));
        }
    }
}

// ---------------------------------------------------------------------------
// The production-code pattern
// ---------------------------------------------------------------------------
//
// A candidate has one of two shapes, tried in this order at each position:
//   - a digit, one to three ASCII letters, then two or three digits
//     (greedy: three letters before two, three digits before two), which
//     covers codes from 3X22-style early-season codes through later
//     6ABX08/1AYW01-style codes; or
//   - an optional literal `1`, a digit, a digit `0`..`3`, and a digit,
//     which covers purely numeric early codes.
// Scanning is left to right; matches do not overlap.

/// Length of the run of ASCII letters starting at `i`.
pub open spec fn letter_run(s: Seq<char>, i: int) -> int
    decreases s.len() - i,
{
    if i < 0 || i >= s.len() {
        0
    } else if is_ascii_letter(s[i]) {
        1 + letter_run(s, i + 1)
    } else {
        0
    }
}

/// Length of the run of ASCII digits starting at `i`.
pub open spec fn digit_run(s: Seq<char>, i: int) -> int
    decreases s.len() - i,
{
    if i < 0 || i >= s.len() {
        0
    } else if is_digit_char(s[i]) {
        1 + digit_run(s, i + 1)
    } else {
        0
    }
}

/// A digit `0` through `3`.
pub open spec fn is03_char(c: char) -> bool {
    48 <= c as u32 && c as u32 <= 51
}

/// Where a digit/letters/digits match starting at `i` would end.
pub open spec fn alt1_end(s: Seq<char>, i: int) -> Option<int> {
    if 0 <= i < s.len() && is_digit_char(s[i]) {
        let lr = letter_run(s, i + 1);
        if 1 <= lr <= 3 {
            let dr = digit_run(s, i + 1 + lr);
            if dr >= 3 {
                Some(i + 1 + lr + 3)
            } else if dr == 2 {
                Some(i + 1 + lr + 2)
            } else {
                None
            }
        } else {
            None
        }
    } else {
        None
    }
}

/// Where a numeric match starting at `i` would end; the optional leading
/// `1` is taken greedily.
pub open spec fn alt2_end(s: Seq<char>, i: int) -> Option<int> {
    if 0 <= i && i + 4 <= s.len() && s[i] == '1' && is_digit_char(s[i + 1]) && is03_char(s[i + 2])
        && is_digit_char(s[i + 3]) {
        Some(i + 4)
    } else if 0 <= i && i + 3 <= s.len() && is_digit_char(s[i]) && is03_char(s[i + 1])
        && is_digit_char(s[i + 2]) {
        Some(i + 3)
    } else {
        None
    }
}

/// Where a match starting at `i` would end: the letter shape is preferred
/// over the numeric shape.
pub open spec fn match_end(s: Seq<char>, i: int) -> Option<int> {
    if alt1_end(s, i) is Some {
        alt1_end(s, i)
    } else {
        alt2_end(s, i)
    }
}

proof fn lemma_letter_run_bounds(s: Seq<char>, i: int)
    ensures
        letter_run(s, i) >= 0,
        0 <= i <= s.len() ==> i + letter_run(s, i) <= s.len(),
    decreases s.len() - i,
{
    if 0 <= i < s.len() && is_ascii_letter(s[i]) {
        lemma_letter_run_bounds(s, i + 1);
    }
}

proof fn lemma_digit_run_bounds(s: Seq<char>, i: int)
    ensures
        digit_run(s, i) >= 0,
        0 <= i <= s.len() ==> i + digit_run(s, i) <= s.len(),
    decreases s.len() - i,
{
    if 0 <= i < s.len() && is_digit_char(s[i]) {
        lemma_digit_run_bounds(s, i + 1);
    }
}

/// A match never ends at or before its start and never runs past the text.
pub proof fn lemma_match_end_bounds(s: Seq<char>, i: int, j: int)
    requires
        0 <= i < s.len(),
        match_end(s, i) == Some(j),
    ensures
        i < j <= s.len(),
{
    lemma_letter_run_bounds(s, i + 1);
    if alt1_end(s, i) is Some {
        let lr = letter_run(s, i + 1);
        lemma_digit_run_bounds(s, i + 1 + lr);
    }
}

/// The candidates found scanning left to right from position `i`:
/// non-overlapping matches, each taken as a substring in text order.
pub open spec fn scan_from(s: Seq<char>, i: int) -> Seq<Seq<char>>
    decreases s.len() - i,
    via scan_from_decreases
{
    if i < 0 || i >= s.len() {
        Seq::empty()
    } else {
        match match_end(s, i) {
            Some(j) => seq![s.subrange(i, j)] + scan_from(s, j),
            None => scan_from(s, i + 1),
        }
    }
}

#[via_fn]
proof fn scan_from_decreases(s: Seq<char>, i: int) {
    if 0 <= i < s.len() {
        match match_end(s, i) {
            Some(j) => {
                lemma_match_end_bounds(s, i, j);
            },
            None => {},
        }
    }
}

/// All candidates of a normalized text.
pub open spec fn candidates_spec(t: Seq<char>) -> Seq<Seq<char>> {
    scan_from(normalize_spec(t), 0)
}

proof fn lemma_letter_run_exact(s: Seq<char>, p: int, k: int)
    requires
        0 <= p,
        p + k <= s.len(),
        k >= 0,
        forall|l: int| p <= l < p + k ==> is_ascii_letter(s[l]),
        p + k == s.len() || !is_ascii_letter(s[p + k]),
    ensures
        letter_run(s, p) == k,
    decreases k,
{
    if k > 0 {
        lemma_letter_run_exact(s, p + 1, k - 1);
    }
}

proof fn lemma_letter_run_at_least(s: Seq<char>, p: int, k: int)
    requires
        0 <= p,
        p + k <= s.len(),
        k >= 0,
        forall|l: int| p <= l < p + k ==> is_ascii_letter(s[l]),
    ensures
        letter_run(s, p) >= k,
    decreases k,
{
    lemma_letter_run_bounds(s, p);
    if k > 0 {
        assert(is_ascii_letter(s[p]));
        lemma_letter_run_at_least(s, p + 1, k - 1);
    }
}

proof fn lemma_digit_run_exact(s: Seq<char>, p: int, k: int)
    requires
        0 <= p,
        p + k <= s.len(),
        k >= 0,
        forall|l: int| p <= l < p + k ==> is_digit_char(s[l]),
        p + k == s.len() || !is_digit_char(s[p + k]),
    ensures
        digit_run(s, p) == k,
    decreases k,
{
    if k > 0 {
        lemma_digit_run_exact(s, p + 1, k - 1);
    }
}

proof fn lemma_digit_run_at_least(s: Seq<char>, p: int, k: int)
    requires
        0 <= p,
        p + k <= s.len(),
        k >= 0,
        forall|l: int| p <= l < p + k ==> is_digit_char(s[l]),
    ensures
        digit_run(s, p) >= k,
    decreases k,
{
    lemma_digit_run_bounds(s, p);
    if k > 0 {
        assert(is_digit_char(s[p]));
        lemma_digit_run_at_least(s, p + 1, k - 1);
    }
}

fn exec_is03(c: char) -> (r: bool)
    ensures
        r == is03_char(c),
{
    let u: u32 = c as u32;
    48 <= u && u <= 51
}

fn exec_alt2_end(s: &Vec<char>, i: usize) -> (r: Option<usize>)
    requires
        i < s@.len(),
    ensures
        match r {
            Some(j) => alt2_end(s@, i as int) == Some(j as int),
            None => alt2_end(s@, i as int) is None,
        },
{
    let n = s.len();
    if n - i >= 4 && s[i] == '1' && text::digit_char(s[i + 1]) && exec_is03(s[i + 2])
        && text::digit_char(s[i + 3]) {
        Some(i + 4)
    } else if n - i >= 3 && text::digit_char(s[i]) && exec_is03(s[i + 1]) && text::digit_char(
        s[i + 2],
    ) {
        Some(i + 3)
    } else {
        None
    }
}

fn exec_match_end(s: &Vec<char>, i: usize) -> (r: Option<usize>)
    requires
        i < s@.len(),
    ensures
        match r {
            Some(j) => match_end(s@, i as int) == Some(j as int) && i < j <= s@.len(),
            None => match_end(s@, i as int) is None,
        },
{
    let n = s.len();
    if text::digit_char(s[i]) {
        // Count the letter run after the leading digit, capped at four:
        // four or more letters cannot be part of a match.
        let p: usize = i + 1;
        let mut lr: usize = 0;
        while p + lr < n && lr < 4 && text::ascii_letter_char(s[p + lr])
            invariant
                i + 1 == p,
                p <= n,
                n == s@.len(),
                lr <= 4,
                p + lr <= n,
                forall|l: int| p <= l < p + lr ==> is_ascii_letter(s@[l]),
            decreases n - (p + lr) + (4 - lr),
        {
            lr += 1;
        }
        if lr == 4 {
            proof {
                lemma_letter_run_at_least(s@, p as int, 4);
            }
        } else {
            proof {
                lemma_letter_run_exact(s@, p as int, lr as int);
            }
        }
        if 1 <= lr && lr < 4 {
            // Count the digit run after the letters, capped at three.
            let q: usize = p + lr;
            let mut dr: usize = 0;
            while q + dr < n && dr < 3 && text::digit_char(s[q + dr])
                invariant
                    q == p + lr,
                    q <= n,
                    n == s@.len(),
                    dr <= 3,
                    q + dr <= n,
                    forall|l: int| q <= l < q + dr ==> is_digit_char(s@[l]),
                decreases n - (q + dr) + (3 - dr),
            {
                dr += 1;
            }
            if dr == 3 {
                proof {
                    lemma_digit_run_at_least(s@, q as int, 3);
                }
                return Some(q + 3);
            }
            proof {
                lemma_digit_run_exact(s@, q as int, dr as int);
            }
            if dr == 2 {
                return Some(q + 2);
            }
        }
    }
    // The letter shape does not match at i; try the numeric shape.
    proof {
        assert(alt1_end(s@, i as int) is None);
    }
    exec_alt2_end(s, i)
}

fn scan_codes(s: &Vec<char>) -> (r: Vec<String>)
    ensures
        r.deep_view() == scan_from(s@, 0),
{
    let mut out: Vec<String> = Vec::new();
    let mut i: usize = 0;
    while i < s.len()
        invariant
            i <= s@.len(),
            scan_from(s@, 0) == out.deep_view() + scan_from(s@, i as int),
        decreases s@.len() - i,
    {
        match exec_match_end(s, i) {
            Some(j) => {
                let mut sub: Vec<char> = Vec::new();
                let mut l: usize = i;
                while l < j
                    invariant
                        i <= l <= j <= s@.len(),
                        sub@ == s@.subrange(i as int, l as int),
                    decreases j - l,
                {
                    sub.push(s[l]);
                    proof {
                        assert(sub@ =~= s@.subrange(i as int, l + 1 as int));
                    }
                    l += 1;
                }
                let cand = text::string_of(&sub);
                let ghost pre = out.deep_view();
                out.push(cand);
                proof {
                    assert(out.deep_view() =~= pre.push(s@.subrange(i as int, j as int)));
                    assert(scan_from(s@, i as int) == seq![s@.subrange(i as int, j as int)]
                        + scan_from(s@, j as int));
                    assert(out.deep_view() + scan_from(s@, j as int) =~= pre + scan_from(
                        s@,
                        i as int,
                    ));
                }
                i = j;
            },
            None => {
                proof {
                    assert(scan_from(s@, i as int) == scan_from(s@, i + 1 as int));
                }
                i += 1;
            },
        }
    }
    proof {
        assert(scan_from(s@, s@.len() as int) =~= Seq::<Seq<char>>::empty());
        assert(out.deep_view() =~= scan_from(s@, 0));
    }
    out
}

/// The ordered candidates found in one frame's recognized text.
pub fn candidates_from_text(recognized: &str) -> (r: Vec<String>)
    ensures
        r.deep_view() == candidates_spec(recognized@),
{
    let chars = text::chars_of(recognized);
    let normalized = normalize_text(&chars);
    scan_codes(&normalized)
}

/// All candidates of a sequence of frame texts, in frame order.
pub open spec fn all_candidates_spec(ts: Seq<Seq<char>>) -> Seq<Seq<char>>
    decreases ts.len(),
{
    if ts.len() == 0 {
        Seq::empty()
    } else {
        all_candidates_spec(ts.drop_last()) + candidates_spec(ts.last())
    }
}

/// The ordered production-code candidates of a video: the recognized text
/// of each sampled frame, in frame order, is normalized and scanned, and
/// the matches are concatenated. A frame may contribute zero, one or
/// several candidates; the result may be empty.
pub fn extract_production_code_candidates(frame_texts: &Vec<String>) -> (r: Vec<String>)
    ensures
        r.deep_view() == all_candidates_spec(frame_texts.deep_view()),
{
    let mut out: Vec<String> = Vec::new();
    let mut t: usize = 0;
    while t < frame_texts.len()
        invariant
            t <= frame_texts@.len(),
            out.deep_view() == all_candidates_spec(frame_texts.deep_view().take(t as int)),
        decreases frame_texts@.len() - t,
    {
        let cands = candidates_from_text(frame_texts[t].as_str());
        let ghost mid = out.deep_view();
        let mut k: usize = 0;
        while k < cands.len()
            invariant
                k <= cands@.len(),
                cands.deep_view() == candidates_spec(frame_texts.deep_view()[t as int]),
                t < frame_texts@.len(),
                out.deep_view() == mid + cands.deep_view().take(k as int),
            decreases cands@.len() - k,
        {
            let ghost pre = out.deep_view();
            out.push(cands[k].clone());
            proof {
                assert(out.deep_view() =~= pre.push(cands.deep_view()[k as int]));
                assert(out.deep_view() =~= mid + cands.deep_view().take(k + 1 as int));
            }
            k += 1;
        }
        proof {
            assert(cands.deep_view().take(cands@.len() as int) =~= cands.deep_view());
            let tv = frame_texts.deep_view();
            assert(tv.take(t + 1 as int).drop_last() =~= tv.take(t as int));
            assert(tv.take(t + 1 as int).last() == tv[t as int]);
            assert(out.deep_view() =~= all_candidates_spec(tv.take(t + 1 as int)));
        }
        t += 1;
    }
    proof {
        assert(frame_texts.deep_view().take(frame_texts@.len() as int) =~= frame_texts.deep_view());
    }
    out
}

} // verus!
