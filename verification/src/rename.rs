//! Pure filename generation and collision avoidance for matched episodes.

use vstd::prelude::*;

use crate::text;
use crate::text::dec_rep;
use crate::text::lower_of;
use crate::text::pad2_spec;
use crate::text::trim_spec;

verus! {

use vstd::string::StrSliceExecFns;
use vstd::string::StringExecFns;

// ---------------------------------------------------------------------------
// Sanitization and filename generation
// ---------------------------------------------------------------------------

/// The characters a filename cannot hold.
pub open spec fn is_invalid_filename_char(c: char) -> bool {
    c == '/' || c == '\\' || c == ':' || c == '*' || c == '?' || c == '"' || c == '<' || c == '>'
        || c == '|'
}

/// Replaces a character a filename cannot hold with `-`.
pub open spec fn sanitize_char(c: char) -> char {
    if is_invalid_filename_char(c) {
        '-'
    } else {
        c
    }
}

/// Character-wise sanitization of a whole name.
pub open spec fn sanitize_map(s: Seq<char>) -> Seq<char> {
    s.map_values(|c: char| sanitize_char(c))
}

/// Sanitization: invalid filename characters become `-`, surrounding
/// whitespace is trimmed.
pub open spec fn sanitize_spec(s: Seq<char>) -> Seq<char> {
    trim_spec(sanitize_map(s))
}

fn exec_sanitize_char(c: char) -> (r: char)
    ensures
        r == sanitize_char(c),
{
    match c {
        '/' | '\\' | ':' | '*' | '?' | '"' | '<' | '>' | '|' => '-',
        _ => c,
    }
}

/// A sanitized name holds no character a filename cannot hold.
pub proof fn lemma_sanitize_removes_invalid_chars(s: Seq<char>)
    ensures
        forall|i: int|
            0 <= i < sanitize_spec(s).len() ==> !is_invalid_filename_char(
                #[trigger] sanitize_spec(s)[i],
            ),
{
    let m = sanitize_map(s);
    assert forall|i: int| 0 <= i < m.len() implies !is_invalid_filename_char(
        #[trigger] m[i],
    ) by {
        assert(m[i] == sanitize_char(s[i]));
    }
    text::lemma_trim_start_preserves(m, |c: char| !is_invalid_filename_char(c));
    text::lemma_trim_end_preserves(
        crate::text::trim_start_spec(m),
        |c: char| !is_invalid_filename_char(c),
    );
}

/// Replaces the characters `/ \ : * ? " < > |` with `-` and trims
/// surrounding whitespace.
pub fn sanitize_filename(name: &str) -> (r: String)
    ensures
        r@ == sanitize_spec(name@),
{
    let chars = text::chars_of(name);
    let mut mapped: Vec<char> = Vec::new();
    let mut i: usize = 0;
    while i < chars.len()
        invariant
            i <= chars@.len(),
            chars@ == name@,
            mapped@ == sanitize_map(name@.take(i as int)),
        decreases chars@.len() - i,
    {
        let c = exec_sanitize_char(chars[i]);
        mapped.push(c);
        proof {
            assert(mapped@ =~= sanitize_map(name@.take(i + 1 as int)));
        }
        i += 1;
    }
    proof {
        assert(name@.take(name@.len() as int) =~= name@);
    }
    let trimmed = text::trim_chars(&mapped);
    text::string_of(&trimmed)
}

/// The generated file name:
/// `<sanitized show> - S<season:02>E<episode:02> - <sanitized title>.mkv`.
pub open spec fn generate_filename_spec(
    show: Seq<char>,
    season: u64,
    episode: u64,
    title: Seq<char>,
) -> Seq<char> {
    sanitize_spec(show) + " - S"@ + pad2_spec(season as nat) + "E"@ + pad2_spec(episode as nat)
        + " - "@ + sanitize_spec(title) + ".mkv"@
}

/// Builds the new file name for a matched episode.
pub fn generate_filename(show_name: &str, season: u64, episode: u64, episode_title: &str) -> (r:
    String)
    ensures
        r@ == generate_filename_spec(show_name@, season, episode, episode_title@),
{
    let mut r = sanitize_filename(show_name);
    r.append(" - S");
    let s_pad = text::u64_to_dec_pad2(season);
    r.append(s_pad.as_str());
    r.append("E");
    let e_pad = text::u64_to_dec_pad2(episode);
    r.append(e_pad.as_str());
    r.append(" - ");
    let t = sanitize_filename(episode_title);
    r.append(t.as_str());
    r.append(".mkv");
    proof {
        assert(r@ =~= generate_filename_spec(show_name@, season, episode, episode_title@));
    }
    r
}

// ---------------------------------------------------------------------------
// Collision avoidance
// ---------------------------------------------------------------------------

/// The index of the last `.` in the name, or `-1` if there is none.
pub open spec fn last_dot(s: Seq<char>) -> int
    decreases s.len(),
{
    if s.len() == 0 {
        -1
    } else if s.last() == '.' {
        s.len() - 1
    } else {
        last_dot(s.drop_last())
    }
}

/// The stem of a file name: what stands before the extension. A name
/// without an extension is its own stem; the empty name gets the fallback
/// stem `file`.
pub open spec fn stem_spec(s: Seq<char>) -> Seq<char> {
    if s.len() == 0 {
        "file"@
    } else if last_dot(s) > 0 {
        s.take(last_dot(s))
    } else {
        s
    }
}

/// The extension of a file name, `mkv` when it has none.
pub open spec fn ext_spec(s: Seq<char>) -> Seq<char> {
    if last_dot(s) > 0 {
        s.skip(last_dot(s) + 1)
    } else {
        "mkv"@
    }
}

/// The `n`-th collision-avoiding variant of a base name: `" [copy n]"` is
/// placed before the extension.
pub open spec fn copy_name_spec(base: Seq<char>, n: nat) -> Seq<char> {
    stem_spec(base) + " [copy "@ + dec_rep(n) + "]."@ + ext_spec(base)
}

/// A candidate name cannot be used when it is already present in the
/// directory and is not the very file being renamed.
pub open spec fn name_taken(existing: Seq<Seq<char>>, old_name: Seq<char>, name: Seq<char>) -> bool {
    existing.contains(name) && name != old_name
}

fn is_taken(existing: &Vec<String>, old_name: &str, name: &str) -> (r: bool)
    ensures
        r == name_taken(existing.deep_view(), old_name@, name@),
{
    if text::str_eq(name, old_name) {
        return false;
    }
    let n = existing.len();
    let mut i: usize = 0;
    while i < n
        invariant
            i <= n,
            n == existing@.len(),
            name@ != old_name@,
            forall|j: int| 0 <= j < i ==> existing.deep_view()[j] != name@,
        decreases n - i,
    {
        if text::str_eq(existing[i].as_str(), name) {
            proof {
                assert(existing.deep_view()[i as int] == name@);
                assert(existing.deep_view().contains(name@));
            }
            return true;
        }
        i += 1;
    }
    proof {
        assert(forall|j: int| 0 <= j < existing.deep_view().len() ==> existing.deep_view()[j]
            != name@);
    }
    false
}

proof fn lemma_last_dot_none_after(s: Seq<char>, j: int)
    requires
        0 <= j <= s.len(),
        forall|l: int| j <= l < s.len() ==> s[l] != '.',
    ensures
        last_dot(s) == last_dot(s.take(j)),
    decreases s.len() - j,
{
    if j < s.len() {
        assert(s.last() != '.');
        assert(s.drop_last() =~= s.take(s.len() - 1));
        lemma_last_dot_none_after(s.take(s.len() - 1), j);
        assert(s.take(s.len() - 1).take(j) =~= s.take(j));
    } else {
        assert(s.take(j) =~= s);
    }
}

fn split_base(base: &Vec<char>) -> (r: (Vec<char>, Vec<char>))
    ensures
        r.0@ == stem_spec(base@),
        r.1@ == ext_spec(base@),
{
    let n = base.len();
    let mut j: usize = n;
    while j > 0 && base[j - 1] != '.'
        invariant
            j <= n,
            n == base@.len(),
            forall|l: int| j <= l < n ==> base@[l] != '.',
        decreases j,
    {
        j -= 1;
    }
    proof {
        lemma_last_dot_none_after(base@, j as int);
        if j > 0 {
            let t = base@.take(j as int);
            assert(t.last() == base@[j - 1]);
            assert(last_dot(t) == j - 1);
        } else {
            assert(base@.take(0) =~= Seq::<char>::empty());
        }
    }
    if j > 1 {
        // A dot stands at j - 1 and something before it: split there.
        let mut stem: Vec<char> = Vec::new();
        let mut i: usize = 0;
        while i < j - 1
            invariant
                i <= j - 1 < n,
                n == base@.len(),
                stem@ == base@.take(i as int),
            decreases j - i,
        {
            stem.push(base[i]);
            proof {
                assert(stem@ =~= base@.take(i + 1 as int));
            }
            i += 1;
        }
        let mut ext: Vec<char> = Vec::new();
        let mut l: usize = j;
        while l < n
            invariant
                j <= l <= n,
                n == base@.len(),
                ext@ == base@.subrange(j as int, l as int),
            decreases n - l,
        {
            ext.push(base[l]);
            proof {
                assert(ext@ =~= base@.subrange(j as int, l + 1 as int));
            }
            l += 1;
        }
        proof {
            assert(last_dot(base@) == j - 1);
            assert(stem@ =~= base@.take(last_dot(base@)));
            assert(ext@ =~= base@.skip(last_dot(base@) + 1));
        }
        (stem, ext)
    } else {
        // No usable extension: the whole name is the stem (or the fallback
        // stem for the empty name) and the extension defaults to mkv.
        let stem: Vec<char> = if n == 0 {
            let mut v: Vec<char> = Vec::new();
            v.push('f');
            v.push('i');
            v.push('l');
            v.push('e');
            proof {
                reveal_strlit("file");
                assert(v@ =~= "file"@);
            }
            v
        } else {
            let mut v: Vec<char> = Vec::new();
            let mut i: usize = 0;
            while i < n
                invariant
                    i <= n,
                    n == base@.len(),
                    v@ == base@.take(i as int),
                decreases n - i,
            {
                v.push(base[i]);
                proof {
                    assert(v@ =~= base@.take(i + 1 as int));
                }
                i += 1;
            }
            proof {
                assert(base@.take(n as int) =~= base@);
            }
            v
        };
        let mut ext: Vec<char> = Vec::new();
        ext.push('m');
        ext.push('k');
        ext.push('v');
        proof {
            reveal_strlit("mkv");
            assert(ext@ =~= "mkv"@);
            assert(last_dot(base@) <= 0);
        }
        (stem, ext)
    }
}

fn copy_name(stem: &Vec<char>, ext: &Vec<char>, n: u64) -> (r: String)
    ensures
        r@ == stem@ + " [copy "@ + dec_rep(n as nat) + "]."@ + ext@,
{
    let mut chars: Vec<char> = Vec::new();
    chars.extend_from_slice(stem.as_slice());
    let infix = text::chars_of(" [copy ");
    chars.extend_from_slice(infix.as_slice());
    let digits = text::dec_chars(n);
    chars.extend_from_slice(digits.as_slice());
    let close = text::chars_of("].");
    chars.extend_from_slice(close.as_slice());
    chars.extend_from_slice(ext.as_slice());
    proof {
        assert(chars@ =~= stem@ + " [copy "@ + dec_rep(n as nat) + "]."@ + ext@);
    }
    text::string_of(&chars)
}

/// Distinct copy numbers give distinct names.
proof fn lemma_copy_name_injective(base: Seq<char>, m: nat, n: nat)
    requires
        m != n,
    ensures
        copy_name_spec(base, m) != copy_name_spec(base, n),
{
    text::lemma_dec_val_of_rep(m);
    text::lemma_dec_val_of_rep(n);
    let dm = dec_rep(m);
    let dn = dec_rep(n);
    assert(dm != dn);
    let a = stem_spec(base) + " [copy "@;
    let sm = copy_name_spec(base, m);
    let sn = copy_name_spec(base, n);
    if dm.len() == dn.len() {
        assert(exists|i: int| 0 <= i < dm.len() && dm[i] != dn[i]) by {
            if forall|i: int| 0 <= i < dm.len() ==> dm[i] == dn[i] {
                assert(dm =~= dn);
            }
        }
        let i = choose|i: int| 0 <= i < dm.len() && dm[i] != dn[i];
        assert(sm[a.len() + i] == dm[i]);
        assert(sn[a.len() + i] == dn[i]);
        assert(sm[a.len() + i] != sn[a.len() + i]);
    } else {
        assert(sm.len() != sn.len());
    }
}

/// Picks a free file name: the candidate itself when it is not taken (in
/// particular when it names the very file being renamed), else the first
/// `" [copy n]"` variant, counting from one, that is not taken.
///
/// `old_name` is the name of the file being renamed, `existing` the names
/// already present in the target directory, `base_filename` the candidate.
pub fn find_unique_filename(old_name: &str, existing: &Vec<String>, base_filename: &str) -> (r:
    String)
    requires
        existing@.len() < usize::MAX,
    ensures
        !name_taken(existing.deep_view(), old_name@, base_filename@) ==> r@ == base_filename@,
        name_taken(existing.deep_view(), old_name@, base_filename@) ==> exists|n: nat|
            1 <= n && r@ == copy_name_spec(base_filename@, n) && !name_taken(
                existing.deep_view(),
                old_name@,
                copy_name_spec(base_filename@, n),
            ) && (forall|m: nat|
                1 <= m < n ==> name_taken(
                    existing.deep_view(),
                    old_name@,
                    copy_name_spec(base_filename@, m),
                )),
{
    let ghost ev = existing.deep_view();
    if !is_taken(existing, old_name, base_filename) {
        return base_filename.to_owned();
    }
    let base_chars = text::chars_of(base_filename);
    let (stem, ext) = split_base(&base_chars);
    let mut n: u64 = 1;
    let ghost mut tried: Set<Seq<char>> = Set::empty();
    loop
        invariant
            existing.deep_view() == ev,
            ev.len() == existing@.len() < usize::MAX,
            stem@ == stem_spec(base_filename@),
            ext@ == ext_spec(base_filename@),
            name_taken(ev, old_name@, base_filename@),
            1 <= n,
            n - 1 <= ev.len(),
            tried.finite(),
            tried.len() == n - 1,
            forall|m: nat| 1 <= m < n ==> name_taken(ev, old_name@, copy_name_spec(base_filename@, m)),
            forall|m: nat| 1 <= m < n ==> tried.contains(copy_name_spec(base_filename@, m)),
            forall|x: Seq<char>| tried.contains(x) ==> ev.contains(x),
            forall|x: Seq<char>| tried.contains(x) ==> exists|m: nat|
                1 <= m < n && x == copy_name_spec(base_filename@, m),
        decreases ev.len() + 1 - n,
    {
        let name = copy_name(&stem, &ext, n);
        proof {
            assert(name@ == copy_name_spec(base_filename@, n as nat));
        }
        if !is_taken(existing, old_name, name.as_str()) {
            proof {
                assert(1 <= n as nat && name@ == copy_name_spec(base_filename@, n as nat)
                    && !name_taken(ev, old_name@, copy_name_spec(base_filename@, n as nat)));
            }
            return name;
        }
        proof {
            // The new name differs from every name tried so far, so the
            // tried set grows; it stays inside the directory listing, which
            // bounds the number of iterations.
            assert(!tried.contains(name@)) by {
                if tried.contains(name@) {
                    let m = choose|m: nat|
                        1 <= m < n && name@ == copy_name_spec(base_filename@, m);
                    lemma_copy_name_injective(base_filename@, m, n as nat);
                }
            }
            tried = tried.insert(name@);
            assert(tried.len() == n);
            vstd::seq_lib::seq_to_set_is_finite::<Seq<char>>(ev);
            assert(tried.subset_of(ev.to_set())) by {
                assert(forall|x: Seq<char>| tried.contains(x) ==> ev.contains(x));
                assert(forall|x: Seq<char>| ev.contains(x) ==> ev.to_set().contains(x));
            }
            ev.lemma_cardinality_of_set();
            vstd::set_lib::lemma_len_subset(tried, ev.to_set());
            assert(n <= ev.len());
        }
        n += 1;
    }
}

// ---------------------------------------------------------------------------
// Rename confirmation
// ---------------------------------------------------------------------------

/// How an operator's answer to the rename prompt is read: `y`/`yes` accept,
/// `n`/`no` and the empty answer decline, anything else asks again. The
/// answer is trimmed and case-folded first.
pub open spec fn confirmation_spec(input: Seq<char>) -> Option<bool> {
    let t = lower_of(trim_spec(input));
    if t == "y"@ || t == "yes"@ {
        Some(true)
    } else if t == "n"@ || t == "no"@ || t.len() == 0 {
        Some(false)
    } else {
        None
    }
}

/// Interprets one line of operator input at the rename prompt.
pub fn interpret_confirmation(input: &str) -> (r: Option<bool>)
    ensures
        r == confirmation_spec(input@),
{
    let chars = text::chars_of(input);
    let trimmed = text::trim_chars(&chars);
    let trimmed_str = text::string_of(&trimmed);
    let folded = text::lowercase(trimmed_str.as_str());
    if text::str_eq(folded.as_str(), "y") || text::str_eq(folded.as_str(), "yes") {
        Some(true)
    } else if text::str_eq(folded.as_str(), "n") || text::str_eq(folded.as_str(), "no")
        || folded.as_str().unicode_len() == 0 {
        Some(false)
    } else {
        None
    }
}

} // verus!
