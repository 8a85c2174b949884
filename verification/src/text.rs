//! Character classification, string comparison, trimming and decimal
//! formatting used throughout the library.

use vstd::prelude::*;

verus! {

use vstd::string::StrSliceExecFns;

// ---------------------------------------------------------------------------
// Character classes
// ---------------------------------------------------------------------------

/// ASCII decimal digit `0`..`9`.
pub open spec fn is_digit_char(c: char) -> bool {
    48 <= c as u32 && c as u32 <= 57
}

/// Numeric value of an ASCII digit.
pub open spec fn digit_val(c: char) -> u64
    recommends
        is_digit_char(c),
{
    (c as u32 - 48) as u64
}

/// ASCII letter `A`..`Z` or `a`..`z`.
pub open spec fn is_ascii_letter(c: char) -> bool {
    (65 <= c as u32 && c as u32 <= 90) || (97 <= c as u32 && c as u32 <= 122)
}

/// The Unicode `White_Space` code points; the set `char::is_whitespace`
/// accepts and `str::trim` removes at either end.
pub open spec fn is_space_char(c: char) -> bool {
    (9 <= c as u32 && c as u32 <= 13) || c as u32 == 32 || c as u32 == 133 || c as u32 == 160
        || c as u32 == 0x1680 || (0x2000 <= c as u32 && c as u32 <= 0x200A) || c as u32 == 0x2028
        || c as u32 == 0x2029 || c as u32 == 0x202F || c as u32 == 0x205F || c as u32 == 0x3000
}

pub fn digit_char(c: char) -> (r: bool)
    ensures
        r == is_digit_char(c),
{
    let u: u32 = c as u32;
    48 <= u && u <= 57
}

pub fn digit_value(c: char) -> (r: u64)
    requires
        is_digit_char(c),
    ensures
        r == digit_val(c),
{
    (c as u32 - 48) as u64
}

pub fn ascii_letter_char(c: char) -> (r: bool)
    ensures
        r == is_ascii_letter(c),
{
    let u: u32 = c as u32;
    (65 <= u && u <= 90) || (97 <= u && u <= 122)
}

pub fn space_char(c: char) -> (r: bool)
    ensures
        r == is_space_char(c),
{
    let u: u32 = c as u32;
    (9 <= u && u <= 13) || u == 32 || u == 133 || u == 160 || u == 0x1680
        || (0x2000 <= u && u <= 0x200A) || u == 0x2028 || u == 0x2029 || u == 0x202F
        || u == 0x205F || u == 0x3000
}

// ---------------------------------------------------------------------------
// Trusted items: the two Unicode tables this library does not restate
// ---------------------------------------------------------------------------

/// What `str::to_lowercase` returns for a given character sequence; the
/// result depends on the characters alone.
pub uninterp spec fn lower_of(s: Seq<char>) -> Seq<char>;

/// Relies on `str::to_lowercase`: the Unicode lowercase equivalent of the
/// string, a function of its characters alone.
#[verifier::external_body]
pub(crate) fn lowercase(s: &str) -> (r: String)
    ensures
        r@ == lower_of(s@),
{
    s.to_lowercase()
}

/// What `char::is_alphanumeric` returns for a given character.
pub uninterp spec fn char_is_alphanumeric(c: char) -> bool;

/// Relies on `char::is_alphanumeric`: whether the character has one of the
/// Unicode `Alphabetic`, `Nd`, `Nl` or `No` properties; a function of the
/// character alone.
#[verifier::external_body]
pub(crate) fn alphanumeric_char(c: char) -> (r: bool)
    ensures
        r == char_is_alphanumeric(c),
{
    c.is_alphanumeric()
}

/// Relies on `String::push`: appends the character to the end of the string.
#[verifier::external_body]
pub(crate) fn push_char(s: &mut String, c: char)
    ensures
        final(s)@ == old(s)@.push(c),
{
    s.push(c);
}

// ---------------------------------------------------------------------------
// Conversions between strings and character vectors
// ---------------------------------------------------------------------------

/// The characters of a string slice, in order.
pub fn chars_of(s: &str) -> (r: Vec<char>)
    ensures
        r@ == s@,
{
    let n: usize = s.unicode_len();
    let mut r: Vec<char> = Vec::new();
    let mut i: usize = 0;
    while i < n
        invariant
            i <= n,
            n == s@.len(),
            r@ == s@.take(i as int),
        decreases n - i,
    {
        let c = s.get_char(i);
        r.push(c);
        proof {
            assert(r@ =~= s@.take(i + 1 as int));
        }
        i += 1;
    }
    proof {
        assert(s@.take(n as int) =~= s@);
    }
    r
}

/// A string holding exactly the given characters.
pub fn string_of(chars: &Vec<char>) -> (r: String)
    ensures
        r@ == chars@,
{
    let mut r = String::new();
    let mut i: usize = 0;
    while i < chars.len()
        invariant
            i <= chars@.len(),
            r@ == chars@.take(i as int),
        decreases chars@.len() - i,
    {
        push_char(&mut r, chars[i]);
        proof {
            assert(r@ =~= chars@.take(i + 1 as int));
        }
        i += 1;
    }
    proof {
        assert(chars@.take(chars@.len() as int) =~= chars@);
    }
    r
}

/// Whether two string slices hold the same characters.
pub fn str_eq(a: &str, b: &str) -> (r: bool)
    ensures
        r == (a@ == b@),
{
    let n: usize = a.unicode_len();
    let m: usize = b.unicode_len();
    if n != m {
        proof {
            assert(a@ != b@);
        }
        return false;
    }
    let mut i: usize = 0;
    while i < n
        invariant
            i <= n,
            n == a@.len(),
            n == b@.len(),
            forall|j: int| 0 <= j < i ==> a@[j] == b@[j],
        decreases n - i,
    {
        if a.get_char(i) != b.get_char(i) {
            return false;
        }
        i += 1;
    }
    proof {
        assert(a@ =~= b@);
    }
    true
}

// ---------------------------------------------------------------------------
// Trimming
// ---------------------------------------------------------------------------

/// The sequence with its leading whitespace removed.
pub open spec fn trim_start_spec(s: Seq<char>) -> Seq<char>
    decreases s.len(),
{
    if s.len() > 0 && is_space_char(s[0]) {
        trim_start_spec(s.drop_first())
    } else {
        s
    }
}

/// The sequence with its trailing whitespace removed.
pub open spec fn trim_end_spec(s: Seq<char>) -> Seq<char>
    decreases s.len(),
{
    if s.len() > 0 && is_space_char(s.last()) {
        trim_end_spec(s.drop_last())
    } else {
        s
    }
}

/// The sequence with whitespace removed at both ends, as `str::trim` does.
pub open spec fn trim_spec(s: Seq<char>) -> Seq<char> {
    trim_end_spec(trim_start_spec(s))
}

proof fn lemma_trim_start_at(s: Seq<char>, k: int)
    requires
        0 <= k <= s.len(),
        forall|j: int| 0 <= j < k ==> is_space_char(s[j]),
        k < s.len() ==> !is_space_char(s[k]),
    ensures
        trim_start_spec(s) == s.subrange(k, s.len() as int),
    decreases k,
{
    if k == 0 {
        if s.len() > 0 && is_space_char(s[0]) {
            assert(!is_space_char(s[0]));
        }
        assert(s.subrange(0, s.len() as int) =~= s);
    } else {
        let t = s.drop_first();
        assert(forall|j: int| 0 <= j < k - 1 ==> is_space_char(t[j]));
        lemma_trim_start_at(t, k - 1);
        assert(t.subrange(k - 1, t.len() as int) =~= s.subrange(k, s.len() as int));
    }
}

proof fn lemma_trim_end_at(s: Seq<char>, m: int)
    requires
        0 <= m <= s.len(),
        forall|j: int| m <= j < s.len() ==> is_space_char(s[j]),
        m > 0 ==> !is_space_char(s[m - 1]),
    ensures
        trim_end_spec(s) == s.subrange(0, m),
    decreases s.len(),
{
    if s.len() > 0 && is_space_char(s.last()) {
        let t = s.drop_last();
        assert(m < s.len());
        lemma_trim_end_at(t, m);
        assert(t.subrange(0, m) =~= s.subrange(0, m));
    } else {
        assert(m == s.len());
        assert(s.subrange(0, s.len() as int) =~= s);
    }
}

/// Trimming drops characters but introduces none: a property of every
/// character survives trimming the start.
pub proof fn lemma_trim_start_preserves(s: Seq<char>, p: spec_fn(char) -> bool)
    requires
        forall|i: int| 0 <= i < s.len() ==> p(#[trigger] s[i]),
    ensures
        forall|i: int| 0 <= i < trim_start_spec(s).len() ==> p(#[trigger] trim_start_spec(s)[i]),
    decreases s.len(),
{
    if s.len() > 0 && is_space_char(s[0]) {
        let t = s.drop_first();
        assert(forall|i: int| 0 <= i < t.len() ==> t[i] == s[i + 1]);
        lemma_trim_start_preserves(t, p);
        assert(trim_start_spec(s) == trim_start_spec(t));
        assert forall|i: int| 0 <= i < trim_start_spec(s).len() implies p(
            #[trigger] trim_start_spec(s)[i],
        ) by {
            assert(p(trim_start_spec(t)[i]));
        }
    }
}

/// A property of every character survives trimming the end.
pub proof fn lemma_trim_end_preserves(s: Seq<char>, p: spec_fn(char) -> bool)
    requires
        forall|i: int| 0 <= i < s.len() ==> p(#[trigger] s[i]),
    ensures
        forall|i: int| 0 <= i < trim_end_spec(s).len() ==> p(#[trigger] trim_end_spec(s)[i]),
    decreases s.len(),
{
    if s.len() > 0 && is_space_char(s.last()) {
        let t = s.drop_last();
        assert(forall|i: int| 0 <= i < t.len() ==> t[i] == s[i]);
        lemma_trim_end_preserves(t, p);
        assert(trim_end_spec(s) == trim_end_spec(t));
        assert forall|i: int| 0 <= i < trim_end_spec(s).len() implies p(
            #[trigger] trim_end_spec(s)[i],
        ) by {
            assert(p(trim_end_spec(t)[i]));
        }
    }
}

/// The characters of `s` with whitespace removed at both ends.
pub fn trim_chars(s: &Vec<char>) -> (r: Vec<char>)
    ensures
        r@ == trim_spec(s@),
{
    let n: usize = s.len();
    let mut k: usize = 0;
    while k < n && space_char(s[k])
        invariant
            k <= n,
            n == s@.len(),
            forall|j: int| 0 <= j < k ==> is_space_char(s@[j]),
        decreases n - k,
    {
        k += 1;
    }
    proof {
        lemma_trim_start_at(s@, k as int);
    }
    if k == n {
        let r: Vec<char> = Vec::new();
        proof {
            assert(trim_start_spec(s@) =~= Seq::<char>::empty());
            assert(trim_spec(s@) =~= Seq::<char>::empty());
        }
        return r;
    }
    // The middle part s[k..e] starts and ends with a non-space character.
    let mut e: usize = n;
    while e > k + 1 && space_char(s[e - 1])
        invariant
            k < e <= n,
            n == s@.len(),
            forall|j: int| e <= j < n ==> is_space_char(s@[j]),
        decreases e,
    {
        e -= 1;
    }
    // Here either e == k + 1 or s[e - 1] is not a space; in the first case
    // s[k] is not a space, so in both cases the character before e is no
    // space.
    proof {
        let t = trim_start_spec(s@);
        assert(t == s@.subrange(k as int, n as int));
        assert(forall|j: int| e - k <= j < t.len() ==> is_space_char(t[j]));
        assert(t[(e - 1 - k) as int] == s@[e - 1]);
        assert(!is_space_char(s@[e - 1]));
        lemma_trim_end_at(t, e - k);
    }
    let mut r: Vec<char> = Vec::new();
    let mut i: usize = k;
    while i < e
        invariant
            k <= i <= e <= n,
            n == s@.len(),
            r@ == s@.subrange(k as int, i as int),
        decreases e - i,
    {
        r.push(s[i]);
        proof {
            assert(r@ =~= s@.subrange(k as int, i + 1 as int));
        }
        i += 1;
    }
    proof {
        assert(trim_spec(s@) == trim_start_spec(s@).subrange(0, (e - k) as int));
        assert(trim_start_spec(s@).subrange(0, (e - k) as int) =~= s@.subrange(
            k as int,
            e as int,
        ));
    }
    r
}

// ---------------------------------------------------------------------------
// Decimal formatting
// ---------------------------------------------------------------------------

/// The ASCII digit for a value below ten.
pub open spec fn digit_of(d: nat) -> char
    recommends
        d < 10,
{
    if d == 0 {
        '0'
    } else if d == 1 {
        '1'
    } else if d == 2 {
        '2'
    } else if d == 3 {
        '3'
    } else if d == 4 {
        '4'
    } else if d == 5 {
        '5'
    } else if d == 6 {
        '6'
    } else if d == 7 {
        '7'
    } else if d == 8 {
        '8'
    } else {
        '9'
    }
}

/// The decimal representation of `n`, without leading zeros (a single `0`
/// for zero itself).
pub open spec fn dec_rep(n: nat) -> Seq<char>
    decreases n,
{
    if n < 10 {
        seq![digit_of(n)]
    } else {
        dec_rep(n / 10).push(digit_of(n % 10))
    }
}

/// The value a digit sequence denotes.
pub open spec fn dec_val(s: Seq<char>) -> nat
    decreases s.len(),
{
    if s.len() == 0 {
        0
    } else {
        dec_val(s.drop_last()) * 10 + digit_val(s.last()) as nat
    }
}

/// Reading the decimal representation back gives the number: the decimal
/// representation is injective.
pub proof fn lemma_dec_val_of_rep(n: nat)
    ensures
        dec_val(dec_rep(n)) == n,
    decreases n,
{
    if n < 10 {
        let s = dec_rep(n);
        assert(s == seq![digit_of(n)]);
        assert(s.drop_last() =~= Seq::<char>::empty());
        assert(dec_val(Seq::<char>::empty()) == 0);
        assert(dec_val(s) == dec_val(s.drop_last()) * 10 + digit_val(s.last()) as nat);
        assert(digit_val(digit_of(n)) == n);
    } else {
        lemma_dec_val_of_rep(n / 10);
        assert(dec_rep(n).drop_last() =~= dec_rep(n / 10));
        assert(dec_val(dec_rep(n)) == (n / 10) * 10 + digit_val(digit_of(n % 10)) as nat);
        assert(digit_val(digit_of(n % 10)) == n % 10);
        vstd::arithmetic::div_mod::lemma_fundamental_div_mod(n as int, 10);
    }
}

proof fn lemma_reverse_step(s: Seq<char>)
    requires
        s.len() > 0,
    ensures
        s.reverse() == seq![s.last()] + s.drop_last().reverse(),
{
    assert(s.reverse() =~= seq![s.last()] + s.drop_last().reverse());
}

fn exec_digit_of(d: u64) -> (r: char)
    requires
        d < 10,
    ensures
        r == digit_of(d as nat),
{
    if d == 0 {
        '0'
    } else if d == 1 {
        '1'
    } else if d == 2 {
        '2'
    } else if d == 3 {
        '3'
    } else if d == 4 {
        '4'
    } else if d == 5 {
        '5'
    } else if d == 6 {
        '6'
    } else if d == 7 {
        '7'
    } else if d == 8 {
        '8'
    } else {
        '9'
    }
}

/// The decimal digits of `n`, as characters.
pub fn dec_chars(n: u64) -> (r: Vec<char>)
    ensures
        r@ == dec_rep(n as nat),
{
    let mut rev: Vec<char> = Vec::new();
    let mut cur: u64 = n;
    while cur >= 10
        invariant
            dec_rep(n as nat) == dec_rep(cur as nat) + rev@.reverse(),
        decreases cur,
    {
        let ghost prev = rev@;
        let d = exec_digit_of(cur % 10);
        rev.push(d);
        proof {
            assert(rev@.drop_last() =~= prev);
            lemma_reverse_step(rev@);
            assert(dec_rep(cur as nat) =~= dec_rep((cur / 10) as nat) + seq![
                digit_of((cur % 10) as nat),
            ]);
            assert(dec_rep(n as nat) =~= dec_rep((cur / 10) as nat) + rev@.reverse());
        }
        cur = cur / 10;
    }
    let ghost prev = rev@;
    let d = exec_digit_of(cur);
    rev.push(d);
    proof {
        assert(rev@.drop_last() =~= prev);
        lemma_reverse_step(rev@);
        assert(dec_rep(cur as nat) =~= seq![digit_of(cur as nat)]);
        assert(dec_rep(n as nat) =~= rev@.reverse());
    }
    // rev now holds the digits in reverse; pop them off to restore order.
    let mut r: Vec<char> = Vec::new();
    proof {
        assert(dec_rep(n as nat) =~= r@ + rev@.reverse());
    }
    loop
        invariant
            dec_rep(n as nat) == r@ + rev@.reverse(),
        decreases rev@.len(),
    {
        let ghost full = rev@;
        let last = rev.pop();
        match last {
            Some(c) => {
                proof {
                    lemma_reverse_step(full);
                    assert(rev@ =~= full.drop_last());
                }
                r.push(c);
                proof {
                    assert(dec_rep(n as nat) =~= r@ + rev@.reverse());
                }
            },
            None => {
                proof {
                    assert(rev@.reverse() =~= Seq::<char>::empty());
                    assert(dec_rep(n as nat) =~= r@);
                }
                return r;
            },
        }
    }
}

/// The decimal representation of `n` as a string.
pub fn u64_to_dec(n: u64) -> (r: String)
    ensures
        r@ == dec_rep(n as nat),
{
    let chars = dec_chars(n);
    string_of(&chars)
}

/// The decimal representation of `n`, left-padded with `0` to at least two
/// digits, as in `S01E01`.
pub open spec fn pad2_spec(n: nat) -> Seq<char> {
    if n < 10 {
        seq!['0'] + dec_rep(n)
    } else {
        dec_rep(n)
    }
}

/// `n` in decimal, padded to at least two digits.
pub fn u64_to_dec_pad2(n: u64) -> (r: String)
    ensures
        r@ == pad2_spec(n as nat),
{
    let mut chars: Vec<char> = Vec::new();
    if n < 10 {
        chars.push('0');
    }
    let digits = dec_chars(n);
    let mut i: usize = 0;
    while i < digits.len()
        invariant
            i <= digits@.len(),
            digits@ == dec_rep(n as nat),
            chars@ == (if n < 10 {
                seq!['0'] + digits@.take(i as int)
            } else {
                digits@.take(i as int)
            }),
        decreases digits@.len() - i,
    {
        chars.push(digits[i]);
        proof {
            assert(digits@.take(i + 1 as int) =~= digits@.take(i as int).push(digits@[i as int]));
        }
        i += 1;
    }
    proof {
        assert(digits@.take(digits@.len() as int) =~= digits@);
    }
    string_of(&chars)
}

} // verus!
