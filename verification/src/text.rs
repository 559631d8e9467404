//! Whitespace classification, trimming, and string comparison.

use vstd::prelude::*;

verus! {

/// A character of the Unicode `White_Space` class: exactly the characters
/// that whitespace splitting and trimming treat as separators.
pub open spec fn is_space(c: char) -> bool {
    ||| c == ' '
    ||| c == '\t'
    ||| c == '\n'
    ||| c == '\u{0b}'
    ||| c == '\u{0c}'
    ||| c == '\r'
    ||| c == '\u{85}'
    ||| c == '\u{a0}'
    ||| c == '\u{1680}'
    ||| ('\u{2000}' as u32 <= c as u32 && c as u32 <= '\u{200a}' as u32)
    ||| c == '\u{2028}'
    ||| c == '\u{2029}'
    ||| c == '\u{202f}'
    ||| c == '\u{205f}'
    ||| c == '\u{3000}'
}

/// Every character of `s` is whitespace.
pub open spec fn all_space(s: Seq<char>) -> bool {
    forall|i: int| 0 <= i < s.len() ==> is_space(s[i])
}

/// No character of `s` is whitespace.
pub open spec fn no_space(s: Seq<char>) -> bool {
    forall|i: int| 0 <= i < s.len() ==> !is_space(s[i])
}

/// Decides whether `c` is a whitespace character.
pub fn is_space_char(c: char) -> (r: bool)
    ensures
        r == is_space(c),
{
    c == ' ' || c == '\t' || c == '\n' || c == '\u{0b}' || c == '\u{0c}' || c == '\r'
        || c == '\u{85}' || c == '\u{a0}' || c == '\u{1680}'
        || ('\u{2000}' as u32 <= c as u32 && c as u32 <= '\u{200a}' as u32) || c == '\u{2028}'
        || c == '\u{2029}' || c == '\u{202f}' || c == '\u{205f}' || c == '\u{3000}'
}

/// The first index at or after `i` that holds a non-whitespace character,
/// or `s.len()` when none exists.
pub open spec fn trim_start_idx(s: Seq<char>, i: int) -> int
    decreases s.len() - i,
{
    if i < 0 || i >= s.len() || !is_space(s[i]) {
        i
    } else {
        trim_start_idx(s, i + 1)
    }
}

/// The index just past the last non-whitespace character strictly before `j`,
/// or `0` when none exists.
pub open spec fn trim_end_idx(s: Seq<char>, j: int) -> int
    decreases j,
{
    if j <= 0 || j > s.len() || !is_space(s[j - 1]) {
        j
    } else {
        trim_end_idx(s, j - 1)
    }
}

/// `s` with its leading and trailing whitespace removed.
pub open spec fn trimmed(s: Seq<char>) -> Seq<char> {
    let a = trim_start_idx(s, 0);
    let b = trim_end_idx(s, s.len() as int);
    if a < b {
        s.subrange(a, b)
    } else {
        Seq::<char>::empty()
    }
}

pub proof fn lemma_trim_start_idx(s: Seq<char>, i: int)
    requires
        0 <= i <= s.len(),
    ensures
        i <= trim_start_idx(s, i) <= s.len(),
        forall|k: int| i <= k < trim_start_idx(s, i) ==> is_space(s[k]),
        trim_start_idx(s, i) < s.len() ==> !is_space(s[trim_start_idx(s, i)]),
    decreases s.len() - i,
{
    if i < s.len() && is_space(s[i]) {
        lemma_trim_start_idx(s, i + 1);
    }
}

pub proof fn lemma_trim_end_idx(s: Seq<char>, j: int)
    requires
        0 <= j <= s.len(),
    ensures
        0 <= trim_end_idx(s, j) <= j,
        forall|k: int| trim_end_idx(s, j) <= k < j ==> is_space(s[k]),
        trim_end_idx(s, j) > 0 ==> !is_space(s[trim_end_idx(s, j) - 1]),
    decreases j,
{
    if j > 0 && is_space(s[j - 1]) {
        lemma_trim_end_idx(s, j - 1);
    }
}

/// The trimmed string has no whitespace at either end, and is empty exactly
/// when the whole string is whitespace.
pub proof fn lemma_trimmed_shape(s: Seq<char>)
    ensures
        trimmed(s).len() == 0 <==> all_space(s),
        trimmed(s).len() > 0 ==> !is_space(trimmed(s)[0]),
        trimmed(s).len() > 0 ==> !is_space(trimmed(s)[trimmed(s).len() - 1]),
{
    lemma_trim_start_idx(s, 0);
    lemma_trim_end_idx(s, s.len() as int);
    let a = trim_start_idx(s, 0);
    let b = trim_end_idx(s, s.len() as int);
    if a < b {
        assert(!all_space(s)) by {
            assert(!is_space(s[a]));
        }
    } else {
        assert forall|k: int| 0 <= k < s.len() implies is_space(s[k]) by {
            if !is_space(s[k]) {
                assert(a <= k);
                assert(k < b);
            }
        }
    }
}

/// Removes leading and trailing whitespace.
pub fn trim_line(s: &str) -> (r: String)
    ensures
        r@ == trimmed(s@),
{
    let n = s.unicode_len();
    let mut a: usize = 0;
    while a < n && is_space_char(s.get_char(a))
        invariant
            0 <= a <= n == s@.len(),
            trim_start_idx(s@, 0) == trim_start_idx(s@, a as int),
        decreases n - a,
    {
        a = a + 1;
    }
    let mut b: usize = n;
    while b > 0 && is_space_char(s.get_char(b - 1))
        invariant
            0 <= b <= n == s@.len(),
            trim_end_idx(s@, n as int) == trim_end_idx(s@, b as int),
        decreases b,
    {
        b = b - 1;
    }
    assert(trim_start_idx(s@, a as int) == a);
    assert(trim_end_idx(s@, b as int) == b);
    if a < b {
        let t = s.substring_char(a, b);
        t.to_owned()
    } else {
        String::new()
    }
}

/// Compares two string slices character by character.
pub fn str_eq(a: &str, b: &str) -> (r: bool)
    ensures
        r == (a@ == b@),
{
    let na = a.unicode_len();
    let nb = b.unicode_len();
    if na != nb {
        assert(a@ != b@) by {
            assert(a@.len() != b@.len());
        }
        return false;
    }
    let mut i: usize = 0;
    while i < na
        invariant
            0 <= i <= na == a@.len() == b@.len(),
            forall|k: int| 0 <= k < i ==> a@[k] == b@[k],
        decreases na - i,
    {
        if a.get_char(i) != b.get_char(i) {
            assert(a@ != b@) by {
                assert(a@[i as int] != b@[i as int]);
            }
            return false;
        }
        i = i + 1;
    }
    assert(a@ =~= b@);
    true
}

} // verus!
