//! Verified text utilities: substring search, replacement, and the
//! token-bounded replacement used by the rename engine.

use vstd::prelude::*;
use vstd::string::*;

verus! {

/// A character that can be part of a Python identifier.
pub open spec fn is_ident_char(c: char) -> bool {
    c == '_' || ('a' <= c && c <= 'z') || ('A' <= c && c <= 'Z') || ('0' <= c && c <= '9')
}

/// The pattern `pat` occurs in `s` at position `i`.
pub open spec fn match_at(s: Seq<char>, i: int, pat: Seq<char>) -> bool {
    0 <= i && i + pat.len() <= s.len() && s.subrange(i, i + pat.len()) == pat
}

/// The pattern `pat` occurs somewhere in `s`.
pub open spec fn contains_sub(s: Seq<char>, pat: Seq<char>) -> bool {
    exists|i: int| match_at(s, i, pat)
}

fn ident_char(c: char) -> (b: bool)
    ensures
        b == is_ident_char(c),
{
    c == '_' || ('a' <= c && c <= 'z') || ('A' <= c && c <= 'Z') || ('0' <= c && c <= '9')
}

/// Whether `pat` occurs in `s` at position `i`.
fn starts_with_at(s: &str, i: usize, pat: &str) -> (b: bool)
    requires
        i + pat@.len() <= s@.len(),
    ensures
        b == match_at(s@, i as int, pat@),
{
    let n = s.unicode_len();
    let m = pat.unicode_len();
    let mut j: usize = 0;
    while j < m
        invariant
            i + m <= n,
            n == s@.len(),
            m == pat@.len(),
            j <= m,
            forall|k: int| 0 <= k < j ==> s@[i + k] == pat@[k],
        decreases m - j,
    {
        if s.get_char(i + j) != pat.get_char(j) {
            assert(!match_at(s@, i as int, pat@)) by {
                if match_at(s@, i as int, pat@) {
                    assert(s@.subrange(i as int, i + m)[j as int] == pat@[j as int]);
                }
            }
            return false;
        }
        j += 1;
    }
    assert(s@.subrange(i as int, i + m) =~= pat@);
    true
}

/// Whether two pieces of text hold the same characters.
pub fn str_eq(a: &str, b: &str) -> (r: bool)
    ensures
        r == (a@ == b@),
{
    let n = a.unicode_len();
    let m = b.unicode_len();
    if n != m {
        return false;
    }
    let r = starts_with_at(a, 0, b);
    assert(a@.subrange(0, m as int) =~= a@);
    r
}

/// Whether `pat` occurs somewhere in `s`.
pub fn contains_str(s: &str, pat: &str) -> (b: bool)
    ensures
        b == contains_sub(s@, pat@),
{
    let n = s.unicode_len();
    let m = pat.unicode_len();
    if m == 0 {
        assert(s@.subrange(0, 0) =~= pat@);
        assert(match_at(s@, 0, pat@));
        return true;
    }
    if m > n {
        assert(!contains_sub(s@, pat@)) by {
            assert forall|i: int| !match_at(s@, i, pat@) by {}
        }
        return false;
    }
    let mut i: usize = 0;
    while i <= n - m
        invariant
            1 <= m <= n,
            n == s@.len(),
            m == pat@.len(),
            i <= n - m + 1,
            forall|j: int| 0 <= j < i ==> !match_at(s@, j, pat@),
        decreases n - m + 1 - i,
    {
        if starts_with_at(s, i, pat) {
            return true;
        }
        i += 1;
    }
    assert forall|j: int| !match_at(s@, j, pat@) by {
        if match_at(s@, j, pat@) {
            assert(0 <= j < i);
        }
    }
    false
}

/// Every occurrence of `from` in `s`, found left to right without overlap,
/// replaced by `to`; the identity when `from` is empty.
pub open spec fn replace_all_spec(s: Seq<char>, from: Seq<char>, to: Seq<char>) -> Seq<char>
    decreases s.len(),
{
    if from.len() == 0 || s.len() < from.len() {
        s
    } else if s.take(from.len() as int) == from {
        to + replace_all_spec(s.skip(from.len() as int), from, to)
    } else {
        s.take(1) + replace_all_spec(s.skip(1), from, to)
    }
}

/// Replaces every occurrence of `from` in `s` by `to`, left to right,
/// without overlap.
pub fn replace_all_str(s: &str, from: &str, to: &str) -> (r: String)
    ensures
        r@ == replace_all_spec(s@, from@, to@),
    decreases s@.len(),
{
    let n = s.unicode_len();
    let m = from.unicode_len();
    if m == 0 || n < m {
        return s.to_owned();
    }
    if starts_with_at(s, 0, from) {
        assert(s@.take(m as int) =~= s@.subrange(0, m as int));
        let rest = replace_all_str(s.substring_char(m, n), from, to);
        let mut r = to.to_owned();
        r.append(rest.as_str());
        assert(s@.subrange(m as int, n as int) =~= s@.skip(m as int));
        r
    } else {
        assert(s@.take(m as int) =~= s@.subrange(0, m as int));
        let rest = replace_all_str(s.substring_char(1, n), from, to);
        let mut r = s.substring_char(0, 1).to_owned();
        r.append(rest.as_str());
        assert(s@.subrange(1, n as int) =~= s@.skip(1));
        assert(s@.subrange(0, 1) =~= s@.take(1));
        r
    }
}

/// Replacement in a non-empty text with a non-empty replacement never
/// yields empty text.
pub proof fn lemma_replace_all_nonempty(s: Seq<char>, from: Seq<char>, to: Seq<char>)
    requires
        s.len() > 0,
        to.len() > 0,
    ensures
        replace_all_spec(s, from, to).len() > 0,
    decreases s.len(),
{
    if from.len() == 0 || s.len() < from.len() {
    } else if s.take(from.len() as int) == from {
        assert(replace_all_spec(s, from, to).len() >= to.len());
    } else {
        assert(replace_all_spec(s, from, to).len() >= s.take(1).len());
    }
}

/// Whether `s` starts with `pat`.
pub fn starts_with_str(s: &str, pat: &str) -> (b: bool)
    ensures
        b == pat@.is_prefix_of(s@),
{
    let n = s.unicode_len();
    let m = pat.unicode_len();
    if m > n {
        return false;
    }
    let b = starts_with_at(s, 0, pat);
    assert(s@.subrange(0, m as int) =~= s@.take(m as int));
    b
}

/// Whether `s` ends with `pat`.
pub fn ends_with_str(s: &str, pat: &str) -> (b: bool)
    ensures
        b == pat@.is_suffix_of(s@),
{
    let n = s.unicode_len();
    let m = pat.unicode_len();
    if m > n {
        return false;
    }
    let b = starts_with_at(s, n - m, pat);
    assert(s@.subrange(n - m, n as int) =~= s@.skip(n - m));
    b
}

/// Appends the character of `s` at position `i` to `r`.
pub fn push_char_from(r: &mut String, s: &str, i: usize)
    requires
        i < s@.len(),
    ensures
        final(r)@ == old(r)@ + seq![s@[i as int]],
{
    let n = s.unicode_len();
    let c = s.substring_char(i, i + 1);
    r.append(c);
    assert(s@.subrange(i as int, i + 1) =~= seq![s@[i as int]]);
}

/// A position after which a match of the dotted name may end: end of text,
/// or a character that cannot extend an identifier.
pub open spec fn token_ok_after(s: Seq<char>, end: int) -> bool {
    end == s.len() || !is_ident_char(s[end])
}

/// A character after which a match of the dotted name may start: one that
/// can be part of neither an identifier nor a longer dotted name.
pub open spec fn is_boundary_before(c: char) -> bool {
    !is_ident_char(c) && c != '.'
}

/// Every occurrence of the dotted name `old_name` in `s` that stands as a
/// distinct token — not preceded by an identifier character or a dot, and
/// not followed by an identifier character — replaced by `new_name`.
/// `prev_ok` says whether the position just before `s` allows a match;
/// at the start of a file it is true.
pub open spec fn replace_token_spec(
    s: Seq<char>,
    old_name: Seq<char>,
    new_name: Seq<char>,
    prev_ok: bool,
) -> Seq<char>
    decreases s.len(),
{
    if old_name.len() == 0 || s.len() < old_name.len() {
        s
    } else if prev_ok && s.take(old_name.len() as int) == old_name && token_ok_after(
        s,
        old_name.len() as int,
    ) {
        new_name + replace_token_spec(s.skip(old_name.len() as int), old_name, new_name, false)
    } else {
        s.take(1) + replace_token_spec(s.skip(1), old_name, new_name, is_boundary_before(s[0]))
    }
}

fn replace_token_go(s: &str, old_name: &str, new_name: &str, prev_ok: bool) -> (r: String)
    ensures
        r@ == replace_token_spec(s@, old_name@, new_name@, prev_ok),
    decreases s@.len(),
{
    let n = s.unicode_len();
    let m = old_name.unicode_len();
    if m == 0 || n < m {
        return s.to_owned();
    }
    assert(s@.take(m as int) =~= s@.subrange(0, m as int));
    let head_match = prev_ok && starts_with_at(s, 0, old_name) && (n == m || !ident_char(
        s.get_char(m),
    ));
    if head_match {
        let rest = replace_token_go(s.substring_char(m, n), old_name, new_name, false);
        let mut r = new_name.to_owned();
        r.append(rest.as_str());
        assert(s@.subrange(m as int, n as int) =~= s@.skip(m as int));
        r
    } else {
        let c0 = s.get_char(0);
        let rest = replace_token_go(s.substring_char(1, n), old_name, new_name, !ident_char(c0)
            && c0 != '.');
        let mut r = s.substring_char(0, 1).to_owned();
        r.append(rest.as_str());
        assert(s@.subrange(1, n as int) =~= s@.skip(1));
        assert(s@.subrange(0, 1) =~= s@.take(1));
        r
    }
}

/// Replaces every distinct-token occurrence of the dotted name `old_name`
/// in `s` by `new_name`, treating the start of `s` as a boundary.
pub fn replace_token_str(s: &str, old_name: &str, new_name: &str) -> (r: String)
    ensures
        r@ == replace_token_spec(s@, old_name@, new_name@, true),
{
    replace_token_go(s, old_name, new_name, true)
}

/// An ASCII whitespace character.
pub open spec fn is_space(c: char) -> bool {
    c == ' ' || c == '\t' || c == '\n' || c == '\r'
}

/// `s` without leading ASCII whitespace.
pub open spec fn trim_start_spec(s: Seq<char>) -> Seq<char>
    decreases s.len(),
{
    if s.len() > 0 && is_space(s[0]) {
        trim_start_spec(s.skip(1))
    } else {
        s
    }
}

/// `s` without trailing characters that satisfy `drop_space` (whitespace)
/// or, when `drop_space` is false, trailing colons.
pub open spec fn trim_end_by(s: Seq<char>, drop_space: bool) -> Seq<char>
    decreases s.len(),
{
    if s.len() > 0 && (if drop_space {
        is_space(s[s.len() - 1])
    } else {
        s[s.len() - 1] == ':'
    }) {
        trim_end_by(s.take(s.len() - 1), drop_space)
    } else {
        s
    }
}

/// The return-type fragment rule: surrounding ASCII whitespace removed,
/// then any trailing colons removed.
pub open spec fn trim_return_type_spec(s: Seq<char>) -> Seq<char> {
    trim_end_by(trim_end_by(trim_start_spec(s), true), false)
}

fn space_char(c: char) -> (b: bool)
    ensures
        b == is_space(c),
{
    c == ' ' || c == '\t' || c == '\n' || c == '\r'
}

fn trim_start_str(s: &str) -> (r: String)
    ensures
        r@ == trim_start_spec(s@),
    decreases s@.len(),
{
    let n = s.unicode_len();
    if n > 0 && space_char(s.get_char(0)) {
        let r = trim_start_str(s.substring_char(1, n));
        assert(s@.subrange(1, n as int) =~= s@.skip(1));
        r
    } else {
        s.to_owned()
    }
}

fn trim_end_str(s: &str, drop_space: bool) -> (r: String)
    ensures
        r@ == trim_end_by(s@, drop_space),
    decreases s@.len(),
{
    let n = s.unicode_len();
    if n > 0 {
        let last = s.get_char(n - 1);
        let hit = if drop_space {
            space_char(last)
        } else {
            last == ':'
        };
        if hit {
            let r = trim_end_str(s.substring_char(0, n - 1), drop_space);
            assert(s@.subrange(0, n - 1) =~= s@.take(n - 1));
            return r;
        }
    }
    s.to_owned()
}

/// Applies the return-type fragment rule: trims surrounding ASCII
/// whitespace, then strips any trailing colons.
pub fn trim_return_type(s: &str) -> (r: String)
    ensures
        r@ == trim_return_type_spec(s@),
{
    let t = trim_start_str(s);
    let u = trim_end_str(t.as_str(), true);
    trim_end_str(u.as_str(), false)
}

} // verus!
