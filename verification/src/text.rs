//! Character sequences: searching, whitespace, and the conversions between
//! `str`, `String` and slices of `char`.
//!
//! Every text in this library is modelled as a `Seq<char>`, the view of `str`
//! and `String`. Positions count characters, not bytes.

use vstd::prelude::*;

verus! {

/// Whether `c` has the Unicode `White_Space` property, as `char::is_whitespace`
/// decides it.
pub uninterp spec fn char_is_whitespace(c: char) -> bool;

/// Whether `c` is alphabetic or numeric in Unicode's sense, as
/// `char::is_alphanumeric` decides it.
pub uninterp spec fn char_is_alphanumeric(c: char) -> bool;

/// `char::is_whitespace` of std. Nothing is claimed beyond the name of its
/// result: the answer depends on the character alone.
pub assume_specification[ char::is_whitespace ](c: char) -> (b: bool)
    ensures
        b == char_is_whitespace(c),
;

/// `char::is_alphanumeric` of std. Nothing is claimed beyond the name of its
/// result: the answer depends on the character alone.
pub assume_specification[ char::is_alphanumeric ](c: char) -> (b: bool)
    ensures
        b == char_is_alphanumeric(c),
;

/// `String::push` of std appends the given character to the end of the string.
pub assume_specification[ String::push ](s: &mut String, c: char)
    ensures
        final(s)@ == old(s)@.push(c),
;

/// The text of an optional `str`.
pub open spec fn text_of(s: Option<&str>) -> Option<Seq<char>> {
    match s {
        Some(text) => Some(text@),
        None => None,
    }
}

/// `needle` stands in `s` at position `i`.
pub open spec fn occurs_at(s: Seq<char>, i: int, needle: Seq<char>) -> bool {
    &&& 0 <= i
    &&& i + needle.len() <= s.len()
    &&& s.subrange(i, i + needle.len()) == needle
}

/// The number of characters between position `i` and the first place at or
/// after it where `needle` stands in `s`; `None` where it stands nowhere.
pub open spec fn find(s: Seq<char>, i: int, needle: Seq<char>) -> Option<nat>
    decreases s.len() - i + 1,
{
    if i < 0 || i + needle.len() > s.len() {
        None
    } else if occurs_at(s, i, needle) {
        Some(0)
    } else {
        match find(s, i + 1, needle) {
            Some(n) => Some(1 + n),
            None => None,
        }
    }
}

/// The number of whitespace characters that stand in `s` from position `i` on,
/// up to the first character that is none.
pub open spec fn ws_len(s: Seq<char>, i: int) -> nat
    decreases s.len() - i,
{
    if 0 <= i < s.len() && char_is_whitespace(s[i]) {
        1 + ws_len(s, i + 1)
    } else {
        0
    }
}

/// The number of whitespace characters at the end of `s`.
pub open spec fn trailing_ws_len(s: Seq<char>) -> nat
    decreases s.len(),
{
    if s.len() > 0 && char_is_whitespace(s.last()) {
        1 + trailing_ws_len(s.drop_last())
    } else {
        0
    }
}

/// `s` without its leading and trailing whitespace.
pub open spec fn trim(s: Seq<char>) -> Seq<char> {
    if ws_len(s, 0) == s.len() {
        Seq::empty()
    } else {
        s.subrange(ws_len(s, 0) as int, s.len() - trailing_ws_len(s))
    }
}

/// `find` yields the first occurrence, and `None` only where there is none.
pub proof fn lemma_find_first(s: Seq<char>, i: int, needle: Seq<char>)
    requires
        0 <= i,
    ensures
        match find(s, i, needle) {
            Some(n) => occurs_at(s, i + n, needle) && forall|j: int|
                i <= j < i + n ==> !occurs_at(s, j, needle),
            None => forall|j: int| i <= j ==> !occurs_at(s, j, needle),
        },
    decreases s.len() - i + 1,
{
    if i + needle.len() <= s.len() && !occurs_at(s, i, needle) {
        lemma_find_first(s, i + 1, needle);
    }
}

/// The whitespace run that `ws_len` measures lies within `s`, holds whitespace
/// only, and ends at the end of `s` or before a character that is none.
pub proof fn lemma_ws_len(s: Seq<char>, i: int)
    requires
        0 <= i <= s.len(),
    ensures
        i + ws_len(s, i) <= s.len(),
        forall|j: int| i <= j < i + ws_len(s, i) ==> char_is_whitespace(#[trigger] s[j]),
        i + ws_len(s, i) < s.len() ==> !char_is_whitespace(s[i + ws_len(s, i)]),
    decreases s.len() - i,
{
    if i < s.len() && char_is_whitespace(s[i]) {
        lemma_ws_len(s, i + 1);
    }
}

/// The trailing whitespace run lies within `s`, holds whitespace only, and is
/// all of `s` or stands behind a character that is none.
pub proof fn lemma_trailing_ws_len(s: Seq<char>)
    ensures
        trailing_ws_len(s) <= s.len(),
        forall|j: int|
            s.len() - trailing_ws_len(s) <= j < s.len() ==> char_is_whitespace(#[trigger] s[j]),
        trailing_ws_len(s) < s.len() ==> !char_is_whitespace(s[s.len() - trailing_ws_len(s) - 1]),
    decreases s.len(),
{
    if s.len() > 0 && char_is_whitespace(s.last()) {
        let head = s.drop_last();
        lemma_trailing_ws_len(head);
        assert forall|j: int|
            s.len() - trailing_ws_len(s) <= j < s.len() implies char_is_whitespace(
            #[trigger] s[j],
        ) by {
            if j < head.len() {
                assert(s[j] == head[j]);
            }
        }
        if trailing_ws_len(s) < s.len() {
            let last = head.len() - trailing_ws_len(head) - 1;
            assert(s[s.len() - trailing_ws_len(s) - 1] == head[last]);
        }
    }
}

/// What `trim` takes away is whitespace, and what it leaves neither
/// begins nor ends with whitespace.
pub proof fn lemma_trim(s: Seq<char>)
    ensures
        ws_len(s, 0) <= s.len(),
        forall|j: int| 0 <= j < ws_len(s, 0) ==> char_is_whitespace(#[trigger] s[j]),
        ws_len(s, 0) == s.len() ==> trim(s).len() == 0,
        ws_len(s, 0) < s.len() ==> ({
            let a = ws_len(s, 0) as int;
            let b = s.len() - trailing_ws_len(s);
            &&& a < b <= s.len()
            &&& trim(s) == s.subrange(a, b)
            &&& !char_is_whitespace(s[a])
            &&& !char_is_whitespace(s[b - 1])
            &&& forall|j: int| b <= j < s.len() ==> char_is_whitespace(#[trigger] s[j])
        }),
{
    lemma_ws_len(s, 0);
    lemma_trailing_ws_len(s);
    if ws_len(s, 0) < s.len() {
        let a = ws_len(s, 0) as int;
        let b = s.len() - trailing_ws_len(s);
        if b <= a {
            assert(char_is_whitespace(s[a]));
        }
    }
}

/// Whether `needle` stands in `s` at `pos`.
pub fn matches_at(s: &[char], pos: usize, needle: &[char]) -> (b: bool)
    ensures
        b == occurs_at(s@, pos as int, needle@),
{
    if pos > s.len() || needle.len() > s.len() - pos {
        return false;
    }
    let mut k: usize = 0;
    while k < needle.len()
        invariant
            pos + needle.len() <= s.len(),
            k <= needle.len(),
            forall|j: int| 0 <= j < k ==> s@[pos + j] == needle@[j],
        decreases needle.len() - k,
    {
        if s[pos + k] != needle[k] {
            assert(s@.subrange(pos as int, pos + needle.len())[k as int] != needle@[k as int]);
            return false;
        }
        k += 1;
    }
    assert(s@.subrange(pos as int, pos + needle.len()) =~= needle@);
    true
}

/// The first position at or after `pos` where `needle` stands in `s`.
pub fn find_from(s: &[char], pos: usize, needle: &[char]) -> (r: Option<usize>)
    ensures
        match r {
            Some(k) => pos <= k && k + needle@.len() <= s@.len() && find(s@, pos as int, needle@)
                == Some((k - pos) as nat),
            None => find(s@, pos as int, needle@) is None,
        },
{
    if pos > s.len() || needle.len() > s.len() - pos {
        return None;
    }
    let last: usize = s.len() - needle.len();
    let mut k: usize = pos;
    while k < last
        invariant
            pos <= k <= last,
            last + needle.len() == s.len(),
            find(s@, pos as int, needle@) == match find(s@, k as int, needle@) {
                Some(n) => Some((k - pos + n) as nat),
                None => None,
            },
        decreases last - k,
    {
        if matches_at(s, k, needle) {
            return Some(k);
        }
        k += 1;
    }
    if matches_at(s, k, needle) {
        Some(k)
    } else {
        assert(find(s@, k + 1, needle@) is None);
        None
    }
}

/// The position behind the whitespace that stands in `s` from `pos` on.
pub fn skip_whitespace(s: &[char], pos: usize) -> (r: usize)
    ensures
        r == pos + ws_len(s@, pos as int),
        pos <= s.len() ==> r <= s.len(),
{
    let mut k: usize = pos;
    while k < s.len() && s[k].is_whitespace()
        invariant
            pos <= k,
            k <= s.len() || k == pos,
            pos + ws_len(s@, pos as int) == k + ws_len(s@, k as int),
        decreases s.len() - k,
    {
        k += 1;
    }
    k
}

/// The bounds of `s[from..to]` without its leading and trailing whitespace.
pub(crate) fn trim_bounds(s: &[char], from: usize, to: usize) -> (r: (usize, usize))
    requires
        from <= to <= s.len(),
    ensures
        from <= r.0 <= r.1 <= to,
        s@.subrange(r.0 as int, r.1 as int) == trim(s@.subrange(from as int, to as int)),
{
    let ghost part = s@.subrange(from as int, to as int);
    let mut a: usize = from;
    while a < to && s[a].is_whitespace()
        invariant
            from <= a <= to <= s.len(),
            part == s@.subrange(from as int, to as int),
            ws_len(part, 0) == (a - from) + ws_len(part, a - from),
        decreases to - a,
    {
        a += 1;
    }
    if a == to {
        assert(s@.subrange(a as int, a as int) =~= Seq::<char>::empty());
        return (a, a);
    }
    let mut b: usize = to;
    proof {
        assert(part.subrange(0, (to - from) as int) =~= part);
    }
    while b > a && s[b - 1].is_whitespace()
        invariant
            from <= a < b <= to <= s.len(),
            part == s@.subrange(from as int, to as int),
            ws_len(part, 0) == a - from,
            !char_is_whitespace(s@[a as int]),
            trailing_ws_len(part) == (to - b) + trailing_ws_len(part.subrange(0, b - from)),
        decreases b,
    {
        proof {
            let head = part.subrange(0, b - from);
            assert(head.last() == s@[b - 1]);
            assert(head.drop_last() =~= part.subrange(0, b - 1 - from));
        }
        b -= 1;
    }
    proof {
        let head = part.subrange(0, b - from);
        assert(head.last() == s@[b - 1]);
        assert(s@.subrange(a as int, b as int) =~= part.subrange(a - from, b - from));
    }
    (a, b)
}

/// Whether `a` and `b` hold the same characters.
pub fn same_chars(a: &[char], b: &[char]) -> (r: bool)
    ensures
        r == (a@ == b@),
{
    if a.len() != b.len() {
        return false;
    }
    let mut k: usize = 0;
    while k < a.len()
        invariant
            a.len() == b.len(),
            k <= a.len(),
            forall|j: int| 0 <= j < k ==> a@[j] == b@[j],
        decreases a.len() - k,
    {
        if a[k] != b[k] {
            return false;
        }
        k += 1;
    }
    assert(a@ =~= b@);
    true
}

/// The characters of `s`, in order.
pub fn to_chars(s: &str) -> (v: Vec<char>)
    ensures
        v@ == s@,
{
    let mut v: Vec<char> = Vec::new();
    for c in it: s.chars()
        invariant
            v@ == it.seq().take(it.index()),
            it.seq() == s@,
    {
        v.push(c);
    }
    v
}

/// The characters `s[from..to]` as a `String`.
pub(crate) fn to_string(s: &[char], from: usize, to: usize) -> (r: String)
    requires
        from <= to <= s.len(),
    ensures
        r@ == s@.subrange(from as int, to as int),
{
    let mut r = String::new();
    let mut k: usize = from;
    while k < to
        invariant
            from <= k <= to <= s.len(),
            r@ == s@.subrange(from as int, k as int),
        decreases to - k,
    {
        r.push(s[k]);
        k += 1;
        assert(s@.subrange(from as int, k as int) =~= s@.subrange(from as int, k - 1).push(
            s@[k - 1],
        ));
    }
    r
}

} // verus!
