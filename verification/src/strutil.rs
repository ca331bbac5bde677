//! Verified helpers over `&str` and its `Seq<char>` view: whitespace
//! trimming, character search and equality.  The protocol modules state
//! their contracts in terms of the spec functions defined here.

use vstd::prelude::*;
use vstd::string::*;

verus! {

/// Whether two strings are equal, compared character by character.
pub(crate) fn str_eq(a: &str, b: &str) -> (r: bool)
    ensures
        r == (a@ == b@),
{
    let n = a.unicode_len();
    let m = b.unicode_len();
    if n != m {
        return false;
    }
    let mut i: usize = 0;
    while i < n
        invariant
            0 <= i <= n,
            n == a@.len(),
            n == b@.len(),
            forall|k: int| 0 <= k < i ==> a@[k] == b@[k],
        decreases n - i,
    {
        if a.get_char(i) != b.get_char(i) {
            return false;
        }
        i = i + 1;
    }
    proof {
        assert(a@ =~= b@);
    }
    true
}

/// The whitespace characters this library trims and tokenizes on: the
/// ASCII blanks that occur in line-oriented wire text.
pub open spec fn is_space(c: char) -> bool {
    c == ' ' || c == '\t' || c == '\n' || c == '\r'
}

/// Runtime test for [`is_space`].
pub(crate) fn is_space_char(c: char) -> (r: bool)
    ensures
        r == is_space(c),
{
    c == ' ' || c == '\t' || c == '\n' || c == '\r'
}

/// `s` with every leading whitespace character removed.
pub open spec fn trim_start_spec(s: Seq<char>) -> Seq<char>
    decreases s.len(),
{
    if s.len() > 0 && is_space(s[0]) {
        trim_start_spec(s.drop_first())
    } else {
        s
    }
}

/// `s` with every trailing whitespace character removed.
pub open spec fn trim_end_spec(s: Seq<char>) -> Seq<char>
    decreases s.len(),
{
    if s.len() > 0 && is_space(s[s.len() - 1]) {
        trim_end_spec(s.drop_last())
    } else {
        s
    }
}

/// `s` with leading and trailing whitespace removed.
pub open spec fn trim_spec(s: Seq<char>) -> Seq<char> {
    trim_end_spec(trim_start_spec(s))
}

proof fn lemma_trim_start_subrange(s: Seq<char>, i: int)
    requires
        0 <= i <= s.len(),
        forall|k: int| 0 <= k < i ==> is_space(s[k]),
        i == s.len() || !is_space(s[i]),
    ensures
        trim_start_spec(s) == s.subrange(i, s.len() as int),
    decreases i,
{
    if i == 0 {
        assert(s.subrange(0, s.len() as int) =~= s);
    } else {
        assert(is_space(s[0]));
        lemma_trim_start_subrange(s.drop_first(), i - 1);
        assert(s.drop_first().subrange(i - 1, s.drop_first().len() as int) =~= s.subrange(
            i,
            s.len() as int,
        ));
    }
}

proof fn lemma_trim_end_subrange(s: Seq<char>, j: int)
    requires
        0 <= j <= s.len(),
        forall|k: int| j <= k < s.len() ==> is_space(s[k]),
        j == 0 || !is_space(s[j - 1]),
    ensures
        trim_end_spec(s) == s.subrange(0, j),
    decreases s.len(),
{
    if j == s.len() {
        if s.len() > 0 {
            assert(!is_space(s[s.len() - 1]));
        }
        assert(s.subrange(0, j) =~= s);
    } else {
        assert(is_space(s[s.len() - 1]));
        lemma_trim_end_subrange(s.drop_last(), j);
        assert(s.drop_last().subrange(0, j) =~= s.subrange(0, j));
    }
}

/// Returns `s` with leading and trailing whitespace removed.
pub(crate) fn trim(s: &str) -> (r: String)
    ensures
        r@ == trim_spec(s@),
{
    let n = s.unicode_len();
    let mut i: usize = 0;
    while i < n && is_space_char(s.get_char(i))
        invariant
            0 <= i <= n,
            n == s@.len(),
            forall|k: int| 0 <= k < i ==> is_space(s@[k]),
        decreases n - i,
    {
        i = i + 1;
    }
    let mut j: usize = n;
    while j > i && is_space_char(s.get_char(j - 1))
        invariant
            i <= j <= n,
            n == s@.len(),
            forall|k: int| j <= k < n ==> is_space(s@[k]),
        decreases j,
    {
        j = j - 1;
    }
    proof {
        lemma_trim_start_subrange(s@, i as int);
        let t = s@.subrange(i as int, n as int);
        lemma_trim_end_subrange(t, j - i);
        assert(t.subrange(0, j - i) =~= s@.subrange(i as int, j as int));
    }
    let piece = s.substring_char(i, j);
    piece.to_owned()
}

/// The length of the leading whitespace run of `s`.
pub open spec fn ws_len(s: Seq<char>) -> int
    decreases s.len(),
{
    if s.len() > 0 && is_space(s[0]) {
        1 + ws_len(s.drop_first())
    } else {
        0
    }
}

/// Whether `s` is whitespace throughout.
pub open spec fn all_space(s: Seq<char>) -> bool {
    forall|k: int| 0 <= k < s.len() ==> is_space(s[k])
}

/// What [`ws_len`] returns: the position of the first non-whitespace
/// character, or the whole length.
pub proof fn lemma_ws_len(s: Seq<char>)
    ensures
        0 <= ws_len(s) <= s.len(),
        forall|k: int| 0 <= k < ws_len(s) ==> is_space(s[k]),
        ws_len(s) == s.len() || !is_space(s[ws_len(s)]),
        ws_len(s) == s.len() ==> all_space(s),
    decreases s.len(),
{
    if s.len() > 0 && is_space(s[0]) {
        let t = s.drop_first();
        lemma_ws_len(t);
        assert forall|k: int| 0 <= k < ws_len(s) implies is_space(s[k]) by {
            if k > 0 {
                assert(s[k] == t[k - 1]);
            }
        }
        if ws_len(s) < s.len() {
            assert(s[ws_len(s)] == t[ws_len(t)]);
        }
        if ws_len(s) == s.len() {
            assert forall|k: int| 0 <= k < s.len() implies is_space(s[k]) by {
                if k > 0 {
                    assert(s[k] == t[k - 1]);
                }
            }
        }
    }
}

/// With `j` the first non-whitespace position (or the end), the
/// whitespace run is exactly `j` long.
proof fn lemma_ws_len_pinned(s: Seq<char>, j: int)
    requires
        0 <= j <= s.len(),
        forall|k: int| 0 <= k < j ==> is_space(s[k]),
        j == s.len() || !is_space(s[j]),
    ensures
        ws_len(s) == j,
    decreases j,
{
    if j == 0 {
        if s.len() > 0 {
            assert(!is_space(s[0]));
        }
    } else {
        assert(is_space(s[0]));
        let t = s.drop_first();
        assert forall|k: int| 0 <= k < j - 1 implies is_space(t[k]) by {
            assert(t[k] == s[k + 1]);
        }
        if j - 1 < t.len() {
            assert(t[j - 1] == s[j]);
        }
        lemma_ws_len_pinned(t, j - 1);
    }
}

/// Advances past the whitespace run of `s` that starts at position `i`.
pub(crate) fn skip_ws(s: &str, i: usize) -> (r: usize)
    requires
        i <= s@.len(),
    ensures
        i <= r <= s@.len(),
        r - i == ws_len(s@.skip(i as int)),
        forall|k: int| i <= k < r ==> is_space(s@[k]),
        r == s@.len() || !is_space(s@[r as int]),
{
    let n = s.unicode_len();
    let mut j: usize = i;
    while j < n && is_space_char(s.get_char(j))
        invariant
            i <= j <= n,
            n == s@.len(),
            forall|k: int| i <= k < j ==> is_space(s@[k]),
        decreases n - j,
    {
        j = j + 1;
    }
    proof {
        let t = s@.skip(i as int);
        assert forall|k: int| 0 <= k < j - i implies is_space(t[k]) by {
            assert(t[k] == s@[i + k]);
        }
        if j < n {
            assert(t[j - i] == s@[j as int]);
        }
        lemma_ws_len_pinned(t, j - i);
    }
    j
}

/// Whether `p` is a prefix of `s`.
pub open spec fn begins_with(s: Seq<char>, p: Seq<char>) -> bool {
    p.len() <= s.len() && s.subrange(0, p.len() as int) == p
}

/// Tests whether `p` occurs in `s` starting at character position `i`.
pub(crate) fn starts_with_at(s: &str, i: usize, p: &str) -> (r: bool)
    requires
        i <= s@.len(),
    ensures
        r == begins_with(s@.skip(i as int), p@),
{
    let n = s.unicode_len();
    let m = p.unicode_len();
    if m > n - i {
        proof {
            assert(s@.skip(i as int).len() == n - i);
        }
        false
    } else {
        let piece = s.substring_char(i, i + m);
        let r = str_eq(piece, p);
        proof {
            assert(s@.skip(i as int).subrange(0, m as int) =~= s@.subrange(
                i as int,
                i + m as int,
            ));
        }
        r
    }
}

/// The index of the first occurrence of `c` in `s`, if any.
pub open spec fn spec_find(s: Seq<char>, c: char) -> Option<int>
    decreases s.len(),
{
    if s.len() == 0 {
        None
    } else if s[0] == c {
        Some(0int)
    } else {
        match spec_find(s.drop_first(), c) {
            Some(i) => Some(i + 1),
            None => None,
        }
    }
}

/// What [`spec_find`] returns: the least index holding `c`, or `None`
/// when `c` does not occur.
pub proof fn lemma_spec_find(s: Seq<char>, c: char)
    ensures
        match spec_find(s, c) {
            Some(i) => 0 <= i < s.len() && s[i] == c && forall|k: int| 0 <= k < i ==> s[k] != c,
            None => forall|k: int| 0 <= k < s.len() ==> s[k] != c,
        },
    decreases s.len(),
{
    if s.len() == 0 {
    } else if s[0] == c {
    } else {
        let t = s.drop_first();
        lemma_spec_find(t, c);
        match spec_find(t, c) {
            Some(i) => {
                assert(s[i + 1] == t[i]);
                assert forall|k: int| 0 <= k < i + 1 implies s[k] != c by {
                    if k > 0 {
                        assert(s[k] == t[k - 1]);
                    }
                }
            },
            None => {
                assert forall|k: int| 0 <= k < s.len() implies s[k] != c by {
                    if k > 0 {
                        assert(s[k] == t[k - 1]);
                    }
                }
            },
        }
    }
}

/// Finds the first occurrence of `c` in `s`.
pub(crate) fn find_first(s: &str, c: char) -> (r: Option<usize>)
    ensures
        match r {
            Some(i) => spec_find(s@, c) == Some(i as int),
            None => spec_find(s@, c) is None,
        },
{
    let n = s.unicode_len();
    let mut i: usize = 0;
    while i < n
        invariant
            0 <= i <= n,
            n == s@.len(),
            forall|k: int| 0 <= k < i ==> s@[k] != c,
        decreases n - i,
    {
        if s.get_char(i) == c {
            proof {
                lemma_spec_find(s@, c);
            }
            return Some(i);
        }
        i = i + 1;
    }
    proof {
        lemma_spec_find(s@, c);
    }
    None
}

/// Uppercases one ASCII letter; every other character stands for
/// itself.
pub open spec fn upper_char(c: char) -> char {
    if 'a' <= c && c <= 'z' {
        ((c as u32) - 32) as char
    } else {
        c
    }
}

/// Runtime [`upper_char`].
pub(crate) fn upper_char_exec(c: char) -> (r: char)
    ensures
        r == upper_char(c),
{
    if 'a' <= c && c <= 'z' {
        proof {
            assert(c as u32 >= 97 && c as u32 <= 122);
        }
        (((c as u32) - 32) as u8) as char
    } else {
        c
    }
}

/// Equality up to ASCII letter case.
pub open spec fn ascii_eq_ignore_case(a: Seq<char>, b: Seq<char>) -> bool {
    a.len() == b.len() && forall|i: int| 0 <= i < a.len() ==> upper_char(a[i]) == upper_char(b[i])
}

/// Compares two strings ignoring ASCII letter case.
pub(crate) fn eq_ignore_case(a: &str, b: &str) -> (r: bool)
    ensures
        r == ascii_eq_ignore_case(a@, b@),
{
    let n = a.unicode_len();
    let m = b.unicode_len();
    if n != m {
        return false;
    }
    let mut i: usize = 0;
    while i < n
        invariant
            0 <= i <= n,
            n == a@.len(),
            n == b@.len(),
            forall|k: int| 0 <= k < i ==> upper_char(a@[k]) == upper_char(b@[k]),
        decreases n - i,
    {
        if upper_char_exec(a.get_char(i)) != upper_char_exec(b.get_char(i)) {
            return false;
        }
        i = i + 1;
    }
    true
}

/// The maximal non-whitespace prefix of `s`.
pub open spec fn token_prefix(s: Seq<char>) -> Seq<char>
    decreases s.len(),
{
    if s.len() > 0 && !is_space(s[0]) {
        seq![s[0]] + token_prefix(s.drop_first())
    } else {
        Seq::empty()
    }
}

/// [`token_prefix`] never outgrows its input, and a non-space head
/// makes it non-empty.
proof fn lemma_token_prefix_len(s: Seq<char>)
    ensures
        0 <= token_prefix(s).len() <= s.len(),
        s.len() > 0 && !is_space(s[0]) ==> token_prefix(s).len() >= 1,
    decreases s.len(),
{
    if s.len() > 0 && !is_space(s[0]) {
        lemma_token_prefix_len(s.drop_first());
    }
}

/// With `j` the first whitespace position (or the end), the token
/// prefix is exactly `s[..j]`.
proof fn lemma_token_prefix(s: Seq<char>, j: int)
    requires
        0 <= j <= s.len(),
        forall|k: int| 0 <= k < j ==> !is_space(s[k]),
        j == s.len() || is_space(s[j]),
    ensures
        token_prefix(s) == s.subrange(0, j),
    decreases j,
{
    if j == 0 {
        assert(s.subrange(0, 0) =~= Seq::<char>::empty());
        if s.len() > 0 {
            assert(is_space(s[0]));
        }
    } else {
        assert(!is_space(s[0]));
        let t = s.drop_first();
        assert forall|k: int| 0 <= k < j - 1 implies !is_space(t[k]) by {
            assert(t[k] == s[k + 1]);
        }
        if j - 1 < t.len() {
            assert(t[j - 1] == s[j]);
        }
        lemma_token_prefix(t, j - 1);
        assert(seq![s[0]] + t.subrange(0, j - 1) =~= s.subrange(0, j));
    }
}

/// The whitespace-separated tokens of `s`, in order, each non-empty.
pub open spec fn tokenize(s: Seq<char>) -> Seq<Seq<char>>
    decreases s.len(),
    via tokenize_dec
{
    if s.len() == 0 {
        Seq::empty()
    } else if is_space(s[0]) {
        tokenize(s.drop_first())
    } else {
        seq![token_prefix(s)] + tokenize(s.skip(token_prefix(s).len() as int))
    }
}

#[via_fn]
proof fn tokenize_dec(s: Seq<char>) {
    if s.len() > 0 && !is_space(s[0]) {
        lemma_token_prefix_len(s);
    }
}

/// Splits `s` into its whitespace-separated tokens.
pub(crate) fn tokenize_line(s: &str) -> (r: Vec<String>)
    ensures
        r@.len() == tokenize(s@).len(),
        forall|k: int| 0 <= k < r@.len() ==> r@[k]@ == tokenize(s@)[k],
{
    let n = s.unicode_len();
    let mut out: Vec<String> = Vec::new();
    let ghost mut done: Seq<Seq<char>> = Seq::empty();
    let mut i: usize = 0;
    proof {
        assert(s@.skip(0) =~= s@);
        assert(Seq::<Seq<char>>::empty() + tokenize(s@) =~= tokenize(s@));
    }
    while i < n
        invariant
            0 <= i <= n,
            n == s@.len(),
            done.len() == out@.len(),
            forall|k: int| 0 <= k < done.len() ==> done[k] == out@[k]@,
            tokenize(s@) == done + tokenize(s@.skip(i as int)),
        decreases n - i,
    {
        let c = s.get_char(i);
        if is_space_char(c) {
            proof {
                assert(s@.skip(i as int)[0] == s@[i as int]);
                assert(s@.skip(i as int).drop_first() =~= s@.skip(i + 1 as int));
            }
            i = i + 1;
        } else {
            let mut j: usize = i + 1;
            while j < n && !is_space_char(s.get_char(j))
                invariant
                    i < j <= n,
                    n == s@.len(),
                    !is_space(s@[i as int]),
                    forall|k: int| i <= k < j ==> !is_space(s@[k]),
                decreases n - j,
            {
                j = j + 1;
            }
            let tok = s.substring_char(i, j).to_owned();
            proof {
                let t = s@.skip(i as int);
                assert(t[0] == s@[i as int]);
                assert forall|k: int| 0 <= k < j - i implies !is_space(t[k]) by {
                    assert(t[k] == s@[i + k]);
                }
                if j < n {
                    assert(t[j - i] == s@[j as int]);
                }
                lemma_token_prefix(t, j - i);
                assert(t.subrange(0, j - i) =~= s@.subrange(i as int, j as int));
                assert(t.skip(j - i) =~= s@.skip(j as int));
                assert(tokenize(t) == seq![tok@] + tokenize(s@.skip(j as int)));
                assert(done + tokenize(t) =~= done.push(tok@) + tokenize(s@.skip(j as int)));
                done = done.push(tok@);
            }
            out.push(tok);
            i = j;
        }
    }
    proof {
        assert(s@.skip(n as int).len() == 0);
        assert(tokenize(s@.skip(n as int)) =~= Seq::<Seq<char>>::empty());
        assert(tokenize(s@) =~= done);
    }
    out
}

/// The first position where `p` occurs in `s`, if any.
pub open spec fn find_sub(s: Seq<char>, p: Seq<char>) -> Option<int>
    decreases s.len(),
{
    if begins_with(s, p) {
        Some(0int)
    } else if s.len() == 0 {
        None
    } else {
        match find_sub(s.drop_first(), p) {
            Some(i) => Some(i + 1),
            None => None,
        }
    }
}

/// What [`find_sub`] returns: the least position where `p` begins, or
/// `None` when it never does.
pub proof fn lemma_find_sub(s: Seq<char>, p: Seq<char>)
    ensures
        match find_sub(s, p) {
            Some(i) => 0 <= i <= s.len() && begins_with(s.skip(i), p) && forall|k: int|
                0 <= k < i ==> !begins_with(s.skip(k), p),
            None => forall|k: int| 0 <= k <= s.len() ==> !begins_with(s.skip(k), p),
        },
    decreases s.len(),
{
    if begins_with(s, p) {
        assert(s.skip(0) =~= s);
    } else if s.len() == 0 {
        assert forall|k: int| 0 <= k <= s.len() implies !begins_with(s.skip(k), p) by {
            assert(s.skip(k) =~= s);
        }
    } else {
        let t = s.drop_first();
        lemma_find_sub(t, p);
        assert(s.skip(0) =~= s);
        assert forall|k: int| 1 <= k <= s.len() implies s.skip(k) =~= t.skip(k - 1) by {}
        match find_sub(t, p) {
            Some(i) => {
                assert(s.skip(i + 1) =~= t.skip(i));
                assert(begins_with(s.skip(i + 1), p));
                assert forall|k: int| 0 <= k < i + 1 implies !begins_with(s.skip(k), p) by {
                    if k > 0 {
                        assert(s.skip(k) =~= t.skip(k - 1));
                    }
                }
            },
            None => {
                assert forall|k: int| 0 <= k <= s.len() implies !begins_with(s.skip(k), p) by {
                    if k > 0 {
                        assert(s.skip(k) =~= t.skip(k - 1));
                    }
                }
            },
        }
    }
}

/// Finds the first occurrence of `p` in `s`.
pub(crate) fn find_sub_str(s: &str, p: &str) -> (r: Option<usize>)
    ensures
        match r {
            Some(i) => find_sub(s@, p@) == Some(i as int),
            None => find_sub(s@, p@) is None,
        },
{
    let n = s.unicode_len();
    let mut k: usize = 0;
    while k < n
        invariant
            0 <= k <= n,
            n == s@.len(),
            forall|m: int| 0 <= m < k ==> !begins_with(s@.skip(m), p@),
        decreases n - k,
    {
        if starts_with_at(s, k, p) {
            proof {
                lemma_find_sub(s@, p@);
                match find_sub(s@, p@) {
                    Some(i) => {
                        if i < k {
                            assert(begins_with(s@.skip(i), p@));
                        }
                        if i > k {
                            assert(!begins_with(s@.skip(k as int), p@));
                        }
                    },
                    None => {
                        assert(!begins_with(s@.skip(k as int), p@));
                    },
                }
            }
            return Some(k);
        }
        k = k + 1;
    }
    if starts_with_at(s, n, p) {
        proof {
            lemma_find_sub(s@, p@);
            match find_sub(s@, p@) {
                Some(i) => {
                    if i < n {
                        assert(begins_with(s@.skip(i), p@));
                    }
                },
                None => {
                    assert(!begins_with(s@.skip(n as int), p@));
                },
            }
        }
        return Some(n);
    }
    proof {
        lemma_find_sub(s@, p@);
        match find_sub(s@, p@) {
            Some(i) => {
                assert(begins_with(s@.skip(i), p@));
            },
            None => {},
        }
    }
    None
}

} // verus!
