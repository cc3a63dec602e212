//! Small verified helpers over strings and character sequences that the
//! rest of the crate builds on: equality, whitespace splitting, and
//! simple scanning.

use vstd::prelude::*;

verus! {

/// Executable string equality, pinned to view equality.
pub fn str_eq(a: &str, b: &str) -> (r: bool)
    ensures
        r == (a@ == b@),
{
    let x: String = a.to_owned();
    let y: String = b.to_owned();
    x == y
}

/// The whitespace characters on which command strings are split.
pub open spec fn is_ws(c: char) -> bool {
    c == ' ' || c == '\t' || c == '\n' || c == '\r'
}

/// Executable check mirroring `is_ws`.
pub fn is_ws_char(c: char) -> (r: bool)
    ensures
        r == is_ws(c),
{
    c == ' ' || c == '\t' || c == '\n' || c == '\r'
}

/// Whether some character of `s` is whitespace.
pub open spec fn contains_ws(s: Seq<char>) -> bool {
    exists|i: int| 0 <= i < s.len() && is_ws(s[i])
}

/// Executable scan for a whitespace character.
pub fn has_whitespace(s: &str) -> (r: bool)
    ensures
        r == contains_ws(s@),
{
    let n = s.unicode_len();
    let mut i: usize = 0;
    while i < n
        invariant
            n == s@.len(),
            0 <= i <= n,
            forall|k: int| 0 <= k < i ==> !is_ws(s@[k]),
        decreases n - i,
    {
        if is_ws_char(s.get_char(i)) {
            return true;
        }
        i = i + 1;
    }
    false
}

/// Index of the first whitespace character of `s`, or `s.len()` if none.
pub open spec fn first_ws(s: Seq<char>) -> nat
    decreases s.len(),
{
    if s.len() == 0 {
        0
    } else if is_ws(s[0]) {
        0
    } else {
        1 + first_ws(s.drop_first())
    }
}

pub proof fn lemma_first_ws_bounds(s: Seq<char>)
    ensures
        first_ws(s) <= s.len(),
        forall|k: int| 0 <= k < first_ws(s) ==> !is_ws(s[k]),
        first_ws(s) < s.len() ==> is_ws(s[first_ws(s) as int]),
    decreases s.len(),
{
    if s.len() == 0 {
    } else if is_ws(s[0]) {
    } else {
        lemma_first_ws_bounds(s.drop_first());
        assert forall|k: int| 0 <= k < first_ws(s) implies !is_ws(s[k]) by {
            if k > 0 {
                assert(s.drop_first()[k - 1] == s[k]);
            }
        }
        if first_ws(s) < s.len() {
            assert(s.drop_first()[first_ws(s) - 1] == s[first_ws(s) as int]);
        }
    }
}

/// A prefix of non-whitespace characters closed by either the end of the
/// string or a whitespace character pins `first_ws` down.
pub proof fn lemma_first_ws_at(s: Seq<char>, j: int)
    requires
        0 <= j <= s.len(),
        forall|k: int| 0 <= k < j ==> !is_ws(s[k]),
        j < s.len() ==> is_ws(s[j]),
    ensures
        first_ws(s) == j,
    decreases s.len(),
{
    if s.len() == 0 {
    } else if j == 0 {
        assert(is_ws(s[0]));
    } else {
        assert(!is_ws(s[0]));
        assert forall|k: int| 0 <= k < j - 1 implies !is_ws(s.drop_first()[k]) by {
            assert(s.drop_first()[k] == s[k + 1]);
        }
        if j - 1 < s.drop_first().len() {
            assert(s.drop_first()[j - 1] == s[j]);
        }
        lemma_first_ws_at(s.drop_first(), j - 1);
    }
}

/// The whitespace-separated tokens of `s`, in order.
pub open spec fn split_ws(s: Seq<char>) -> Seq<Seq<char>>
    decreases s.len(),
    via split_ws_decreases
{
    if s.len() == 0 {
        Seq::empty()
    } else if is_ws(s[0]) {
        split_ws(s.drop_first())
    } else {
        seq![s.subrange(0, first_ws(s) as int)] + split_ws(
            s.subrange(first_ws(s) as int, s.len() as int),
        )
    }
}

#[via_fn]
proof fn split_ws_decreases(s: Seq<char>) {
    if s.len() > 0 && !is_ws(s[0]) {
        lemma_first_ws_bounds(s);
    }
}

/// Splitting a string that starts with a full token peels that token off.
pub proof fn lemma_split_ws_token(s: Seq<char>, j: int)
    requires
        0 < j <= s.len(),
        forall|k: int| 0 <= k < j ==> !is_ws(s[k]),
        j < s.len() ==> is_ws(s[j]),
    ensures
        split_ws(s) == seq![s.subrange(0, j)] + split_ws(s.subrange(j, s.len() as int)),
{
    lemma_first_ws_at(s, j);
}

/// Splitting a string that starts with whitespace drops that character.
pub proof fn lemma_split_ws_skip(s: Seq<char>)
    requires
        s.len() > 0,
        is_ws(s[0]),
    ensures
        split_ws(s) == split_ws(s.subrange(1, s.len() as int)),
{
    assert(s.drop_first() =~= s.subrange(1, s.len() as int));
}

/// Executable whitespace splitting, pinned to `split_ws`.
pub fn split_whitespace_tokens(s: &str) -> (r: Vec<String>)
    ensures
        r@.map_values(|t: String| t@) == split_ws(s@),
{
    let n = s.unicode_len();
    let mut out: Vec<String> = Vec::new();
    let mut i: usize = 0;
    proof {
        assert(s@.subrange(0, n as int) =~= s@);
    }
    while i < n
        invariant
            n == s@.len(),
            0 <= i <= n,
            out@.map_values(|t: String| t@) + split_ws(s@.subrange(i as int, n as int))
                == split_ws(s@),
        decreases n - i,
    {
        if is_ws_char(s.get_char(i)) {
            proof {
                lemma_split_ws_skip(s@.subrange(i as int, n as int));
                assert(s@.subrange(i as int, n as int).subrange(1, (n - i) as int)
                    =~= s@.subrange(i + 1, n as int));
            }
            i = i + 1;
        } else {
            let mut j: usize = i + 1;
            loop
                invariant
                    n == s@.len(),
                    i < j <= n,
                    forall|k: int| i <= k < j ==> !is_ws(s@[k]),
                ensures
                    i < j <= n,
                    forall|k: int| i <= k < j ==> !is_ws(s@[k]),
                    j == n || is_ws(s@[j as int]),
                decreases n - j,
            {
                if j == n {
                    break;
                }
                if is_ws_char(s.get_char(j)) {
                    break;
                }
                j = j + 1;
            }
            let token: String = s.substring_char(i, j).to_owned();
            proof {
                let tail = s@.subrange(i as int, n as int);
                assert forall|k: int| 0 <= k < j - i implies !is_ws(tail[k]) by {
                    assert(tail[k] == s@[i + k]);
                }
                if j < n {
                    assert(tail[j - i] == s@[j as int]);
                }
                lemma_split_ws_token(tail, j - i);
                assert(tail.subrange(0, j - i) =~= s@.subrange(i as int, j as int));
                assert(tail.subrange(j - i, tail.len() as int)
                    =~= s@.subrange(j as int, n as int));
            }
            let ghost out_prev = out@;
            out.push(token);
            proof {
                assert(out@.map_values(|t: String| t@)
                    =~= out_prev.map_values(|t: String| t@).push(s@.subrange(i as int, j as int)));
                assert(out@.map_values(|t: String| t@)
                    + split_ws(s@.subrange(j as int, n as int)) =~= split_ws(s@));
            }
            i = j;
        }
    }
    proof {
        assert(s@.subrange(n as int, n as int) =~= Seq::<char>::empty());
        assert(out@.map_values(|t: String| t@) =~= split_ws(s@));
    }
    out
}


/// Whether character `c` occurs in `s`.
pub open spec fn contains_char(s: Seq<char>, c: char) -> bool {
    exists|i: int| 0 <= i < s.len() && s[i] == c
}

/// Executable scan for one character.
pub fn has_char(s: &str, c: char) -> (r: bool)
    ensures
        r == contains_char(s@, c),
{
    let n = s.unicode_len();
    let mut i: usize = 0;
    while i < n
        invariant
            n == s@.len(),
            0 <= i <= n,
            forall|k: int| 0 <= k < i ==> s@[k] != c,
        decreases n - i,
    {
        if s.get_char(i) == c {
            return true;
        }
        i = i + 1;
    }
    false
}

/// The characters of `s` as a vector.
pub fn chars_of(s: &str) -> (r: Vec<char>)
    ensures
        r@ == s@,
{
    let n = s.unicode_len();
    let mut r: Vec<char> = Vec::new();
    let mut i: usize = 0;
    while i < n
        invariant
            n == s@.len(),
            0 <= i <= n,
            r@ =~= s@.subrange(0, i as int),
        decreases n - i,
    {
        r.push(s.get_char(i));
        proof {
            assert(r@ =~= s@.subrange(0, i + 1));
        }
        i = i + 1;
    }
    proof {
        assert(s@.subrange(0, n as int) =~= s@);
    }
    r
}

/// How many whitespace characters `s` starts with.
pub open spec fn leading_ws(s: Seq<char>) -> nat
    decreases s.len(),
{
    if s.len() == 0 {
        0
    } else if is_ws(s[0]) {
        1 + leading_ws(s.drop_first())
    } else {
        0
    }
}

/// How many whitespace characters `s` ends with.
pub open spec fn trailing_ws(s: Seq<char>) -> nat
    decreases s.len(),
{
    if s.len() == 0 {
        0
    } else if is_ws(s.last()) {
        1 + trailing_ws(s.drop_last())
    } else {
        0
    }
}

/// `s` with leading and trailing whitespace dropped.
pub open spec fn trim_ws(s: Seq<char>) -> Seq<char> {
    if leading_ws(s) == s.len() {
        Seq::empty()
    } else {
        s.subrange(leading_ws(s) as int, s.len() - trailing_ws(s))
    }
}

/// A whitespace prefix closed by a non-whitespace character (or the
/// end) pins `leading_ws` down.
pub proof fn lemma_leading_ws_at(s: Seq<char>, j: int)
    requires
        0 <= j <= s.len(),
        forall|k: int| 0 <= k < j ==> is_ws(s[k]),
        j < s.len() ==> !is_ws(s[j]),
    ensures
        leading_ws(s) == j,
    decreases s.len(),
{
    if s.len() == 0 {
    } else if j == 0 {
        assert(!is_ws(s[0]));
    } else {
        assert(is_ws(s[0]));
        assert forall|k: int| 0 <= k < j - 1 implies is_ws(s.drop_first()[k]) by {
            assert(s.drop_first()[k] == s[k + 1]);
        }
        if j - 1 < s.drop_first().len() {
            assert(s.drop_first()[j - 1] == s[j]);
        }
        lemma_leading_ws_at(s.drop_first(), j - 1);
    }
}

/// A whitespace suffix closed by a non-whitespace character (or the
/// start) pins `trailing_ws` down.
pub proof fn lemma_trailing_ws_at(s: Seq<char>, j: int)
    requires
        0 <= j <= s.len(),
        forall|k: int| s.len() - j <= k < s.len() ==> is_ws(s[k]),
        j < s.len() ==> !is_ws(s[s.len() - j - 1]),
    ensures
        trailing_ws(s) == j,
    decreases s.len(),
{
    if s.len() == 0 {
    } else if j == 0 {
        assert(!is_ws(s.last()));
    } else {
        assert(is_ws(s.last()));
        assert forall|k: int| s.drop_last().len() - (j - 1) <= k < s.drop_last().len()
            implies is_ws(s.drop_last()[k]) by {
            assert(s.drop_last()[k] == s[k]);
        }
        if j - 1 < s.drop_last().len() {
            assert(s.drop_last()[s.drop_last().len() - (j - 1) - 1] == s[s.len() - j - 1]);
        }
        lemma_trailing_ws_at(s.drop_last(), j - 1);
    }
}

/// Executable trim, pinned to `trim_ws`.
pub fn trim_spaces(s: &str) -> (r: String)
    ensures
        r@ == trim_ws(s@),
{
    let n = s.unicode_len();
    let mut start: usize = 0;
    loop
        invariant
            n == s@.len(),
            0 <= start <= n,
            forall|k: int| 0 <= k < start ==> is_ws(s@[k]),
        ensures
            0 <= start <= n,
            forall|k: int| 0 <= k < start ==> is_ws(s@[k]),
            start == n || !is_ws(s@[start as int]),
        decreases n - start,
    {
        if start == n {
            break;
        }
        if !is_ws_char(s.get_char(start)) {
            break;
        }
        start = start + 1;
    }
    if start == n {
        proof {
            lemma_leading_ws_at(s@, n as int);
        }
        return String::new();
    }
    proof {
        lemma_leading_ws_at(s@, start as int);
    }
    let mut end: usize = n;
    loop
        invariant
            n == s@.len(),
            start <= end <= n,
            start < n,
            forall|k: int| end <= k < n ==> is_ws(s@[k]),
            !is_ws(s@[start as int]),
        ensures
            start <= end <= n,
            forall|k: int| end <= k < n ==> is_ws(s@[k]),
            end == start || !is_ws(s@[end - 1]),
        decreases end,
    {
        if end == start {
            break;
        }
        if !is_ws_char(s.get_char(end - 1)) {
            break;
        }
        end = end - 1;
    }
    proof {
        if end == start {
            assert(is_ws(s@[start as int]));
        }
        lemma_trailing_ws_at(s@, n - end);
    }
    s.substring_char(start, end).to_owned()
}

} // verus!
