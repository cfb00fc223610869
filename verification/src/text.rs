use vstd::prelude::*;

verus! {

/// Whether `c` has the Unicode `White_Space` property, which is what
/// `char::is_whitespace` (and so `str::trim`) tests.
pub open spec fn is_whitespace(c: char) -> bool {
    let u = c as u32;
    ||| 0x09 <= u <= 0x0d
    ||| u == 0x20
    ||| u == 0x85
    ||| u == 0xa0
    ||| u == 0x1680
    ||| 0x2000 <= u <= 0x200a
    ||| u == 0x2028
    ||| u == 0x2029
    ||| u == 0x202f
    ||| u == 0x205f
    ||| u == 0x3000
}

/// `s` without its leading whitespace.
pub open spec fn trim_start(s: Seq<char>) -> Seq<char>
    decreases s.len(),
{
    if s.len() > 0 && is_whitespace(s[0]) {
        trim_start(s.drop_first())
    } else {
        s
    }
}

/// `s` without its trailing whitespace.
pub open spec fn trim_end(s: Seq<char>) -> Seq<char>
    decreases s.len(),
{
    if s.len() > 0 && is_whitespace(s.last()) {
        trim_end(s.drop_last())
    } else {
        s
    }
}

/// `s` without leading and trailing whitespace, as `str::trim` gives it.
pub open spec fn trim(s: Seq<char>) -> Seq<char> {
    trim_end(trim_start(s))
}

/// Tests `c` for the Unicode `White_Space` property.
pub fn char_is_whitespace(c: char) -> (r: bool)
    ensures
        r == is_whitespace(c),
{
    let u = c as u32;
    (0x09 <= u && u <= 0x0d) || u == 0x20 || u == 0x85 || u == 0xa0 || u == 0x1680 || (0x2000
        <= u && u <= 0x200a) || u == 0x2028 || u == 0x2029 || u == 0x202f || u == 0x205f || u
        == 0x3000
}

pub proof fn lemma_trim_start_skip(x: Seq<char>, k: int)
    requires
        0 <= k <= x.len(),
        forall|j: int| 0 <= j < k ==> is_whitespace(#[trigger] x[j]),
        k == x.len() || !is_whitespace(x[k]),
    ensures
        trim_start(x) == x.skip(k),
    decreases k,
{
    if k == 0 {
        assert(x.skip(0) == x);
    } else {
        let y = x.drop_first();
        assert forall|j: int| 0 <= j < k - 1 implies is_whitespace(#[trigger] y[j]) by {
            assert(y[j] == x[j + 1]);
        }
        if k - 1 < y.len() {
            assert(y[k - 1] == x[k]);
        }
        lemma_trim_start_skip(y, k - 1);
        assert(y.skip(k - 1) == x.skip(k));
    }
}

pub proof fn lemma_trim_end_take(x: Seq<char>, k: int)
    requires
        0 <= k <= x.len(),
        forall|j: int| k <= j < x.len() ==> is_whitespace(#[trigger] x[j]),
        k == 0 || !is_whitespace(x[k - 1]),
    ensures
        trim_end(x) == x.take(k),
    decreases x.len() - k,
{
    if k == x.len() {
        assert(x.take(k) == x);
    } else {
        let y = x.drop_last();
        assert forall|j: int| k <= j < y.len() implies is_whitespace(#[trigger] y[j]) by {
            assert(y[j] == x[j]);
        }
        if k > 0 {
            assert(y[k - 1] == x[k - 1]);
        }
        lemma_trim_end_take(y, k);
        assert(y.take(k) == x.take(k));
    }
}

/// The bounds of `s[start..end]` with its leading and trailing whitespace
/// left out: `trim(s[start..end]) == s[a..b]`.
pub fn trim_bounds(s: &str, start: usize, end: usize) -> (r: (usize, usize))
    requires
        start <= end <= s@.len(),
    ensures
        start <= r.0 <= r.1 <= end,
        trim(s@.subrange(start as int, end as int)) == s@.subrange(r.0 as int, r.1 as int),
{
    let ghost x = s@.subrange(start as int, end as int);
    let mut a = start;
    while a < end && char_is_whitespace(s.get_char(a))
        invariant
            start <= a <= end <= s@.len(),
            forall|j: int| start <= j < a ==> is_whitespace(#[trigger] s@[j]),
        decreases end - a,
    {
        a = a + 1;
    }
    proof {
        assert forall|j: int| 0 <= j < a - start implies is_whitespace(#[trigger] x[j]) by {
            assert(x[j] == s@[start + j]);
        }
        if a < end {
            assert(x[a - start] == s@[a as int]);
        }
        lemma_trim_start_skip(x, a - start);
    }
    let ghost y = x.skip(a - start);
    assert(y == s@.subrange(a as int, end as int));
    let mut b = end;
    while b > a && char_is_whitespace(s.get_char(b - 1))
        invariant
            start <= a <= b <= end <= s@.len(),
            forall|j: int| b <= j < end ==> is_whitespace(#[trigger] s@[j]),
        decreases b - a,
    {
        b = b - 1;
    }
    proof {
        assert forall|j: int| b - a <= j < y.len() implies is_whitespace(#[trigger] y[j]) by {
            assert(y[j] == s@[a + j]);
        }
        if b > a {
            assert(y[b - a - 1] == s@[b - 1]);
        }
        lemma_trim_end_take(y, b - a);
        assert(y.take(b - a) == s@.subrange(a as int, b as int));
    }
    (a, b)
}

/// Whether `a` and `b` hold the same characters.
pub fn str_eq(a: &str, b: &str) -> (r: bool)
    ensures
        r == (a@ == b@),
{
    let n = a.unicode_len();
    let m = b.unicode_len();
    if n != m {
        return false;
    }
    let mut i: usize = 0;
    while i < n
        invariant
            n == a@.len(),
            m == b@.len(),
            n == m,
            i <= n,
            forall|j: int| 0 <= j < i ==> a@[j] == b@[j],
        decreases n - i,
    {
        if a.get_char(i) != b.get_char(i) {
            return false;
        }
        i = i + 1;
    }
    assert(a@ =~= b@);
    true
}

/// Whether `needle` occurs in `s` starting at position `at`.
fn occurs_at(s: &str, n: usize, needle: &str, m: usize, at: usize) -> (r: bool)
    requires
        n == s@.len(),
        m == needle@.len(),
        at + m <= n,
    ensures
        r == (s@.subrange(at as int, at + m) == needle@),
{
    let mut j: usize = 0;
    while j < m
        invariant
            n == s@.len(),
            m == needle@.len(),
            at + m <= n,
            j <= m,
            forall|k: int| 0 <= k < j ==> s@[at + k] == needle@[k],
        decreases m - j,
    {
        if s.get_char(at + j) != needle.get_char(j) {
            assert(s@.subrange(at as int, at + m)[j as int] != needle@[j as int]);
            return false;
        }
        j = j + 1;
    }
    assert(s@.subrange(at as int, at + m) =~= needle@);
    true
}

/// Whether `prefix` is a prefix of `s`, as `str::starts_with` tests.
pub fn starts_with(s: &str, prefix: &str) -> (r: bool)
    ensures
        r == prefix@.is_prefix_of(s@),
{
    let n = s.unicode_len();
    let m = prefix.unicode_len();
    if m > n {
        return false;
    }
    occurs_at(s, n, prefix, m, 0)
}

/// Whether `needle` occurs somewhere in `s`.
pub open spec fn contains_str(s: Seq<char>, needle: Seq<char>) -> bool {
    exists|i: int| 0 <= i && i + needle.len() <= s.len() && #[trigger] s.subrange(i, i + needle.len()) == needle
}

/// Whether `needle` occurs in `s`, as `str::contains` tests.
pub fn contains(s: &str, needle: &str) -> (r: bool)
    ensures
        r == contains_str(s@, needle@),
{
    let n = s.unicode_len();
    let m = needle.unicode_len();
    if m > n {
        return false;
    }
    let last = n - m;
    let mut at: usize = 0;
    while at < last
        invariant
            n == s@.len(),
            m == needle@.len(),
            last == n - m,
            at <= last,
            forall|i: int| 0 <= i < at ==> #[trigger] s@.subrange(i, i + m) != needle@,
        decreases last - at,
    {
        if occurs_at(s, n, needle, m, at) {
            return true;
        }
        at = at + 1;
    }
    occurs_at(s, n, needle, m, last)
}

} // verus!
