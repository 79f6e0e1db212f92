//! Character-level text utilities: whitespace trimming, character search,
//! and splitting a character sequence at a separator.
use vstd::prelude::*;

verus! {

/// The whitespace characters that may surround a token without being part
/// of it: space, tab, and carriage return (so CRLF line ends are harmless).
pub open spec fn is_space(c: char) -> bool {
    c == ' ' || c == '\t' || c == '\r'
}

/// The sequence with its leading whitespace removed.
pub open spec fn trim_front(s: Seq<char>) -> Seq<char>
    decreases s.len(),
{
    if s.len() == 0 {
        s
    } else if is_space(s[0]) {
        trim_front(s.drop_first())
    } else {
        s
    }
}

/// The sequence with its trailing whitespace removed.
pub open spec fn trim_back(s: Seq<char>) -> Seq<char>
    decreases s.len(),
{
    if s.len() == 0 {
        s
    } else if is_space(s.last()) {
        trim_back(s.drop_last())
    } else {
        s
    }
}

/// The sequence with surrounding whitespace removed and nothing else changed.
pub open spec fn trim(s: Seq<char>) -> Seq<char> {
    trim_back(trim_front(s))
}

/// Index of the first occurrence of `c` in `s`, or `s.len()` if absent.
pub open spec fn find_at(s: Seq<char>, c: char) -> nat
    decreases s.len(),
{
    if s.len() == 0 {
        0
    } else if s[0] == c {
        0
    } else {
        1 + find_at(s.drop_first(), c)
    }
}

/// The segments of `s` between occurrences of the separator `c`.
/// A sequence with no separator is one segment; n separators give n + 1
/// segments, some possibly empty.
pub open spec fn split_at_char(s: Seq<char>, c: char) -> Seq<Seq<char>>
    decreases s.len(),
{
    let f = find_at(s, c) as int;
    if f >= s.len() {
        seq![s]
    } else {
        seq![s.subrange(0, f)] + split_at_char(s.subrange(f + 1, s.len() as int), c)
    }
}

pub proof fn lemma_find_at(s: Seq<char>, c: char, i: int)
    requires
        0 <= i <= s.len(),
        forall|k: int| 0 <= k < i ==> s[k] != c,
        i < s.len() ==> s[i] == c,
    ensures
        find_at(s, c) == i,
    decreases i,
{
    if s.len() == 0 {
    } else if i == 0 {
    } else {
        assert(s[0] != c);
        lemma_find_at(s.drop_first(), c, i - 1);
    }
}

pub proof fn lemma_trim_front_prefix(s: Seq<char>, a: int)
    requires
        0 <= a <= s.len(),
        forall|k: int| 0 <= k < a ==> is_space(s[k]),
        a < s.len() ==> !is_space(s[a]),
    ensures
        trim_front(s) == s.subrange(a, s.len() as int),
    decreases a,
{
    if a == 0 {
        assert(s.subrange(0, s.len() as int) =~= s);
    } else {
        assert(is_space(s[0]));
        lemma_trim_front_prefix(s.drop_first(), a - 1);
        assert(s.drop_first().subrange(a - 1, s.drop_first().len() as int) =~= s.subrange(
            a,
            s.len() as int,
        ));
    }
}

pub proof fn lemma_trim_back_suffix(s: Seq<char>, b: int)
    requires
        0 <= b <= s.len(),
        forall|k: int| b <= k < s.len() ==> is_space(s[k]),
        b > 0 ==> !is_space(s[b - 1]),
    ensures
        trim_back(s) == s.subrange(0, b),
    decreases s.len() - b,
{
    if b == s.len() {
        assert(s.subrange(0, s.len() as int) =~= s);
    } else {
        assert(is_space(s.last()));
        lemma_trim_back_suffix(s.drop_last(), b);
        assert(s.drop_last().subrange(0, b) =~= s.subrange(0, b));
    }
}

/// Executable test for the whitespace class of `is_space`.
pub fn is_space_char(c: char) -> (b: bool)
    ensures
        b == is_space(c),
{
    c == ' ' || c == '\t' || c == '\r'
}

/// The characters of a string, in order, as a vector.
pub fn chars_of(s: &str) -> (r: Vec<char>)
    ensures
        r@ == s@,
{
    let n = s.unicode_len();
    let mut r: Vec<char> = Vec::new();
    let mut i: usize = 0;
    while i < n
        invariant
            i <= n,
            n == s@.len(),
            r@ == s@.subrange(0, i as int),
        decreases n - i,
    {
        r.push(s.get_char(i));
        i += 1;
        proof {
            assert(r@ =~= s@.subrange(0, i as int));
        }
    }
    proof {
        assert(s@.subrange(0, n as int) =~= s@);
    }
    r
}

/// A copy of the characters of `s` from index `a` (inclusive) to `b`
/// (exclusive).
pub fn copy_range(s: &Vec<char>, a: usize, b: usize) -> (r: Vec<char>)
    requires
        a <= b <= s@.len(),
    ensures
        r@ == s@.subrange(a as int, b as int),
{
    let mut r: Vec<char> = Vec::new();
    let mut k = a;
    while k < b
        invariant
            a <= k <= b <= s@.len(),
            r@ == s@.subrange(a as int, k as int),
        decreases b - k,
    {
        r.push(s[k]);
        k += 1;
        proof {
            assert(r@ =~= s@.subrange(a as int, k as int));
        }
    }
    r
}

/// The slice of `s` between `from` and `to` with surrounding whitespace
/// removed.
pub fn trim_range(s: &Vec<char>, from: usize, to: usize) -> (r: Vec<char>)
    requires
        from <= to <= s@.len(),
    ensures
        r@ == trim(s@.subrange(from as int, to as int)),
{
    let ghost sub = s@.subrange(from as int, to as int);
    let mut a = from;
    while a < to && is_space_char(s[a])
        invariant
            from <= a <= to <= s@.len(),
            forall|k: int| from <= k < a ==> is_space(s@[k]),
        decreases to - a,
    {
        a += 1;
    }
    let mut b = to;
    while b > a && is_space_char(s[b - 1])
        invariant
            a <= b <= to <= s@.len(),
            forall|k: int| b <= k < to ==> is_space(s@[k]),
        decreases b,
    {
        b -= 1;
    }
    proof {
        lemma_trim_front_prefix(sub, a - from);
        let fronted = sub.subrange(a - from, sub.len() as int);
        assert(fronted =~= s@.subrange(a as int, to as int));
        lemma_trim_back_suffix(fronted, b - a);
        assert(fronted.subrange(0, b - a) =~= s@.subrange(a as int, b as int));
    }
    copy_range(s, a, b)
}

/// Index of the first occurrence of `c` in `s`, or the length of `s` if it
/// does not occur.
pub fn find_char(s: &Vec<char>, c: char) -> (i: usize)
    ensures
        i as nat == find_at(s@, c),
        i <= s@.len(),
        i < s@.len() ==> s@[i as int] == c,
        forall|k: int| 0 <= k < i ==> s@[k] != c,
{
    let n = s.len();
    let mut i: usize = 0;
    while i < n && s[i] != c
        invariant
            i <= n,
            n == s@.len(),
            forall|k: int| 0 <= k < i ==> s@[k] != c,
        decreases n - i,
    {
        i += 1;
    }
    proof {
        lemma_find_at(s@, c, i as int);
    }
    i
}

/// The segments of `s` between occurrences of `c`, as fresh vectors.
pub fn split_chars(s: &Vec<char>, c: char) -> (r: Vec<Vec<char>>)
    ensures
        r@.map_values(|x: Vec<char>| x@) == split_at_char(s@, c),
        r@.len() >= 1,
{
    let n = s.len();
    let mut r: Vec<Vec<char>> = Vec::new();
    let mut start: usize = 0;
    let mut j: usize = 0;
    proof {
        assert(s@.subrange(0, n as int) =~= s@);
        assert(r@.map_values(|x: Vec<char>| x@) =~= Seq::<Seq<char>>::empty());
    }
    while j < n
        invariant
            start <= j <= n,
            n == s@.len(),
            forall|k: int| start <= k < j ==> s@[k] != c,
            split_at_char(s@, c) == r@.map_values(|x: Vec<char>| x@) + split_at_char(
                s@.subrange(start as int, n as int),
                c,
            ),
        decreases n - j,
    {
        if s[j] == c {
            let seg = copy_range(s, start, j);
            proof {
                let tail = s@.subrange(start as int, n as int);
                lemma_find_at(tail, c, j - start);
                assert(tail.subrange(0, j - start) =~= s@.subrange(start as int, j as int));
                assert(tail.subrange(j - start + 1, tail.len() as int) =~= s@.subrange(
                    j + 1,
                    n as int,
                ));
                assert((r@.push(seg)).map_values(|x: Vec<char>| x@) =~= r@.map_values(
                    |x: Vec<char>| x@,
                ).push(seg@));
                assert(r@.map_values(|x: Vec<char>| x@).push(seg@) + split_at_char(
                    s@.subrange(j + 1, n as int),
                    c,
                ) =~= r@.map_values(|x: Vec<char>| x@) + (seq![seg@] + split_at_char(
                    s@.subrange(j + 1, n as int),
                    c,
                )));
            }
            r.push(seg);
            start = j + 1;
        }
        j += 1;
    }
    let seg = copy_range(s, start, n);
    proof {
        let tail = s@.subrange(start as int, n as int);
        lemma_find_at(tail, c, tail.len() as int);
        assert(split_at_char(tail, c) == seq![tail]);
        assert((r@.push(seg)).map_values(|x: Vec<char>| x@) =~= r@.map_values(|x: Vec<char>| x@)
            + seq![seg@]);
    }
    r.push(seg);
    r
}

/// Relies on `String: FromIterator<char>`: collecting characters yields a
/// string holding exactly those characters in order.
#[verifier::external_body]
pub(crate) fn string_from_chars(cs: &Vec<char>) -> (r: String)
    ensures
        r@ == cs@,
{
    cs.iter().collect()
}

} // verus!
