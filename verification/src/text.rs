//! Character-sequence helpers shared by the whole library.
//!
//! Text is handled as sequences of `char`s; spec functions describe the
//! standard-library string operations that the library relies on.
use vstd::prelude::*;

verus! {

/// The characters of `s`, in order.
pub fn chars_of(s: &str) -> (v: Vec<char>)
    ensures
        v@ == s@,
{
    let mut v: Vec<char> = Vec::new();
    for c in it: s.chars()
        invariant
            v@ == it.seq().take(it.index() as int),
            it.seq() == s@,
    {
        v.push(c);
    }
    v
}

/// Collects characters into a `String` (`FromIterator<char>` for `String`).
#[verifier::external_body]
pub(crate) fn string_of(v: &[char]) -> (s: String)
    ensures
        s@ == v@,
{
    v.iter().collect()
}

/// `c` is a Unicode `White_Space` character (what `char::is_whitespace` tests).
pub open spec fn is_ws(c: char) -> bool {
    let u = c as u32;
    (0x09 <= u && u <= 0x0d) || u == 0x20 || u == 0x85 || u == 0xa0 || u == 0x1680 || (0x2000
        <= u && u <= 0x200a) || u == 0x2028 || u == 0x2029 || u == 0x202f || u == 0x205f || u
        == 0x3000
}

/// Executable `char::is_whitespace`.
pub fn is_whitespace(c: char) -> (b: bool)
    ensures
        b == is_ws(c),
{
    let u = c as u32;
    (0x09 <= u && u <= 0x0d) || u == 0x20 || u == 0x85 || u == 0xa0 || u == 0x1680 || (0x2000
        <= u && u <= 0x200a) || u == 0x2028 || u == 0x2029 || u == 0x202f || u == 0x205f || u
        == 0x3000
}

/// Number of leading whitespace characters of `s`.
pub open spec fn lead_ws(s: Seq<char>) -> nat
    decreases s.len(),
{
    if s.len() == 0 || !is_ws(s[0]) {
        0
    } else {
        1 + lead_ws(s.drop_first())
    }
}

/// Number of trailing whitespace characters of `s`.
pub open spec fn trail_ws(s: Seq<char>) -> nat
    decreases s.len(),
{
    if s.len() == 0 || !is_ws(s.last()) {
        0
    } else {
        1 + trail_ws(s.drop_last())
    }
}

/// `s` with leading and trailing whitespace removed (`str::trim`).
pub open spec fn trim(s: Seq<char>) -> Seq<char> {
    let a = lead_ws(s);
    if a == s.len() {
        Seq::empty()
    } else {
        s.subrange(a as int, s.len() - trail_ws(s))
    }
}

proof fn lemma_lead_ws(s: Seq<char>, i: int)
    requires
        0 <= i <= s.len(),
        forall|j: int| 0 <= j < i ==> is_ws(#[trigger] s[j]),
        i == s.len() || !is_ws(s[i]),
    ensures
        lead_ws(s) == i,
    decreases i,
{
    if i > 0 {
        lemma_lead_ws(s.drop_first(), i - 1);
    }
}

proof fn lemma_trail_ws(s: Seq<char>, k: int)
    requires
        0 <= k <= s.len(),
        forall|j: int| s.len() - k <= j < s.len() ==> is_ws(#[trigger] s[j]),
        k == s.len() || !is_ws(s[s.len() - k - 1]),
    ensures
        trail_ws(s) == k,
    decreases k,
{
    if k > 0 {
        lemma_trail_ws(s.drop_last(), k - 1);
    }
}

/// Executable `trim` on a character slice.
pub fn trim_chars(s: &[char]) -> (r: Vec<char>)
    ensures
        r@ == trim(s@),
{
    let n = s.len();
    let mut a: usize = 0;
    while a < n && is_whitespace(s[a])
        invariant
            a <= n,
            n == s@.len(),
            forall|j: int| 0 <= j < a ==> is_ws(#[trigger] s@[j]),
        decreases n - a,
    {
        a = a + 1;
    }
    proof {
        lemma_lead_ws(s@, a as int);
    }
    if a == n {
        return Vec::new();
    }
    let mut b: usize = n;
    while b > a && is_whitespace(s[b - 1])
        invariant
            a < n,
            a <= b <= n,
            n == s@.len(),
            !is_ws(s@[a as int]),
            forall|j: int| b <= j < n ==> is_ws(#[trigger] s@[j]),
        decreases b,
    {
        b = b - 1;
    }
    proof {
        lemma_trail_ws(s@, (n - b) as int);
    }
    slice_range(s, a, b)
}

/// Copies `s[from..to]`.
pub fn slice_range(s: &[char], from: usize, to: usize) -> (r: Vec<char>)
    requires
        from <= to <= s@.len(),
    ensures
        r@ == s@.subrange(from as int, to as int),
{
    let mut r: Vec<char> = Vec::new();
    let mut i = from;
    while i < to
        invariant
            from <= i <= to,
            to <= s@.len(),
            r@ == s@.subrange(from as int, i as int),
        decreases to - i,
    {
        r.push(s[i]);
        i = i + 1;
    }
    r
}

/// Appends `s[from..to]` to `out`.
pub fn push_range(out: &mut Vec<char>, s: &[char], from: usize, to: usize)
    requires
        from <= to <= s@.len(),
    ensures
        final(out)@ == old(out)@ + s@.subrange(from as int, to as int),
{
    let mut i = from;
    while i < to
        invariant
            from <= i <= to,
            to <= s@.len(),
            out@ == old(out)@ + s@.subrange(from as int, i as int),
        decreases to - i,
    {
        out.push(s[i]);
        i = i + 1;
        proof {
            assert(s@.subrange(from as int, i as int) =~= s@.subrange(from as int, i - 1).push(
                s@[i - 1],
            ));
        }
    }
}

/// Appends all of `s` to `out`.
pub fn push_all(out: &mut Vec<char>, s: &[char])
    ensures
        final(out)@ == old(out)@ + s@,
{
    push_range(out, s, 0, s.len());
    proof {
        assert(s@.subrange(0, s@.len() as int) =~= s@);
    }
}

/// Appends the characters of a string slice to `out`.
pub fn push_str(out: &mut Vec<char>, s: &str)
    ensures
        final(out)@ == old(out)@ + s@,
{
    let cs = chars_of(s);
    push_all(out, cs.as_slice());
}

/// `p` occurs in `s` at position `i`.
pub open spec fn occurs_at(s: Seq<char>, p: Seq<char>, i: int) -> bool {
    0 <= i && i + p.len() <= s.len() && s.subrange(i, i + p.len()) == p
}

/// `s` starts with `p`.
pub open spec fn has_prefix(s: Seq<char>, p: Seq<char>) -> bool {
    occurs_at(s, p, 0)
}

/// Executable `occurs_at`.
pub fn matches_at(s: &[char], p: &[char], i: usize) -> (b: bool)
    ensures
        b == occurs_at(s@, p@, i as int),
{
    if i > s.len() || p.len() > s.len() - i {
        return false;
    }
    let mut k: usize = 0;
    while k < p.len()
        invariant
            k <= p@.len(),
            i + p@.len() <= s.len(),
            forall|j: int| 0 <= j < k ==> s@[i + j] == p@[j],
        decreases p@.len() - k,
    {
        if s[i + k] != p[k] {
            proof {
                assert(s@.subrange(i as int, i + p@.len())[k as int] != p@[k as int]);
            }
            return false;
        }
        k = k + 1;
    }
    proof {
        assert(s@.subrange(i as int, i + p@.len()) =~= p@);
    }
    true
}

/// Executable `has_prefix`.
pub fn starts_with(s: &[char], p: &[char]) -> (b: bool)
    ensures
        b == has_prefix(s@, p@),
{
    matches_at(s, p, 0)
}

/// Position of the first occurrence of `p` in `s` at or after `from`.
pub open spec fn find_from(s: Seq<char>, p: Seq<char>, from: int) -> Option<int>
    decreases s.len() + 1 - from,
{
    if from < 0 || from + p.len() > s.len() {
        None
    } else if occurs_at(s, p, from) {
        Some(from)
    } else {
        find_from(s, p, from + 1)
    }
}

/// Position of the first occurrence of `p` in `s` (`str::find`, counted in characters).
pub open spec fn find(s: Seq<char>, p: Seq<char>) -> Option<int> {
    find_from(s, p, 0)
}

/// `find_from` returns the least position at or after `from` where `p` occurs.
pub proof fn lemma_find_from(s: Seq<char>, p: Seq<char>, from: int)
    requires
        0 <= from,
    ensures
        find_from(s, p, from) matches Some(i) ==> from <= i && occurs_at(s, p, i) && forall|
            j: int,
        | from <= j < i ==> !occurs_at(s, p, j),
        find_from(s, p, from) is None ==> forall|j: int| from <= j ==> !occurs_at(s, p, j),
    decreases s.len() + 1 - from,
{
    if from + p.len() > s.len() {
    } else if occurs_at(s, p, from) {
    } else {
        lemma_find_from(s, p, from + 1);
    }
}

/// Executable `find_from`.
pub fn find_chars_from(s: &[char], p: &[char], from: usize) -> (r: Option<usize>)
    ensures
        r matches Some(i) ==> find_from(s@, p@, from as int) == Some(i as int),
        r is None ==> find_from(s@, p@, from as int) is None,
{
    if p.len() > s.len() || from > s.len() - p.len() {
        proof {
            assert(find_from(s@, p@, from as int) is None);
        }
        return None;
    }
    let last = s.len() - p.len();
    let mut i = from;
    loop
        invariant
            from <= i <= last,
            last + p@.len() == s@.len(),
            find_from(s@, p@, from as int) == find_from(s@, p@, i as int),
        decreases last - i,
    {
        if matches_at(s, p, i) {
            return Some(i);
        }
        if i == last {
            proof {
                assert(find_from(s@, p@, i + 1) is None);
            }
            return None;
        }
        i = i + 1;
    }
}

/// Executable `find`.
pub fn find_chars(s: &[char], p: &[char]) -> (r: Option<usize>)
    ensures
        r matches Some(i) ==> find(s@, p@) == Some(i as int),
        r is None ==> find(s@, p@) is None,
{
    find_chars_from(s, p, 0)
}

/// `s` contains `p` somewhere.
pub open spec fn contains(s: Seq<char>, p: Seq<char>) -> bool {
    exists|i: int| occurs_at(s, p, i)
}

/// Executable `contains` (`str::contains`).
pub fn contains_chars(s: &[char], p: &[char]) -> (b: bool)
    ensures
        b == contains(s@, p@),
{
    let r = find_chars(s, p);
    proof {
        lemma_find_from(s@, p@, 0);
        if let Some(i) = r {
            assert(occurs_at(s@, p@, i as int));
        } else {
            assert forall|j: int| !occurs_at(s@, p@, j) by {
                if j < 0 {
                }
            }
        }
    }
    r.is_some()
}

/// `s` with every non-overlapping occurrence of the non-empty `pat`, scanned from the
/// left, replaced by `rep` (`str::replace`).
pub open spec fn replace_all(s: Seq<char>, pat: Seq<char>, rep: Seq<char>) -> Seq<char>
    decreases s.len(),
{
    if pat.len() == 0 || s.len() < pat.len() {
        s
    } else if s.take(pat.len() as int) == pat {
        rep + replace_all(s.skip(pat.len() as int), pat, rep)
    } else {
        seq![s[0]] + replace_all(s.skip(1), pat, rep)
    }
}

/// Executable `replace_all`.
pub fn replace_chars(s: &[char], pat: &[char], rep: &[char]) -> (r: Vec<char>)
    requires
        pat@.len() > 0,
    ensures
        r@ == replace_all(s@, pat@, rep@),
{
    let mut out: Vec<char> = Vec::new();
    let mut i: usize = 0;
    proof {
        assert(s@.skip(0) =~= s@);
    }
    while i < s.len()
        invariant
            i <= s@.len(),
            pat@.len() > 0,
            out@ + replace_all(s@.skip(i as int), pat@, rep@) == replace_all(s@, pat@, rep@),
        decreases s@.len() - i,
    {
        let ghost rest = s@.skip(i as int);
        if matches_at(s, pat, i) {
            proof {
                assert(rest.take(pat@.len() as int) =~= s@.subrange(i as int, i + pat@.len()));
                assert(rest.skip(pat@.len() as int) =~= s@.skip(i + pat@.len()));
                assert(out@ + rep@ + replace_all(s@.skip(i + pat@.len()), pat@, rep@) =~= out@
                    + replace_all(rest, pat@, rep@));
            }
            push_all(&mut out, rep);
            i = i + pat.len();
        } else {
            proof {
                if rest.len() >= pat@.len() {
                    assert(rest.take(pat@.len() as int) =~= s@.subrange(
                        i as int,
                        i + pat@.len(),
                    ));
                    assert(rest.take(pat@.len() as int) != pat@);
                }
                assert(rest.skip(1) =~= s@.skip(i + 1));
                assert(rest[0] == s@[i as int]);
                if rest.len() < pat@.len() {
                    assert(replace_all(rest, pat@, rep@) == rest);
                    assert(rest.skip(1).len() < pat@.len());
                    assert(replace_all(rest.skip(1), pat@, rep@) == rest.skip(1));
                    assert(rest =~= seq![rest[0]] + rest.skip(1));
                }
                assert(out@.push(s@[i as int]) + replace_all(s@.skip(i + 1), pat@, rep@) =~= out@
                    + replace_all(rest, pat@, rep@));
            }
            out.push(s[i]);
            i = i + 1;
        }
    }
    proof {
        assert(s@.skip(i as int).len() == 0);
        assert(out@ + s@.skip(i as int) =~= out@);
    }
    out
}

/// An occurrence with none before it (from `from` on) is what `find_from` finds.
pub proof fn lemma_find_first(s: Seq<char>, p: Seq<char>, from: int, i: int)
    requires
        0 <= from <= i,
        occurs_at(s, p, i),
        forall|j: int| from <= j < i ==> !occurs_at(s, p, j),
    ensures
        find_from(s, p, from) == Some(i),
    decreases i - from,
{
    if from < i {
        lemma_find_first(s, p, from + 1, i);
    }
}

/// Text appended after the first occurrence of a pattern does not move it.
pub proof fn lemma_find_extend(s1: Seq<char>, s2: Seq<char>, p: Seq<char>)
    requires
        find(s1, p) is Some,
    ensures
        find(s1 + s2, p) == find(s1, p),
{
    lemma_find_from(s1, p, 0);
    let i = find(s1, p)->0;
    let s = s1 + s2;
    assert(s.subrange(i, i + p.len()) =~= s1.subrange(i, i + p.len()));
    assert forall|j: int| 0 <= j < i implies !occurs_at(s, p, j) by {
        assert(!occurs_at(s1, p, j));
        assert(s.subrange(j, j + p.len()) =~= s1.subrange(j, j + p.len()));
    }
    lemma_find_first(s, p, 0, i);
}

/// The first items of a list, joined, begin the whole list joined.
pub proof fn lemma_join_prefix(xs: Seq<Seq<char>>, sep: Seq<char>, k: int)
    requires
        0 <= k <= xs.len(),
    ensures
        join(xs.take(k), sep).is_prefix_of(join(xs, sep)),
    decreases xs.len(),
{
    if k == xs.len() {
        assert(xs.take(k) =~= xs);
    } else if xs.len() == 1 {
        assert(xs.take(0) =~= Seq::<Seq<char>>::empty());
    } else {
        let d = xs.drop_last();
        assert(d.take(k) =~= xs.take(k));
        lemma_join_prefix(d, sep, k);
        let a = join(xs.take(k), sep);
        let b = join(d, sep);
        let c = join(xs, sep);
        assert(c == b + sep + xs.last());
        assert(c.subrange(0, a.len() as int) =~= b.subrange(0, a.len() as int));
    }
}

/// The last items of a list, joined, end the whole list joined.
pub proof fn lemma_join_suffix(xs: Seq<Seq<char>>, sep: Seq<char>, k: int)
    requires
        0 <= k <= xs.len(),
    ensures
        join(xs.skip(k), sep).is_suffix_of(join(xs, sep)),
    decreases xs.len(),
{
    if k == 0 {
        assert(xs.skip(0) =~= xs);
    } else if k == xs.len() {
        assert(xs.skip(k) =~= Seq::<Seq<char>>::empty());
    } else if k == xs.len() - 1 {
        assert(xs.skip(k) =~= seq![xs.last()]);
        let c = join(xs, sep);
        assert(c == join(xs.drop_last(), sep) + sep + xs.last());
        assert(c.subrange(c.len() - xs.last().len(), c.len() as int) =~= xs.last());
    } else {
        let d = xs.drop_last();
        assert(xs.skip(k).drop_last() =~= d.skip(k));
        assert(xs.skip(k).last() == xs.last());
        lemma_join_suffix(d, sep, k);
        let a = join(d.skip(k), sep);
        let b = join(d, sep);
        let t = sep + xs.last();
        assert(join(xs.skip(k), sep) == a + sep + xs.last());
        assert(join(xs, sep) == b + sep + xs.last());
        assert((a + sep + xs.last()) =~= a + t);
        assert((b + sep + xs.last()) =~= b + t);
        assert((b + t).subrange((b + t).len() - (a + t).len(), (b + t).len() as int) =~= a + t) by {
            assert(a =~= b.subrange(b.len() - a.len(), b.len() as int));
        }
    }
}

} // verus!

verus! {

/// Pieces of `s` between occurrences of `d` (`str::split` with a `char` pattern);
/// always at least one piece.
pub open spec fn split_on(s: Seq<char>, d: char) -> Seq<Seq<char>>
    decreases s.len(),
{
    if s.len() == 0 {
        seq![Seq::empty()]
    } else {
        let r = split_on(s.drop_last(), d);
        if s.last() == d {
            r.push(Seq::empty())
        } else {
            r.update(r.len() - 1, r.last().push(s.last()))
        }
    }
}

/// `split_on` never yields an empty list of pieces.
pub proof fn lemma_split_on_len(s: Seq<char>, d: char)
    ensures
        split_on(s, d).len() >= 1,
    decreases s.len(),
{
    if s.len() > 0 {
        lemma_split_on_len(s.drop_last(), d);
    }
}

/// Executable `split_on`.
pub fn split_chars(s: &[char], d: char) -> (r: Vec<Vec<char>>)
    ensures
        r@.len() == split_on(s@, d).len(),
        forall|j: int| 0 <= j < r@.len() ==> #[trigger] r@[j]@ == split_on(s@, d)[j],
{
    let mut out: Vec<Vec<char>> = Vec::new();
    let mut cur: Vec<char> = Vec::new();
    let mut i: usize = 0;
    proof {
        assert(s@.take(0) =~= Seq::<char>::empty());
    }
    while i < s.len()
        invariant
            i <= s@.len(),
            out@.len() + 1 == split_on(s@.take(i as int), d).len(),
            forall|j: int| 0 <= j < out@.len() ==> #[trigger] out@[j]@ == split_on(s@.take(i as int), d)[j],
            cur@ == split_on(s@.take(i as int), d).last(),
        decreases s@.len() - i,
    {
        proof {
            lemma_split_on_len(s@.take(i as int), d);
            assert(s@.take(i + 1).drop_last() =~= s@.take(i as int));
        }
        let c = s[i];
        if c == d {
            out.push(cur);
            cur = Vec::new();
        } else {
            cur.push(c);
        }
        i = i + 1;
    }
    proof {
        assert(s@.take(i as int) =~= s@);
    }
    out.push(cur);
    out
}

/// `l` without one trailing carriage return.
pub open spec fn strip_cr(l: Seq<char>) -> Seq<char> {
    if l.len() > 0 && l.last() == '\r' {
        l.drop_last()
    } else {
        l
    }
}

/// The lines of `s` (`str::lines`): split at `\n`, a `\r` before a `\n` is dropped,
/// and a final line ending adds no empty line.
pub open spec fn lines_of(s: Seq<char>) -> Seq<Seq<char>> {
    if s.len() == 0 {
        Seq::empty()
    } else {
        let p = split_on(s, '\n');
        let n = if s.last() == '\n' {
            p.len() - 1
        } else {
            p.len() as int
        };
        Seq::new(n as nat, |i: int| if i < p.len() - 1 { strip_cr(p[i]) } else { p[i] })
    }
}

/// Executable `strip_cr`.
pub fn strip_cr_chars(l: Vec<char>) -> (r: Vec<char>)
    ensures
        r@ == strip_cr(l@),
{
    let mut l = l;
    if l.len() > 0 && l[l.len() - 1] == '\r' {
        l.pop();
    }
    l
}

/// Executable `lines_of`.
pub fn lines(s: &[char]) -> (r: Vec<Vec<char>>)
    ensures
        r@.len() == lines_of(s@).len(),
        forall|j: int| 0 <= j < r@.len() ==> #[trigger] r@[j]@ == lines_of(s@)[j],
{
    if s.len() == 0 {
        return Vec::new();
    }
    let pieces = split_chars(s, '\n');
    proof {
        lemma_split_on_len(s@, '\n');
    }
    let ghost p = split_on(s@, '\n');
    let n: usize = if s[s.len() - 1] == '\n' {
        pieces.len() - 1
    } else {
        pieces.len()
    };
    let mut out: Vec<Vec<char>> = Vec::new();
    let mut pieces = pieces;
    let mut rev: Vec<Vec<char>> = Vec::new();
    // Take pieces out in reverse so each can be moved.
    let total = pieces.len();
    while pieces.len() > 0
        invariant
            total == p.len(),
            pieces@.len() + rev@.len() == total,
            forall|j: int| 0 <= j < pieces@.len() ==> #[trigger] pieces@[j]@ == p[j],
            forall|j: int|
                0 <= j < rev@.len() ==> #[trigger] rev@[j]@ == p[total - 1 - j],
        decreases pieces@.len(),
    {
        let x = pieces.pop().unwrap();
        rev.push(x);
    }
    let mut k: usize = 0;
    while k < n
        invariant
            total == p.len(),
            n <= total,
            rev@.len() == total - k,
            forall|j: int|
                0 <= j < rev@.len() ==> #[trigger] rev@[j]@ == p[total - 1 - j],
            out@.len() == k,
            k <= n,
            n == lines_of(s@).len(),
            s@.len() > 0,
            p == split_on(s@, '\n'),
            forall|j: int| 0 <= j < k ==> #[trigger] out@[j]@ == lines_of(s@)[j],
        decreases n - k,
    {
        let x = rev.pop().unwrap();
        proof {
            assert(x@ == p[k as int]);
        }
        let line = if k + 1 < total {
            strip_cr_chars(x)
        } else {
            x
        };
        proof {
            assert(lines_of(s@)[k as int] == (if k + 1 < total {
                strip_cr(p[k as int])
            } else {
                p[k as int]
            }));
        }
        out.push(line);
        k = k + 1;
    }
    out
}

/// Views of a list of strings.
pub open spec fn strings_view(v: Seq<String>) -> Seq<Seq<char>> {
    v.map_values(|s: String| s@)
}

/// `xs` joined with `sep` between consecutive items (`[T]::join`).
pub open spec fn join(xs: Seq<Seq<char>>, sep: Seq<char>) -> Seq<char>
    decreases xs.len(),
{
    if xs.len() == 0 {
        Seq::empty()
    } else if xs.len() == 1 {
        xs[0]
    } else {
        join(xs.drop_last(), sep) + sep + xs.last()
    }
}

/// The character sequences of a list of character vectors.
pub open spec fn char_seqs(xs: Seq<Vec<char>>) -> Seq<Seq<char>> {
    xs.map_values(|x: Vec<char>| x@)
}

/// Executable `join`.
pub fn join_chars(xs: &Vec<Vec<char>>, sep: &[char]) -> (r: Vec<char>)
    ensures
        r@ == join(char_seqs(xs@), sep@),
{
    let mut r: Vec<char> = Vec::new();
    let mut i: usize = 0;
    proof {
        assert(char_seqs(xs@.take(0)) =~= Seq::<Seq<char>>::empty());
    }
    while i < xs.len()
        invariant
            i <= xs@.len(),
            r@ == join(char_seqs(xs@.take(i as int)), sep@),
        decreases xs@.len() - i,
    {
        proof {
            assert(char_seqs(xs@.take(i + 1)) =~= char_seqs(xs@.take(i as int)).push(xs@[i as int]@));
            lemma_join_push(char_seqs(xs@.take(i as int)), xs@[i as int]@, sep@);
        }
        if i > 0 {
            push_all(&mut r, sep);
        }
        push_all(&mut r, xs[i].as_slice());
        i = i + 1;
    }
    proof {
        assert(xs@.take(i as int) =~= xs@);
    }
    r
}

/// The decimal digit character for `d < 10`.
pub open spec fn digit_char(d: nat) -> char {
    ((48 + d) as u8) as char
}

/// Decimal representation of `n`, as `Display` writes unsigned integers.
pub open spec fn decimal(n: nat) -> Seq<char>
    decreases n,
{
    if n < 10 {
        seq![digit_char(n)]
    } else {
        decimal(n / 10).push(digit_char(n % 10))
    }
}

/// Executable digit.
pub fn digit(d: u128) -> (c: char)
    requires
        d < 10,
    ensures
        c == digit_char(d as nat),
{
    let b: u8 = 48 + (d as u8);
    b as char
}

/// Appends the decimal form of `n` to `out`.
pub fn push_decimal(out: &mut Vec<char>, n: u128)
    ensures
        final(out)@ == old(out)@ + decimal(n as nat),
    decreases n,
{
    if n < 10 {
        out.push(digit(n));
    } else {
        push_decimal(out, n / 10);
        out.push(digit(n % 10));
    }
}

} // verus!

verus! {

/// Number of bytes UTF-8 takes for `c` (`char::len_utf8`).
pub open spec fn char_len(c: char) -> nat {
    let u = c as u32;
    if u < 0x80 {
        1
    } else if u < 0x800 {
        2
    } else if u < 0x10000 {
        3
    } else {
        4
    }
}

/// Number of bytes of the UTF-8 encoding of `s` (what `str::len` reports).
pub open spec fn utf8_len(s: Seq<char>) -> nat
    decreases s.len(),
{
    if s.len() == 0 {
        0
    } else {
        utf8_len(s.drop_last()) + char_len(s.last())
    }
}

/// Byte lengths add up over concatenation.
pub proof fn lemma_utf8_len_concat(a: Seq<char>, b: Seq<char>)
    ensures
        utf8_len(a + b) == utf8_len(a) + utf8_len(b),
    decreases b.len(),
{
    if b.len() == 0 {
        assert(a + b =~= a);
    } else {
        lemma_utf8_len_concat(a, b.drop_last());
        assert((a + b).drop_last() =~= a + b.drop_last());
    }
}

/// Each character takes between one and four bytes.
pub proof fn lemma_utf8_len_bounds(s: Seq<char>)
    ensures
        s.len() <= utf8_len(s) <= 4 * s.len(),
    decreases s.len(),
{
    if s.len() > 0 {
        lemma_utf8_len_bounds(s.drop_last());
    }
}

/// Executable `char_len`.
pub fn char_width(c: char) -> (n: u128)
    ensures
        n == char_len(c),
{
    let u = c as u32;
    if u < 0x80 {
        1
    } else if u < 0x800 {
        2
    } else if u < 0x10000 {
        3
    } else {
        4
    }
}

/// Executable `utf8_len`.
pub fn utf8_len_of(s: &[char]) -> (n: u128)
    ensures
        n == utf8_len(s@),
{
    let mut n: u128 = 0;
    let mut i: usize = 0;
    proof {
        assert(s@.take(0) =~= Seq::<char>::empty());
    }
    while i < s.len()
        invariant
            i <= s@.len(),
            n == utf8_len(s@.take(i as int)),
            n <= 4 * i,
        decreases s@.len() - i,
    {
        proof {
            assert(s@.take(i + 1).drop_last() =~= s@.take(i as int));
        }
        n = n + char_width(s[i]);
        i = i + 1;
    }
    proof {
        assert(s@.take(i as int) =~= s@);
    }
    n
}

/// Joining after appending one item.
pub proof fn lemma_join_push(xs: Seq<Seq<char>>, x: Seq<char>, sep: Seq<char>)
    ensures
        join(xs.push(x), sep) == if xs.len() == 0 {
            x
        } else {
            join(xs, sep) + sep + x
        },
{
    assert(xs.push(x).drop_last() =~= xs);
}

/// Extending the last item extends the join.
pub proof fn lemma_join_extend_last(xs: Seq<Seq<char>>, c: char, sep: Seq<char>)
    requires
        xs.len() >= 1,
    ensures
        join(xs.update(xs.len() - 1, xs.last().push(c)), sep) == join(xs, sep).push(c),
{
    let ys = xs.update(xs.len() - 1, xs.last().push(c));
    if xs.len() == 1 {
    } else {
        assert(ys.drop_last() =~= xs.drop_last());
        assert(join(ys, sep) =~= join(xs, sep).push(c));
    }
}

/// Splitting at a character and joining the pieces back gives the text again.
pub proof fn lemma_join_split(s: Seq<char>, d: char)
    ensures
        join(split_on(s, d), seq![d]) == s,
    decreases s.len(),
{
    if s.len() == 0 {
    } else {
        let r = split_on(s.drop_last(), d);
        lemma_join_split(s.drop_last(), d);
        lemma_split_on_len(s.drop_last(), d);
        if s.last() == d {
            lemma_join_push(r, Seq::empty(), seq![d]);
            assert(s =~= s.drop_last() + seq![d] + Seq::<char>::empty());
        } else {
            lemma_join_extend_last(r, s.last(), seq![d]);
            assert(s =~= s.drop_last().push(s.last()));
        }
    }
}

/// Number of pieces of a split: one more than the separators.
pub open spec fn count_char(s: Seq<char>, d: char) -> nat
    decreases s.len(),
{
    if s.len() == 0 {
        0
    } else {
        count_char(s.drop_last(), d) + if s.last() == d {
            1nat
        } else {
            0nat
        }
    }
}

/// A split has one piece more than there are separators.
pub proof fn lemma_split_on_count(s: Seq<char>, d: char)
    ensures
        split_on(s, d).len() == count_char(s, d) + 1,
    decreases s.len(),
{
    if s.len() > 0 {
        lemma_split_on_count(s.drop_last(), d);
    }
}

/// Executable `count_char`.
pub fn count_chars(s: &[char], d: char) -> (n: usize)
    ensures
        n == count_char(s@, d),
{
    let mut n: usize = 0;
    let mut i: usize = 0;
    proof {
        assert(s@.take(0) =~= Seq::<char>::empty());
    }
    while i < s.len()
        invariant
            i <= s@.len(),
            n <= i,
            n == count_char(s@.take(i as int), d),
        decreases s@.len() - i,
    {
        proof {
            assert(s@.take(i + 1).drop_last() =~= s@.take(i as int));
        }
        if s[i] == d {
            n = n + 1;
        }
        i = i + 1;
    }
    proof {
        assert(s@.take(i as int) =~= s@);
    }
    n
}

} // verus!

verus! {

/// Number of leading characters of `s` that fit in `b` bytes (all of `s` when
/// `b` covers it).
pub fn byte_prefix_chars(s: &[char], b: u128) -> (c: usize)
    ensures
        c <= s@.len(),
        utf8_len(s@.take(c as int)) <= b,
        c == s@.len() || utf8_len(s@.take(c + 1)) > b,
        b >= utf8_len(s@) ==> c == s@.len(),
{
    let mut acc: u128 = 0;
    let mut c: usize = 0;
    proof {
        assert(s@.take(0) =~= Seq::<char>::empty());
    }
    while c < s.len()
        invariant
            c <= s@.len(),
            acc == utf8_len(s@.take(c as int)),
            acc <= 4 * c,
            acc <= b,
        decreases s@.len() - c,
    {
        proof {
            assert(s@.take(c + 1).drop_last() =~= s@.take(c as int));
        }
        let w = char_width(s[c]);
        if acc + w > b {
            proof {
                lemma_prefix_bytes_le(s@, c + 1);
            }
            return c;
        }
        acc = acc + w;
        c = c + 1;
    }
    proof {
        assert(s@.take(c as int) =~= s@);
    }
    c
}

/// A prefix takes no more bytes than the whole.
pub proof fn lemma_prefix_bytes_le(s: Seq<char>, i: int)
    requires
        0 <= i <= s.len(),
    ensures
        utf8_len(s.take(i)) <= utf8_len(s),
{
    assert(s =~= s.take(i) + s.skip(i));
    lemma_utf8_len_concat(s.take(i), s.skip(i));
}

/// Byte counts of prefixes grow strictly with their length.
pub proof fn lemma_prefix_bytes_strict(s: Seq<char>, i: int, j: int)
    requires
        0 <= i < j <= s.len(),
    ensures
        utf8_len(s.take(i)) < utf8_len(s.take(j)),
{
    assert(s.take(j) =~= s.take(i) + s.subrange(i, j));
    lemma_utf8_len_concat(s.take(i), s.subrange(i, j));
    lemma_utf8_len_bounds(s.subrange(i, j));
}

} // verus!

verus! {

/// `s` without its trailing characters equal to `c` (`str::trim_end_matches`).
pub open spec fn trim_end_char(s: Seq<char>, c: char) -> Seq<char>
    decreases s.len(),
{
    if s.len() > 0 && s.last() == c {
        trim_end_char(s.drop_last(), c)
    } else {
        s
    }
}

/// Executable `trim_end_char`.
pub fn trim_end_chars(s: &[char], c: char) -> (r: Vec<char>)
    ensures
        r@ == trim_end_char(s@, c),
{
    let mut n = s.len();
    proof {
        assert(s@.take(n as int) =~= s@);
    }
    while n > 0 && s[n - 1] == c
        invariant
            n <= s@.len(),
            trim_end_char(s@.take(n as int), c) == trim_end_char(s@, c),
        decreases n,
    {
        proof {
            assert(s@.take(n as int).drop_last() =~= s@.take(n - 1));
        }
        n = n - 1;
    }
    slice_range(s, 0, n)
}

/// `s` after the prefix `p`, when it starts with it (`str::strip_prefix`).
pub open spec fn after_prefix(s: Seq<char>, p: Seq<char>) -> Option<Seq<char>> {
    if has_prefix(s, p) {
        Some(s.skip(p.len() as int))
    } else {
        None
    }
}

/// Executable `after_prefix`.
pub fn strip_prefix_chars(s: &[char], p: &[char]) -> (r: Option<Vec<char>>)
    ensures
        r is Some <==> after_prefix(s@, p@) is Some,
        r matches Some(v) ==> v@ == after_prefix(s@, p@)->0,
{
    if starts_with(s, p) {
        let v = slice_range(s, p.len(), s.len());
        proof {
            assert(v@ =~= s@.skip(p@.len() as int));
        }
        Some(v)
    } else {
        None
    }
}

} // verus!

verus! {

/// `a` sorts before `b` as `str`'s `Ord` orders them: lexicographically by
/// character (UTF-8 byte order and code point order agree).
pub open spec fn chars_lt(a: Seq<char>, b: Seq<char>) -> bool
    decreases a.len(),
{
    if b.len() == 0 {
        false
    } else if a.len() == 0 {
        true
    } else if a[0] == b[0] {
        chars_lt(a.drop_first(), b.drop_first())
    } else {
        (a[0] as int) < (b[0] as int)
    }
}

/// No text sorts before itself.
pub proof fn lemma_chars_lt_irreflexive(a: Seq<char>)
    ensures
        !chars_lt(a, a),
    decreases a.len(),
{
    if a.len() > 0 {
        lemma_chars_lt_irreflexive(a.drop_first());
    }
}

/// The order is transitive.
pub proof fn lemma_chars_lt_transitive(a: Seq<char>, b: Seq<char>, c: Seq<char>)
    requires
        chars_lt(a, b),
        chars_lt(b, c),
    ensures
        chars_lt(a, c),
    decreases a.len(),
{
    if a.len() > 0 && b.len() > 0 && c.len() > 0 && a[0] == b[0] && b[0] == c[0] {
        lemma_chars_lt_transitive(a.drop_first(), b.drop_first(), c.drop_first());
    }
}

/// Of two different texts, one sorts before the other.
pub proof fn lemma_chars_lt_total(a: Seq<char>, b: Seq<char>)
    ensures
        a == b || chars_lt(a, b) || chars_lt(b, a),
    decreases a.len(),
{
    if a.len() > 0 && b.len() > 0 && a[0] == b[0] {
        lemma_chars_lt_total(a.drop_first(), b.drop_first());
        if a.drop_first() == b.drop_first() {
            assert(a =~= seq![a[0]] + a.drop_first());
            assert(b =~= seq![b[0]] + b.drop_first());
        }
    } else if a.len() == 0 && b.len() == 0 {
        assert(a =~= b);
    } else if a.len() > 0 && b.len() > 0 {
        assert((a[0] as int) != (b[0] as int));
    }
}

/// Executable `chars_lt` (`<` on strings).
pub fn chars_less(a: &[char], b: &[char]) -> (r: bool)
    ensures
        r == chars_lt(a@, b@),
{
    let mut i: usize = 0;
    proof {
        assert(a@.skip(0) =~= a@);
        assert(b@.skip(0) =~= b@);
    }
    while i < a.len() && i < b.len()
        invariant
            i <= a@.len(),
            i <= b@.len(),
            chars_lt(a@, b@) == chars_lt(a@.skip(i as int), b@.skip(i as int)),
        decreases a@.len() - i,
    {
        if a[i] != b[i] {
            return a[i] < b[i];
        }
        proof {
            assert(a@.skip(i as int).drop_first() =~= a@.skip(i + 1));
            assert(b@.skip(i as int).drop_first() =~= b@.skip(i + 1));
        }
        i = i + 1;
    }
    i < b.len()
}

/// `s` is in strictly ascending order.
pub open spec fn chars_increasing(s: Seq<Seq<char>>) -> bool {
    forall|i: int, j: int| 0 <= i < j < s.len() ==> chars_lt(#[trigger] s[i], #[trigger] s[j])
}

/// `s` is in ascending order: no item sorts before one that comes earlier.
pub open spec fn chars_sorted(s: Seq<Seq<char>>) -> bool {
    forall|i: int, j: int| 0 <= i < j < s.len() ==> !chars_lt(#[trigger] s[j], #[trigger] s[i])
}

/// `names` sorted (`[String]::sort`): the same names, in ascending order.
pub fn sort_strings(names: &Vec<String>) -> (r: Vec<String>)
    ensures
        strings_view(r@).to_multiset() == strings_view(names@).to_multiset(),
        chars_sorted(strings_view(r@)),
{
    let mut out: Vec<String> = Vec::new();
    let mut i: usize = 0;
    proof {
        assert(strings_view(names@.take(0)) =~= strings_view(out@));
    }
    while i < names.len()
        invariant
            i <= names@.len(),
            strings_view(out@).to_multiset() == strings_view(names@.take(i as int)).to_multiset(),
            chars_sorted(strings_view(out@)),
        decreases names@.len() - i,
    {
        let x = names[i].clone();
        let xc = chars_of(x.as_str());
        let ghost ov = strings_view(out@);
        assert(x@ == names@[i as int]@);
        let mut k: usize = 0;
        while k < out.len()
            invariant_except_break
                k <= out@.len(),
                ov == strings_view(out@),
                xc@ == x@,
                forall|j: int| 0 <= j < k ==> !chars_lt(x@, #[trigger] ov[j]),
            ensures
                k <= out@.len(),
                ov == strings_view(out@),
                xc@ == x@,
                forall|j: int| 0 <= j < k ==> !chars_lt(x@, #[trigger] ov[j]),
                k < out@.len() ==> chars_lt(x@, ov[k as int]),
            decreases out@.len() - k,
        {
            let oc = chars_of(out[k].as_str());
            assert(oc@ == ov[k as int]);
            if chars_less(xc.as_slice(), oc.as_slice()) {
                break;
            }
            k = k + 1;
        }
        out.insert(k, x);
        proof {
            let nv = strings_view(out@);
            assert(nv =~= ov.insert(k as int, x@));
            assert(strings_view(names@.take(i + 1)) =~= strings_view(names@.take(i as int)).push(x@));
            vstd::seq_lib::to_multiset_insert(ov, k as int, x@);
            vstd::seq_lib::to_multiset_build(strings_view(names@.take(i as int)), x@);
            assert forall|a: int, b: int| 0 <= a < b < nv.len() implies !chars_lt(
                #[trigger] nv[b],
                #[trigger] nv[a],
            ) by {
                if b == k {
                    assert(nv[b] == x@);
                    assert(nv[a] == ov[a]);
                } else if a == k {
                    assert(nv[a] == x@);
                    assert(nv[b] == ov[b - 1]);
                    if chars_lt(ov[b - 1], x@) {
                        lemma_chars_lt_transitive(ov[b - 1], x@, ov[k as int]);
                        if b - 1 == k {
                            lemma_chars_lt_irreflexive(ov[k as int]);
                        }
                    }
                } else {
                    let a0 = if a < k { a } else { a - 1 };
                    let b0 = if b < k { b } else { b - 1 };
                    assert(nv[a] == ov[a0]);
                    assert(nv[b] == ov[b0]);
                }
            }
        }
        i = i + 1;
    }
    proof {
        assert(names@.take(i as int) =~= names@);
    }
    out
}

} // verus!

verus! {

/// The byte of the base64 digit for a six-bit value `n` (standard alphabet).
pub open spec fn b64_byte(n: nat) -> u8 {
    if n < 26 {
        (65 + n) as u8
    } else if n < 52 {
        (71 + n) as u8
    } else if n < 62 {
        (n - 4) as u8
    } else if n == 62 {
        43u8
    } else {
        47u8
    }
}

/// The four base64 characters of a group of `k` bytes (1 to 3) held in the
/// 24-bit value `n`, padded with `=`.
pub open spec fn b64_group(n: nat, k: nat) -> Seq<char> {
    seq![
        b64_byte(n / 262144) as char,
        b64_byte((n / 4096) % 64) as char,
        if k >= 2 {
            b64_byte((n / 64) % 64) as char
        } else {
            '='
        },
        if k == 3 {
            b64_byte(n % 64) as char
        } else {
            '='
        },
    ]
}

/// The standard base64 encoding of `d`, with padding.
pub open spec fn base64(d: Seq<u8>) -> Seq<char>
    decreases d.len(),
{
    if d.len() == 0 {
        Seq::empty()
    } else if d.len() == 1 {
        b64_group(d[0] as nat * 65536, 1)
    } else if d.len() == 2 {
        b64_group(d[0] as nat * 65536 + d[1] as nat * 256, 2)
    } else {
        b64_group(d[0] as nat * 65536 + d[1] as nat * 256 + d[2] as nat, 3) + base64(d.skip(3))
    }
}

/// Executable `b64_byte`.
fn b64_byte_of(n: u32) -> (b: u8)
    requires
        n < 64,
    ensures
        b == b64_byte(n as nat),
{
    if n < 26 {
        65 + n as u8
    } else if n < 52 {
        71 + n as u8
    } else if n < 62 {
        (n - 4) as u8
    } else if n == 62 {
        43
    } else {
        47
    }
}

/// Appends the base64 group of `k` bytes held in `n`.
fn push_b64_group(out: &mut Vec<char>, n: u32, k: u32)
    requires
        n < 16777216,
        1 <= k <= 3,
    ensures
        final(out)@ == old(out)@ + b64_group(n as nat, k as nat),
{
    out.push(b64_byte_of(n / 262144) as char);
    out.push(b64_byte_of((n / 4096) % 64) as char);
    if k >= 2 {
        out.push(b64_byte_of((n / 64) % 64) as char);
    } else {
        out.push('=');
    }
    if k == 3 {
        out.push(b64_byte_of(n % 64) as char);
    } else {
        out.push('=');
    }
    proof {
        assert(final(out)@ =~= old(out)@ + b64_group(n as nat, k as nat));
    }
}

/// Executable `base64`.
pub fn base64_encode(d: &[u8]) -> (r: String)
    ensures
        r@ == base64(d@),
{
    let mut out: Vec<char> = Vec::new();
    let mut i: usize = 0;
    proof {
        assert(d@.skip(0) =~= d@);
        assert(out@ + base64(d@.skip(0)) =~= base64(d@));
    }
    while i < d.len()
        invariant
            i <= d@.len(),
            out@ + base64(d@.skip(i as int)) == base64(d@),
        decreases d@.len() - i,
    {
        let ghost before = out@;
        let ghost rest = d@.skip(i as int);
        let rem = d.len() - i;
        let a = d[i] as u32;
        if rem == 1 {
            push_b64_group(&mut out, a * 65536, 1);
            proof {
                assert(d@.skip(i + 1) =~= Seq::<u8>::empty());
                assert(rest[0] == d@[i as int]);
            }
            i = i + 1;
        } else if rem == 2 {
            let b = d[i + 1] as u32;
            push_b64_group(&mut out, a * 65536 + b * 256, 2);
            proof {
                assert(d@.skip(i + 2) =~= Seq::<u8>::empty());
                assert(rest[0] == d@[i as int] && rest[1] == d@[i + 1]);
            }
            i = i + 2;
        } else {
            let b = d[i + 1] as u32;
            let c = d[i + 2] as u32;
            push_b64_group(&mut out, a * 65536 + b * 256 + c, 3);
            proof {
                assert(rest.skip(3) =~= d@.skip(i + 3));
                assert(rest[0] == d@[i as int] && rest[1] == d@[i + 1] && rest[2] == d@[i + 2]);
                assert(out@ + base64(d@.skip(i + 3)) =~= before + base64(rest));
            }
            i = i + 3;
        }
    }
    proof {
        assert(d@.skip(i as int) =~= Seq::<u8>::empty());
        assert(out@ =~= out@ + base64(d@.skip(i as int)));
    }
    string_of(out.as_slice())
}

} // verus!
