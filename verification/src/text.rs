//! Character-level helpers over `&str` and `String`, stated over `Seq<char>`.

use vstd::prelude::*;

verus! {

broadcast use vstd::string::group_string_axioms;

// ---------------------------------------------------------------------------
// Building strings
// ---------------------------------------------------------------------------

/// The characters of `s`, in order.
pub fn chars_of(s: &str) -> (v: Vec<char>)
    ensures
        v@ == s@,
{
    let mut v: Vec<char> = Vec::new();
    for c in it: s.chars()
        invariant
            it.seq() == s@,
            v@ == it.seq().take(it.index() as int),
    {
        v.push(c);
    }
    v
}

/// Appends one character (`String::push`).
#[verifier::external_body]
pub(crate) fn push_char(s: &mut String, c: char)
    ensures
        final(s)@ == old(s)@.push(c),
{
    s.push(c);
}

/// Appends a string slice.
pub fn push_str(s: &mut String, t: &str)
    ensures
        final(s)@ == old(s)@ + t@,
{
    s.append(t);
}

/// The string made of the characters `v[from..to]`.
pub fn string_of_range(v: &Vec<char>, from: usize, to: usize) -> (s: String)
    requires
        from <= to <= v.len(),
    ensures
        s@ == v@.subrange(from as int, to as int),
{
    let mut s = String::new();
    let mut i = from;
    while i < to
        invariant
            from <= i <= to <= v.len(),
            s@ == v@.subrange(from as int, i as int),
        decreases to - i,
    {
        push_char(&mut s, v[i]);
        assert(v@.subrange(from as int, i + 1) == v@.subrange(from as int, i as int).push(v@[i as int]));
        i += 1;
    }
    s
}

// ---------------------------------------------------------------------------
// Searching
// ---------------------------------------------------------------------------

/// `p` occurs in `s` starting at index `i`.
pub open spec fn occurs_at(s: Seq<char>, p: Seq<char>, i: int) -> bool {
    0 <= i && i + p.len() <= s.len() && s.subrange(i, i + p.len()) == p
}

/// `p` occurs somewhere in `s`.
pub open spec fn has_infix(s: Seq<char>, p: Seq<char>) -> bool {
    exists|i: int| occurs_at(s, p, i)
}

/// `s` ends with `p`.
pub open spec fn has_suffix(s: Seq<char>, p: Seq<char>) -> bool {
    p.len() <= s.len() && s.subrange(s.len() - p.len(), s.len() as int) == p
}

/// Whether `p` occurs in `v` at index `i`, checked character by character.
fn matches_at(v: &Vec<char>, p: &Vec<char>, i: usize) -> (b: bool)
    ensures
        b == occurs_at(v@, p@, i as int),
{
    if i > v.len() || p.len() > v.len() - i {
        return false;
    }
    let mut j: usize = 0;
    while j < p.len()
        invariant
            i + p.len() <= v.len(),
            j <= p.len(),
            forall|k: int| 0 <= k < j ==> v@[i + k] == p@[k],
        decreases p.len() - j,
    {
        if v[i + j] != p[j] {
            assert(v@.subrange(i as int, i + p.len())[j as int] != p@[j as int]);
            return false;
        }
        j += 1;
    }
    assert(v@.subrange(i as int, i + p.len()) =~= p@);
    true
}

/// Whether `p` occurs in `v`.
pub fn vec_contains(v: &Vec<char>, p: &Vec<char>) -> (b: bool)
    ensures
        b == has_infix(v@, p@),
{
    if p.len() > v.len() {
        assert forall|i: int| !occurs_at(v@, p@, i) by {}
        return false;
    }
    let mut i: usize = 0;
    while i < v.len()
        invariant
            i <= v.len(),
            forall|k: int| 0 <= k < i ==> !occurs_at(v@, p@, k),
        decreases v.len() - i,
    {
        if matches_at(v, p, i) {
            return true;
        }
        i += 1;
    }
    if matches_at(v, p, i) {
        return true;
    }
    assert forall|k: int| !occurs_at(v@, p@, k) by {
        if 0 <= k <= i {
        }
    }
    false
}

/// `s` begins with `p`.
pub open spec fn has_prefix(s: Seq<char>, p: Seq<char>) -> bool {
    p.len() <= s.len() && s.take(p.len() as int) == p
}

/// Whether `s` begins with `p`.
pub fn starts_with(s: &str, p: &str) -> (b: bool)
    ensures
        b == has_prefix(s@, p@),
{
    let v = chars_of(s);
    let q = chars_of(p);
    let b = matches_at(&v, &q, 0);
    assert(q@.len() <= v@.len() ==> v@.subrange(0, q@.len() as int) =~= v@.take(q@.len() as int));
    b
}

/// Whether `a` and `b` hold the same characters.
pub fn same_text(a: &str, b: &str) -> (r: bool)
    ensures
        r == (a@ == b@),
{
    let v = chars_of(a);
    let w = chars_of(b);
    if v.len() != w.len() {
        return false;
    }
    let r = matches_at(&v, &w, 0);
    assert(r ==> v@.subrange(0, w@.len() as int) =~= v@);
    assert(v@ == w@ ==> v@.subrange(0, w@.len() as int) =~= w@);
    r
}

/// Whether `p` occurs in `s`.
pub fn contains(s: &str, p: &str) -> (b: bool)
    ensures
        b == has_infix(s@, p@),
{
    let v = chars_of(s);
    let q = chars_of(p);
    vec_contains(&v, &q)
}

/// Whether `s` ends with `p`.
pub fn ends_with(s: &str, p: &str) -> (b: bool)
    ensures
        b == has_suffix(s@, p@),
{
    let v = chars_of(s);
    let q = chars_of(p);
    if q.len() > v.len() {
        return false;
    }
    let b = matches_at(&v, &q, v.len() - q.len());
    b
}

// ---------------------------------------------------------------------------
// Replacing
// ---------------------------------------------------------------------------

/// Every non-overlapping occurrence of `from` in `s`, scanning left to right,
/// replaced by `to` (what `str::replace` does for a non-empty pattern).
pub open spec fn replace_all(s: Seq<char>, from: Seq<char>, to: Seq<char>) -> Seq<char>
    recommends
        from.len() > 0,
    decreases s.len(),
{
    if from.len() == 0 || s.len() == 0 {
        s
    } else if from.len() <= s.len() && s.take(from.len() as int) == from {
        to + replace_all(s.skip(from.len() as int), from, to)
    } else {
        seq![s[0]] + replace_all(s.skip(1), from, to)
    }
}

/// `s` with every occurrence of the non-empty pattern `from` replaced by `to`.
pub fn replace(s: &str, from: &str, to: &str) -> (r: String)
    requires
        from@.len() > 0,
    ensures
        r@ == replace_all(s@, from@, to@),
{
    let v = chars_of(s);
    let p = chars_of(from);
    let mut r = String::new();
    let mut i: usize = 0;
    assert(v@.skip(0) =~= v@);
    assert(r@ + replace_all(v@, p@, to@) =~= replace_all(v@, p@, to@));
    while i < v.len()
        invariant
            v@ == s@,
            p@ == from@,
            p@.len() > 0,
            i <= v.len(),
            r@ + replace_all(v@.skip(i as int), p@, to@) == replace_all(v@, p@, to@),
        decreases v.len() - i,
    {
        let ghost rest = v@.skip(i as int);
        if matches_at(&v, &p, i) {
            assert(rest.take(p@.len() as int) =~= v@.subrange(i as int, i + p@.len()));
            assert(rest.skip(p@.len() as int) =~= v@.skip(i + p@.len()));
            push_str(&mut r, to);
            assert(r@ + replace_all(v@.skip(i + p@.len()), p@, to@) =~= replace_all(v@, p@, to@));
            i += p.len();
        } else {
            assert(p@.len() <= rest.len() ==> rest.take(p@.len() as int) =~= v@.subrange(
                i as int,
                i + p@.len(),
            ));
            assert(rest.skip(1) =~= v@.skip(i + 1));
            assert(rest[0] == v@[i as int]);
            push_char(&mut r, v[i]);
            assert(r@ + replace_all(v@.skip(i + 1), p@, to@) =~= replace_all(v@, p@, to@));
            i += 1;
        }
    }
    assert(v@.skip(i as int) =~= Seq::<char>::empty());
    assert(r@ + Seq::<char>::empty() =~= r@);
    r
}

/// Replacing `p` by a text `t` whose first and last characters do not
/// occur in `q` (and that holds no `q` itself) leaves no occurrence of `q`,
/// when `q` is the pattern replaced or did not occur to begin with. `u`
/// stands for what was already written, in which `q` starts nowhere.
proof fn lemma_replace_leaves_none(u: Seq<char>, s: Seq<char>, p: Seq<char>, t: Seq<char>, q: Seq<char>)
    requires
        p.len() > 0,
        q.len() > 0,
        t.len() > 0,
        !q.contains(t[0]),
        !q.contains(t.last()),
        !has_infix(t, q),
        q == p || !has_infix(u + s, q),
        forall|j: int| 0 <= j < u.len() ==> !occurs_at(u + s, q, j),
    ensures
        !has_infix(u + replace_all(s, p, t), q),
    decreases s.len(),
{
    let n = q.len() as int;
    if s.len() == 0 {
        assert(u + replace_all(s, p, t) =~= u + s);
        if has_infix(u + s, q) {
            let j = choose|j: int| occurs_at(u + s, q, j);
            assert(j < u.len());
        }
    } else if p.len() <= s.len() && s.take(p.len() as int) == p {
        let rest = s.skip(p.len() as int);
        let r = replace_all(rest, p, t);
        if q != p {
            if has_infix(Seq::<char>::empty() + rest, q) {
                let j = choose|j: int| occurs_at(Seq::<char>::empty() + rest, q, j);
                let k = u.len() + p.len() + j;
                assert((u + s).subrange(k, k + n) =~= (Seq::<char>::empty() + rest).subrange(j, j + n));
                assert(occurs_at(u + s, q, k));
            }
        }
        lemma_replace_leaves_none(Seq::<char>::empty(), rest, p, t, q);
        assert(Seq::<char>::empty() + r =~= r);
        let x = u + replace_all(s, p, t);
        assert(x =~= u + t + r);
        if has_infix(x, q) {
            let j = choose|j: int| occurs_at(x, q, j);
            let a = u.len() as int;
            let b = a + t.len();
            if j + n <= a {
                assert(x.subrange(j, j + n) =~= (u + s).subrange(j, j + n));
                assert(occurs_at(u + s, q, j));
            } else if j < a {
                assert(x[a] == t[0]);
                assert(q[a - j] == x.subrange(j, j + n)[a - j]);
            } else if j + n <= b {
                assert(x.subrange(j, j + n) =~= t.subrange(j - a, j - a + n));
                assert(occurs_at(t, q, j - a));
            } else if j <= b - 1 {
                assert(x[b - 1] == t.last());
                assert(q[b - 1 - j] == x.subrange(j, j + n)[b - 1 - j]);
            } else {
                assert(x.subrange(j, j + n) =~= r.subrange(j - b, j - b + n));
                assert(occurs_at(r, q, j - b));
            }
        }
    } else {
        let u2 = u.push(s[0]);
        let s2 = s.skip(1);
        assert(u2 + s2 =~= u + s);
        assert forall|j: int| 0 <= j < u2.len() implies !occurs_at(u2 + s2, q, j) by {
            if j == u.len() && occurs_at(u + s, q, j) {
                assert((u + s).subrange(j, j + n) =~= s.take(n));
                if q == p {
                    assert(s.take(p.len() as int) == p);
                }
            }
        }
        lemma_replace_leaves_none(u2, s2, p, t, q);
        assert(u2 + replace_all(s2, p, t) =~= u + replace_all(s, p, t));
    }
}

/// After replacing `p` by `t`, no occurrence of `q` is left, when the ends
/// of `t` are characters that `q` lacks, `t` holds no `q`, and `q` is `p`
/// or did not occur in `s`.
pub proof fn lemma_replace_removes(s: Seq<char>, p: Seq<char>, t: Seq<char>, q: Seq<char>)
    requires
        p.len() > 0,
        q.len() > 0,
        t.len() > 0,
        !q.contains(t[0]),
        !q.contains(t.last()),
        !has_infix(t, q),
        q == p || !has_infix(s, q),
    ensures
        !has_infix(replace_all(s, p, t), q),
{
    let e = Seq::<char>::empty();
    assert(e + s =~= s);
    lemma_replace_leaves_none(e, s, p, t, q);
    assert(e + replace_all(s, p, t) =~= replace_all(s, p, t));
}

/// Replacing one character distributes over joined texts.
pub proof fn replace_char_concat(a: Seq<char>, b: Seq<char>, c: char, t: Seq<char>)
    ensures
        replace_all(a + b, seq![c], t) == replace_all(a, seq![c], t) + replace_all(b, seq![c], t),
    decreases a.len(),
{
    let p = seq![c];
    if a.len() == 0 {
        assert(a + b =~= b);
        assert(replace_all(a, p, t) + replace_all(b, p, t) =~= replace_all(b, p, t));
    } else {
        let x = a + b;
        assert(x[0] == a[0]);
        assert(x.take(1) =~= seq![x[0]]);
        assert(a.take(1) =~= seq![a[0]]);
        assert(x.skip(1) =~= a.skip(1) + b);
        replace_char_concat(a.skip(1), b, c, t);
        if a[0] == c {
            assert(x.take(1) == p);
            assert(a.take(1) == p);
            assert(replace_all(x, p, t) =~= t + replace_all(a.skip(1), p, t) + replace_all(
                b,
                p,
                t,
            ));
        } else {
            assert(x.take(1)[0] != p[0]);
            assert(a.take(1)[0] != p[0]);
            assert(replace_all(x, p, t) =~= seq![a[0]] + replace_all(a.skip(1), p, t)
                + replace_all(b, p, t));
        }
    }
}

/// Replacing a character that does not occur leaves the text as it is.
pub proof fn replace_char_absent(a: Seq<char>, c: char, t: Seq<char>)
    requires
        !a.contains(c),
    ensures
        replace_all(a, seq![c], t) == a,
    decreases a.len(),
{
    if a.len() > 0 {
        assert(a.take(1) =~= seq![a[0]]);
        assert(a[0] != c) by {
            assert(a.contains(a[0]));
        }
        assert(a.take(1)[0] != seq![c][0]);
        assert(!a.skip(1).contains(c)) by {
            if a.skip(1).contains(c) {
                let i = choose|i: int| 0 <= i < a.skip(1).len() && a.skip(1)[i] == c;
                assert(a[i + 1] == c);
            }
        }
        replace_char_absent(a.skip(1), c, t);
        assert(seq![a[0]] + a.skip(1) =~= a);
    }
}

/// The character alone becomes the replacement.
pub proof fn replace_char_single(c: char, t: Seq<char>)
    ensures
        replace_all(seq![c], seq![c], t) == t,
{
    let p = seq![c];
    let e = Seq::<char>::empty();
    assert(p.take(1) =~= p);
    assert(p.skip(1) =~= e);
    assert(replace_all(e, p, t) == e);
    assert(replace_all(p, p, t) == t + replace_all(p.skip(1), p, t));
    assert(t + e =~= t);
}

/// When `p` starts nowhere inside the first part `x` of a text, replacing
/// `p` leaves that part as it is.
proof fn lemma_replace_prefix(x: Seq<char>, y: Seq<char>, p: Seq<char>, t: Seq<char>)
    requires
        p.len() > 0,
        forall|k: int| 0 <= k < x.len() ==> !occurs_at(x + y, p, k),
    ensures
        replace_all(x + y, p, t) == x + replace_all(y, p, t),
    decreases x.len(),
{
    let s = x + y;
    if x.len() == 0 {
        assert(s =~= y);
        assert(x + replace_all(y, p, t) =~= replace_all(y, p, t));
    } else {
        if p.len() <= s.len() && s.take(p.len() as int) == p {
            assert(s.subrange(0, p.len() as int) =~= s.take(p.len() as int));
            assert(occurs_at(s, p, 0));
        }
        let x1 = x.skip(1);
        assert(s.skip(1) =~= x1 + y);
        assert forall|k: int| 0 <= k < x1.len() implies !occurs_at(x1 + y, p, k) by {
            if occurs_at(x1 + y, p, k) {
                assert(s.subrange(k + 1, k + 1 + p.len()) =~= (x1 + y).subrange(k, k + p.len()));
                assert(occurs_at(s, p, k + 1));
            }
        }
        lemma_replace_prefix(x1, y, p, t);
        assert(s[0] == x[0]);
        assert(seq![x[0]] + (x1 + replace_all(y, p, t)) =~= x + replace_all(y, p, t));
    }
}

/// A text `x` whose ends are characters that `p` lacks, and in which `p`
/// does not occur, stays in the text when `p` is replaced.
pub proof fn lemma_replace_keeps(s: Seq<char>, p: Seq<char>, t: Seq<char>, x: Seq<char>)
    requires
        p.len() > 0,
        x.len() > 0,
        !p.contains(x[0]),
        !p.contains(x.last()),
        !has_infix(x, p),
        has_infix(s, x),
    ensures
        has_infix(replace_all(s, p, t), x),
    decreases s.len(),
{
    let j = choose|j: int| occurs_at(s, x, j);
    let n = x.len() as int;
    assert(s.subrange(j, j + n)[0] == x[0]);
    if p.len() <= s.len() && s.take(p.len() as int) == p {
        if j < p.len() {
            assert(s[j] == x[0]);
            assert(p[j] == s.take(p.len() as int)[j]);
        }
        let rest = s.skip(p.len() as int);
        assert(rest.subrange(j - p.len(), j - p.len() + n) =~= s.subrange(j, j + n));
        assert(occurs_at(rest, x, j - p.len()));
        lemma_replace_keeps(rest, p, t, x);
        let r = replace_all(rest, p, t);
        let i = choose|i: int| occurs_at(r, x, i);
        assert((t + r).subrange(t.len() + i, t.len() + i + n) =~= r.subrange(i, i + n));
        assert(occurs_at(t + r, x, t.len() + i));
    } else if j == 0 {
        let y = s.skip(n);
        assert(s =~= x + y) by {
            assert(s.subrange(0, n) == x);
        }
        assert forall|k: int| 0 <= k < x.len() implies !occurs_at(x + y, p, k) by {
            if occurs_at(x + y, p, k) {
                if k + p.len() <= n {
                    assert(x.subrange(k, k + p.len()) =~= (x + y).subrange(k, k + p.len()));
                    assert(occurs_at(x, p, k));
                } else {
                    assert(p[n - 1 - k] == (x + y).subrange(k, k + p.len())[n - 1 - k]);
                    assert((x + y)[n - 1] == x.last());
                }
            }
        }
        lemma_replace_prefix(x, y, p, t);
        let r = replace_all(y, p, t);
        assert((x + r).subrange(0, n) =~= x);
        assert(occurs_at(x + r, x, 0));
    } else {
        let rest = s.skip(1);
        assert(rest.subrange(j - 1, j - 1 + n) =~= s.subrange(j, j + n));
        assert(occurs_at(rest, x, j - 1));
        lemma_replace_keeps(rest, p, t, x);
        let r = replace_all(rest, p, t);
        let i = choose|i: int| occurs_at(r, x, i);
        assert((seq![s[0]] + r).subrange(1 + i, 1 + i + n) =~= r.subrange(i, i + n));
        assert(occurs_at(seq![s[0]] + r, x, 1 + i));
    }
}

/// Where `p` occurs at `k` and no other occurrence begins less than its
/// length before `k`, replacing `p` writes `t` into the text.
pub proof fn lemma_replace_emits(s: Seq<char>, p: Seq<char>, t: Seq<char>, k: int)
    requires
        p.len() > 0,
        occurs_at(s, p, k),
        forall|k2: int| k - p.len() < k2 < k ==> !occurs_at(s, p, k2),
    ensures
        has_infix(replace_all(s, p, t), t),
    decreases s.len(),
{
    let m = p.len() as int;
    if m <= s.len() && s.take(m) == p {
        let rest = s.skip(m);
        let r = replace_all(rest, p, t);
        if k == 0 {
            assert((t + r).subrange(0, t.len() as int) =~= t);
            assert(occurs_at(t + r, t, 0));
        } else {
            if k < m {
                assert(s.subrange(0, m) =~= s.take(m));
                assert(occurs_at(s, p, 0));
            }
            assert(rest.subrange(k - m, k - m + m) =~= s.subrange(k, k + m));
            assert forall|k2: int| (k - m) - m < k2 < k - m implies !occurs_at(rest, p, k2) by {
                if occurs_at(rest, p, k2) {
                    assert(s.subrange(k2 + m, k2 + m + m) =~= rest.subrange(k2, k2 + m));
                    assert(occurs_at(s, p, k2 + m));
                }
            }
            lemma_replace_emits(rest, p, t, k - m);
            let i = choose|i: int| occurs_at(r, t, i);
            assert((t + r).subrange(t.len() + i, t.len() + i + t.len()) =~= r.subrange(
                i,
                i + t.len(),
            ));
            assert(occurs_at(t + r, t, t.len() + i));
        }
    } else {
        if k == 0 {
            assert(s.subrange(0, m) =~= s.take(m));
        }
        let rest = s.skip(1);
        let r = replace_all(rest, p, t);
        assert(rest.subrange(k - 1, k - 1 + m) =~= s.subrange(k, k + m));
        assert forall|k2: int| (k - 1) - m < k2 < k - 1 implies !occurs_at(rest, p, k2) by {
            if occurs_at(rest, p, k2) {
                assert(s.subrange(k2 + 1, k2 + 1 + m) =~= rest.subrange(k2, k2 + m));
                assert(occurs_at(s, p, k2 + 1));
            }
        }
        lemma_replace_emits(rest, p, t, k - 1);
        let i = choose|i: int| occurs_at(r, t, i);
        assert((seq![s[0]] + r).subrange(1 + i, 1 + i + t.len()) =~= r.subrange(i, i + t.len()));
        assert(occurs_at(seq![s[0]] + r, t, 1 + i));
    }
}

/// A text that lacks a character of `q` holds no `q`.
pub proof fn lemma_lacking_char_no_infix(s: Seq<char>, q: Seq<char>, c: char)
    requires
        q.contains(c),
        !s.contains(c),
    ensures
        !has_infix(s, q),
{
    if has_infix(s, q) {
        let j = choose|j: int| occurs_at(s, q, j);
        let i = choose|i: int| 0 <= i < q.len() && q[i] == c;
        assert(s.subrange(j, j + q.len())[i] == c);
        assert(s[j + i] == c);
    }
}

// ---------------------------------------------------------------------------
// Trimming
// ---------------------------------------------------------------------------

/// The Unicode `White_Space` property (what `char::is_whitespace` tests).
pub open spec fn white_space(c: char) -> bool {
    let n = c as u32;
    ||| 0x09 <= n <= 0x0D
    ||| n == 0x20
    ||| n == 0x85
    ||| n == 0xA0
    ||| n == 0x1680
    ||| 0x2000 <= n <= 0x200A
    ||| n == 0x2028
    ||| n == 0x2029
    ||| n == 0x202F
    ||| n == 0x205F
    ||| n == 0x3000
}

/// Whether `c` has the Unicode `White_Space` property.
pub fn is_white_space(c: char) -> (b: bool)
    ensures
        b == white_space(c),
{
    let n = c as u32;
    (0x09 <= n && n <= 0x0D) || n == 0x20 || n == 0x85 || n == 0xA0 || n == 0x1680 || (0x2000
        <= n && n <= 0x200A) || n == 0x2028 || n == 0x2029 || n == 0x202F || n == 0x205F || n
        == 0x3000
}

/// `s` without its leading white space.
pub open spec fn trim_start(s: Seq<char>) -> Seq<char>
    decreases s.len(),
{
    if s.len() > 0 && white_space(s[0]) {
        trim_start(s.drop_first())
    } else {
        s
    }
}

/// `s` without its trailing white space.
pub open spec fn trim_end(s: Seq<char>) -> Seq<char>
    decreases s.len(),
{
    if s.len() > 0 && white_space(s.last()) {
        trim_end(s.drop_last())
    } else {
        s
    }
}

/// `s` without leading and trailing white space (what `str::trim` returns).
pub open spec fn trimmed(s: Seq<char>) -> Seq<char> {
    trim_end(trim_start(s))
}

proof fn lemma_trim_start(s: Seq<char>, a: int)
    requires
        0 <= a <= s.len(),
        forall|j: int| 0 <= j < a ==> white_space(#[trigger] s[j]),
        a == s.len() || !white_space(s[a]),
    ensures
        trim_start(s) == s.skip(a),
    decreases a,
{
    if a == 0 {
        assert(s.skip(0) =~= s);
    } else {
        let t = s.drop_first();
        assert forall|j: int| 0 <= j < a - 1 implies white_space(#[trigger] t[j]) by {
            assert(t[j] == s[j + 1]);
        }
        lemma_trim_start(t, a - 1);
        assert(t.skip(a - 1) =~= s.skip(a));
    }
}

proof fn lemma_trim_end(s: Seq<char>, b: int)
    requires
        0 <= b <= s.len(),
        forall|j: int| b <= j < s.len() ==> white_space(#[trigger] s[j]),
        b == 0 || !white_space(s[b - 1]),
    ensures
        trim_end(s) == s.take(b),
    decreases s.len() - b,
{
    if b == s.len() {
        assert(s.take(b) =~= s);
    } else {
        let t = s.drop_last();
        assert forall|j: int| b <= j < t.len() implies white_space(#[trigger] t[j]) by {
            assert(t[j] == s[j]);
        }
        lemma_trim_end(t, b);
        assert(t.take(b) =~= s.take(b));
    }
}

proof fn lemma_trim_start_shape(s: Seq<char>) -> (a: int)
    ensures
        0 <= a <= s.len(),
        trim_start(s) == s.skip(a),
        forall|j: int| 0 <= j < a ==> white_space(#[trigger] s[j]),
        a == s.len() || !white_space(s[a]),
    decreases s.len(),
{
    if s.len() > 0 && white_space(s[0]) {
        let t = s.drop_first();
        let a1 = lemma_trim_start_shape(t);
        assert(t.skip(a1) =~= s.skip(a1 + 1));
        assert forall|j: int| 0 <= j < a1 + 1 implies white_space(#[trigger] s[j]) by {
            if j > 0 {
                assert(s[j] == t[j - 1]);
            }
        }
        if a1 < t.len() {
            assert(s[a1 + 1] == t[a1]);
        }
        a1 + 1
    } else {
        assert(s.skip(0) =~= s);
        0
    }
}

proof fn lemma_trim_end_shape(s: Seq<char>) -> (b: int)
    ensures
        0 <= b <= s.len(),
        trim_end(s) == s.take(b),
        forall|j: int| b <= j < s.len() ==> white_space(#[trigger] s[j]),
        b == 0 || !white_space(s[b - 1]),
    decreases s.len(),
{
    if s.len() > 0 && white_space(s.last()) {
        let t = s.drop_last();
        let b1 = lemma_trim_end_shape(t);
        assert(t.take(b1) =~= s.take(b1));
        assert forall|j: int| b1 <= j < s.len() implies white_space(#[trigger] s[j]) by {
            if j < t.len() {
                assert(s[j] == t[j]);
            }
        }
        if b1 > 0 {
            assert(s[b1 - 1] == t[b1 - 1]);
        }
        b1
    } else {
        assert(s.take(s.len() as int) =~= s);
        s.len() as int
    }
}

/// Trimming keeps one contiguous stretch of the text: everything before it
/// and after it is white space, and it neither begins nor ends with white
/// space.
pub proof fn law_trimmed_shape(s: Seq<char>)
    ensures
        exists|a: int, b: int|
            0 <= a <= b <= s.len() && trimmed(s) == s.subrange(a, b) && (forall|j: int|
                0 <= j < a ==> white_space(#[trigger] s[j])) && (forall|j: int|
                b <= j < s.len() ==> white_space(#[trigger] s[j])),
        trimmed(s).len() > 0 ==> !white_space(trimmed(s)[0]) && !white_space(trimmed(s).last()),
{
    let a = lemma_trim_start_shape(s);
    let u = s.skip(a);
    let b = lemma_trim_end_shape(u);
    assert(u.take(b) =~= s.subrange(a, a + b));
    assert forall|j: int| a + b <= j < s.len() implies white_space(#[trigger] s[j]) by {
        assert(s[j] == u[j - a]);
    }
    if b > 0 {
        assert(trimmed(s)[0] == u[0]);
        assert(u[0] == s[a]);
        assert(trimmed(s).last() == u[b - 1]);
    }
    assert(0 <= a <= a + b <= s.len() && trimmed(s) == s.subrange(a, a + b));
}

/// `s` without leading and trailing white space.
pub fn trim(s: &str) -> (r: String)
    ensures
        r@ == trimmed(s@),
{
    let v = chars_of(s);
    let n = v.len();
    let mut a: usize = 0;
    while a < n && is_white_space(v[a])
        invariant
            n == v.len(),
            a <= n,
            forall|j: int| 0 <= j < a ==> white_space(#[trigger] v@[j]),
        decreases n - a,
    {
        a += 1;
    }
    proof {
        lemma_trim_start(v@, a as int);
    }
    let mut b: usize = n;
    while b > a && is_white_space(v[b - 1])
        invariant
            n == v.len(),
            a <= b <= n,
            forall|j: int| b <= j < n ==> white_space(#[trigger] v@[j]),
        decreases b - a,
    {
        b -= 1;
    }
    proof {
        let t = v@.skip(a as int);
        let k = (b - a) as int;
        assert forall|j: int| k <= j < t.len() implies white_space(#[trigger] t[j]) by {
            assert(t[j] == v@[j + a]);
        }
        if k > 0 {
            assert(t[k - 1] == v@[b - 1]);
        }
        lemma_trim_end(t, k);
        assert(t.take(k) =~= v@.subrange(a as int, b as int));
    }
    string_of_range(&v, a, b)
}

// ---------------------------------------------------------------------------
// Decimal numerals
// ---------------------------------------------------------------------------

/// The character of the decimal digit `d` (`d < 10`).
pub open spec fn digit_char(d: nat) -> char {
    (48 + d) as char
}

/// The decimal numeral of `n`, without leading zeros.
pub open spec fn decimal(n: nat) -> Seq<char>
    decreases n,
{
    if n < 10 {
        seq![digit_char(n)]
    } else {
        decimal(n / 10).push(digit_char(n % 10))
    }
}

/// `c` is one of '0'..='9'.
pub open spec fn is_digit(c: char) -> bool {
    '0' <= c && c <= '9'
}

/// The number that a string of decimal digits stands for.
pub open spec fn digits_value(s: Seq<char>) -> nat
    decreases s.len(),
{
    if s.len() == 0 {
        0
    } else {
        digits_value(s.drop_last()) * 10 + ((s.last() as u32) - 48) as nat
    }
}

proof fn lemma_digit_char(d: nat)
    requires
        d < 10,
    ensures
        digit_char(d) as u32 == 48 + d,
        is_digit(digit_char(d)),
{
}

/// A decimal numeral is made of digits, is not empty, and reads back as its number.
pub proof fn lemma_decimal(n: nat)
    ensures
        decimal(n).len() > 0,
        forall|i: int| 0 <= i < decimal(n).len() ==> is_digit(#[trigger] decimal(n)[i]),
        digits_value(decimal(n)) == n,
    decreases n,
{
    if n < 10 {
        lemma_digit_char(n);
        assert(decimal(n).drop_last() =~= Seq::<char>::empty());
        assert(decimal(n).last() == digit_char(n));
        assert(digits_value(decimal(n)) == digits_value(decimal(n).drop_last()) * 10 + ((
        decimal(n).last() as u32) - 48) as nat);
    } else {
        lemma_digit_char(n % 10);
        lemma_decimal(n / 10);
        let d = decimal(n / 10);
        assert(decimal(n).drop_last() =~= d);
        assert(decimal(n).last() == digit_char(n % 10));
        assert(digits_value(decimal(n)) == digits_value(d) * 10 + ((decimal(n).last() as u32)
            - 48) as nat);
        assert(n == (n / 10) * 10 + n % 10);
        assert forall|i: int| 0 <= i < decimal(n).len() implies is_digit(#[trigger] decimal(n)[i]) by {
            if i < d.len() {
                assert(decimal(n)[i] == d[i]);
            }
        }
    }
}

/// Different numbers have different numerals.
pub proof fn lemma_decimal_injective(m: nat, n: nat)
    requires
        decimal(m) == decimal(n),
    ensures
        m == n,
{
    lemma_decimal(m);
    lemma_decimal(n);
}

/// The digit character of `d`.
fn digit(d: u64) -> (c: char)
    requires
        d < 10,
    ensures
        c == digit_char(d as nat),
{
    let b: u8 = 48u8 + (d as u8);
    b as char
}

/// Appends the decimal numeral of `n`.
pub fn push_decimal(s: &mut String, n: u64)
    ensures
        final(s)@ == old(s)@ + decimal(n as nat),
    decreases n,
{
    if n >= 10 {
        push_decimal(s, n / 10);
    }
    push_char(s, digit(n % 10));
    assert(n >= 10 ==> decimal(n as nat) == decimal((n / 10) as nat).push(digit_char((n % 10) as nat)));
}

/// The decimal numeral of `n`.
pub fn decimal_string(n: u64) -> (s: String)
    ensures
        s@ == decimal(n as nat),
{
    let mut s = String::new();
    push_decimal(&mut s, n);
    s
}

} // verus!
