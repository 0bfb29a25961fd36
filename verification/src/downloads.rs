//! Downloads: the file name a download is saved under, the free names tried
//! one after another, and the speed measured between two samples.

use vstd::prelude::*;

use crate::web_url::{parse_url, url_parse};
use crate::text::{
    chars_of, decimal, digits_value, is_digit, lemma_decimal, lemma_decimal_injective,
    push_char, push_decimal, push_str, string_of_range,
};

verus! {

/// Index of the last `.` in `s`, or -1 when there is none.
pub open spec fn last_dot(s: Seq<char>) -> int
    decreases s.len(),
{
    if s.len() == 0 {
        -1
    } else if s.last() == '.' {
        s.len() - 1
    } else {
        last_dot(s.drop_last())
    }
}

/// Part of a file name before its extension: up to the last `.`, when
/// something stands before that dot; else the whole name.
pub open spec fn name_stem(name: Seq<char>) -> Seq<char> {
    if last_dot(name) > 0 {
        name.take(last_dot(name))
    } else {
        name
    }
}

/// Extension of a file name, dot included (empty when `name_stem` is the whole name).
pub open spec fn name_ext(name: Seq<char>) -> Seq<char> {
    if last_dot(name) > 0 {
        name.skip(last_dot(name))
    } else {
        Seq::empty()
    }
}

/// The `attempt`-th name tried for a download called `name`: the name
/// itself first, then `stem (1).ext`, `stem (2).ext`, …
pub open spec fn candidate_name(name: Seq<char>, attempt: nat) -> Seq<char> {
    if attempt == 0 {
        name
    } else {
        name_stem(name) + " ("@ + decimal(attempt) + ")"@ + name_ext(name)
    }
}

proof fn lemma_last_dot(s: Seq<char>)
    ensures
        -1 <= last_dot(s) < s.len(),
        last_dot(s) >= 0 ==> s[last_dot(s)] == '.',
    decreases s.len(),
{
    if s.len() > 0 && s.last() != '.' {
        lemma_last_dot(s.drop_last());
    }
}

/// A file name is its stem followed by its extension.
pub proof fn lemma_stem_ext(name: Seq<char>)
    ensures
        name == name_stem(name) + name_ext(name),
{
    lemma_last_dot(name);
    if last_dot(name) > 0 {
        assert(name =~= name.take(last_dot(name)) + name.skip(last_dot(name)));
    } else {
        assert(name =~= name + Seq::<char>::empty());
    }
}

/// Index of the last `.` in `v`, if any.
fn find_last_dot(v: &Vec<char>) -> (k: Option<usize>)
    ensures
        match k {
            Some(i) => i == last_dot(v@),
            None => last_dot(v@) == -1,
        },
{
    let mut i: usize = v.len();
    assert(v@.take(i as int) =~= v@);
    while i > 0
        invariant
            i <= v.len(),
            last_dot(v@) == last_dot(v@.take(i as int)),
        decreases i,
    {
        let ghost t = v@.take(i as int);
        assert(t.drop_last() =~= v@.take(i - 1));
        if v[i - 1] == '.' {
            return Some(i - 1);
        }
        i -= 1;
    }
    assert(v@.take(0) =~= Seq::<char>::empty());
    None
}

/// The name tried for a download called `name` at attempt number
/// `attempt`: `name` itself at 0, then "stem (1).ext", "stem (2).ext", …
/// (the download directory is joined to it by the caller, who moves on to
/// the next attempt while the path is taken).
pub fn unique_path(name: &str, attempt: u64) -> (r: String)
    ensures
        r@ == candidate_name(name@, attempt as nat),
{
    if attempt == 0 {
        return name.to_string();
    }
    let v = chars_of(name);
    let k: usize = match find_last_dot(&v) {
        Some(i) => i,
        None => 0,
    };
    proof {
        lemma_last_dot(v@);
    }
    let mut r;
    if k > 0 {
        r = string_of_range(&v, 0, k);
        assert(v@.subrange(0, k as int) =~= v@.take(k as int));
    } else {
        r = string_of_range(&v, 0, v.len());
        assert(v@.subrange(0, v@.len() as int) =~= v@);
    }
    push_str(&mut r, " (");
    push_decimal(&mut r, attempt);
    push_str(&mut r, ")");
    if k > 0 {
        let ext = string_of_range(&v, k, v.len());
        assert(v@.subrange(k as int, v@.len() as int) =~= v@.skip(k as int));
        push_str(&mut r, ext.as_str());
    } else {
        assert(r@ + Seq::<char>::empty() =~= r@);
    }
    r
}

proof fn lemma_numeral_suffix_distinct(a: Seq<char>, b: Seq<char>, e: Seq<char>, m: nat, n: nat)
    requires
        a == decimal(m) + ")"@ + e,
        b == decimal(n) + ")"@ + e,
        a == b,
    ensures
        m == n,
{
    reveal_strlit(")");
    lemma_decimal(m);
    lemma_decimal(n);
    let dm = decimal(m);
    let dn = decimal(n);
    if dm.len() < dn.len() {
        assert(a[dm.len() as int] == ')');
        assert(b[dm.len() as int] == dn[dm.len() as int]);
        assert(is_digit(dn[dm.len() as int]));
    } else if dn.len() < dm.len() {
        assert(b[dn.len() as int] == ')');
        assert(a[dn.len() as int] == dm[dn.len() as int]);
        assert(is_digit(dm[dn.len() as int]));
    } else {
        assert(dm =~= a.take(dm.len() as int));
        assert(dn =~= b.take(dn.len() as int));
        lemma_decimal_injective(m, n);
    }
}

/// The names tried for one download are all different, so each attempt
/// asks about a new path.
pub proof fn lemma_candidates_distinct(name: Seq<char>, i: nat, j: nat)
    requires
        i != j,
    ensures
        candidate_name(name, i) != candidate_name(name, j),
{
    reveal_strlit(" (");
    reveal_strlit(")");
    lemma_stem_ext(name);
    let stem = name_stem(name);
    let ext = name_ext(name);
    if i == 0 || j == 0 {
        let k: nat = if i == 0 { j } else { i };
        lemma_decimal(k);
        assert(candidate_name(name, k).len() > name.len());
    } else {
        if candidate_name(name, i) == candidate_name(name, j) {
            let pre = stem + " ("@;
            let ci = candidate_name(name, i);
            let cj = candidate_name(name, j);
            assert(ci =~= pre + (decimal(i) + ")"@ + ext));
            assert(cj =~= pre + (decimal(j) + ")"@ + ext));
            assert(ci.skip(pre.len() as int) =~= decimal(i) + ")"@ + ext);
            assert(cj.skip(pre.len() as int) =~= decimal(j) + ")"@ + ext);
            lemma_numeral_suffix_distinct(
                decimal(i) + ")"@ + ext,
                decimal(j) + ")"@ + ext,
                ext,
                i,
                j,
            );
        }
    }
}

/// The names tried for a download called `name` before attempt `n`.
pub open spec fn tried_names(name: Seq<char>, n: nat) -> Set<Seq<char>>
    decreases n,
{
    if n == 0 {
        Set::empty()
    } else {
        tried_names(name, (n - 1) as nat).insert(candidate_name(name, (n - 1) as nat))
    }
}

/// The names tried before attempt `n` are the first `n` candidates, all
/// different: there are `n` of them.
pub proof fn lemma_tried_names(name: Seq<char>, n: nat)
    ensures
        tried_names(name, n).finite(),
        tried_names(name, n).len() == n,
        forall|s: Seq<char>|
            tried_names(name, n).contains(s) <==> exists|k: nat|
                k < n && s == #[trigger] candidate_name(name, k),
    decreases n,
{
    if n > 0 {
        let m = (n - 1) as nat;
        lemma_tried_names(name, m);
        let c = candidate_name(name, m);
        if tried_names(name, m).contains(c) {
            let k = choose|k: nat| k < m && c == #[trigger] candidate_name(name, k);
            lemma_candidates_distinct(name, k, m);
        }
        assert forall|s: Seq<char>| tried_names(name, n).contains(s) <==> exists|k: nat|
            k < n && s == #[trigger] candidate_name(name, k) by {
            if s == c {
                assert(m < n && s == candidate_name(name, m));
            }
        }
    }
}

/// When the first `n` names tried are all taken among the finite set of
/// paths `taken`, there are at least `n` of those paths: a search that
/// has found `n` names taken has asked about at most as many names as there
/// are taken paths, plus the one that is free.
pub proof fn law_free_name_search_bound(name: Seq<char>, taken: Set<Seq<char>>, n: nat)
    requires
        taken.finite(),
        forall|k: nat| k < n ==> taken.contains(#[trigger] candidate_name(name, k)),
    ensures
        n <= taken.len(),
{
    lemma_tried_names(name, n);
    assert(tried_names(name, n).subset_of(taken));
    vstd::set_lib::lemma_len_subset(tried_names(name, n), taken);
}

proof fn lemma_first_free_below(name: Seq<char>, taken: Set<Seq<char>>, m: nat)
    requires
        !taken.contains(candidate_name(name, m)),
    ensures
        exists|n: nat|
            n <= m && !taken.contains(#[trigger] candidate_name(name, n)) && forall|k: nat|
                k < n ==> taken.contains(#[trigger] candidate_name(name, k)),
    decreases m,
{
    if exists|k: nat| k < m && !taken.contains(#[trigger] candidate_name(name, k)) {
        let k = choose|k: nat| k < m && !taken.contains(#[trigger] candidate_name(name, k));
        lemma_first_free_below(name, taken, k);
    } else {
        assert(forall|k: nat| k < m ==> taken.contains(#[trigger] candidate_name(name, k)));
    }
}

/// Whatever finite set of paths is taken, some name is free: the first
/// free one, whose number is at most the number of taken paths.
pub proof fn law_first_free_name_exists(name: Seq<char>, taken: Set<Seq<char>>)
    requires
        taken.finite(),
    ensures
        exists|n: nat|
            n <= taken.len() && !taken.contains(#[trigger] candidate_name(name, n)) && forall|
                k: nat,
            | k < n ==> taken.contains(#[trigger] candidate_name(name, k)),
{
    let t = taken.len();
    if forall|k: nat| k <= t ==> taken.contains(#[trigger] candidate_name(name, k)) {
        law_free_name_search_bound(name, taken, t + 1);
    } else {
        let m = choose|m: nat| m <= t && !taken.contains(#[trigger] candidate_name(name, m));
        lemma_first_free_below(name, taken, m);
    }
}

/// The search for a free name for a download: the name asked for and the
/// attempt reached. The application asks whether the current candidate is
/// taken and, while it is, moves to the next attempt; the first candidate
/// that is not taken is the one kept.
pub struct FreeNameSearch {
    name: String,
    attempt: u64,
}

/// `FreeNameSearch` as a name and an attempt number.
pub struct SearchView {
    pub name: Seq<char>,
    pub attempt: nat,
}

impl View for FreeNameSearch {
    type V = SearchView;

    closed spec fn view(&self) -> SearchView {
        SearchView { name: self.name@, attempt: self.attempt as nat }
    }
}

/// A search that has found every name before its attempt taken, and its
/// current candidate free, stops on the first free name, after asking
/// about at most one name more than there are taken paths.
pub proof fn law_search_stops_at_first_free(v: SearchView, taken: Set<Seq<char>>)
    requires
        taken.finite(),
        forall|k: nat| k < v.attempt ==> taken.contains(#[trigger] candidate_name(v.name, k)),
        !taken.contains(candidate_name(v.name, v.attempt)),
    ensures
        v.attempt <= taken.len(),
        forall|n: nat|
            !taken.contains(#[trigger] candidate_name(v.name, n)) ==> v.attempt <= n,
{
    law_free_name_search_bound(v.name, taken, v.attempt);
}

impl FreeNameSearch {
    /// A search for a free name for `name`, at its first attempt.
    pub fn new(name: &str) -> (r: FreeNameSearch)
        ensures
            r@.name == name@,
            r@.attempt == 0,
    {
        FreeNameSearch { name: name.to_string(), attempt: 0 }
    }

    /// The attempt reached.
    pub fn attempt(&self) -> (r: u64)
        ensures
            r == self@.attempt,
    {
        self.attempt
    }

    /// The name tried at the current attempt.
    pub fn candidate(&self) -> (r: String)
        ensures
            r@ == candidate_name(self@.name, self@.attempt),
    {
        unique_path(self.name.as_str(), self.attempt)
    }

    /// The current candidate is taken: the search moves to the next one.
    pub fn taken(&mut self)
        requires
            old(self)@.attempt < u64::MAX,
        ensures
            final(self)@.name == old(self)@.name,
            final(self)@.attempt == old(self)@.attempt + 1,
    {
        self.attempt = self.attempt + 1;
    }
}

/// The name a download is saved under: the name proposed for its
/// destination, else the last segment of its URL path, else "descarga"
/// (empty names do not count).
pub open spec fn download_file_name(
    proposed: Option<Seq<char>>,
    url_last_segment: Option<Seq<char>>,
) -> Seq<char> {
    match proposed {
        Some(n) if n.len() > 0 => n,
        _ => match url_last_segment {
            Some(n) if n.len() > 0 => n,
            _ => "descarga"@,
        },
    }
}

/// A download is never saved under an empty name.
pub proof fn law_download_name_not_empty(
    proposed: Option<Seq<char>>,
    url_last_segment: Option<Seq<char>>,
)
    ensures
        download_file_name(proposed, url_last_segment).len() > 0,
{
    reveal_strlit("descarga");
}

/// Chooses the name a download is saved under, given the last segment of
/// its URL path.
pub fn pick_download_name(proposed: Option<String>, url_last_segment: Option<String>) -> (r: String)
    ensures
        r@ == download_file_name(proposed.deep_view(), url_last_segment.deep_view()),
{
    match proposed {
        Some(n) if !n.as_str().is_empty() => n,
        _ => match url_last_segment {
            Some(n) if !n.as_str().is_empty() => n,
            _ => "descarga".to_string(),
        },
    }
}

/// The name a download of `url` is saved under, `proposed` being the name
/// suggested for its destination; the fallback is the last segment of the
/// URL's path.
pub fn download_name(proposed: Option<String>, url: &str) -> (r: String)
    ensures
        r@ == download_file_name(
            proposed.deep_view(),
            match url_parse(url@) {
                Ok(u) => u.last_segment,
                Err(_) => None,
            },
        ),
{
    match parse_url(url) {
        Ok(u) => pick_download_name(proposed, u.last_segment),
        Err(_) => pick_download_name(proposed, None),
    }
}

/// Bytes per second between two samples taken half a second apart.
pub open spec fn download_speed(size: nat, last: nat) -> nat {
    if size > last {
        ((size - last) * 2) as nat
    } else {
        0
    }
}

/// Bytes per second between the sizes `last` and `size` of a download,
/// sampled half a second apart (no growth counts as 0).
pub fn download_rate(size: u64, last: u64) -> (r: u64)
    requires
        size <= last || (size - last) * 2 <= u64::MAX,
    ensures
        r == download_speed(size as nat, last as nat),
{
    if size > last {
        (size - last) * 2
    } else {
        0
    }
}

} // verus!
