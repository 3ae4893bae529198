//! Character classes, trimming and searching over character sequences.
use vstd::prelude::*;

verus! {

/// A class of characters that the scanners skip over.
#[derive(Clone, Copy, Debug)]
pub enum CharClass {
    /// White space, as `str::trim` understands it.
    Space,
    /// The double quote.
    Quote,
    /// Every character but the one given.
    Except(char),
}

/// The characters with the Unicode `White_Space` property.
pub open spec fn is_space(c: char) -> bool {
    let u = c as u32;
    (0x09 <= u && u <= 0x0D) || u == 0x20 || u == 0x85 || u == 0xA0 || u == 0x1680 || (0x2000
        <= u && u <= 0x200A) || u == 0x2028 || u == 0x2029 || u == 0x202F || u == 0x205F || u
        == 0x3000
}

pub open spec fn in_class(c: char, k: CharClass) -> bool {
    match k {
        CharClass::Space => is_space(c),
        CharClass::Quote => c == '"',
        CharClass::Except(x) => c != x,
    }
}

/// How many characters at the front of `s` are in class `k`.
pub open spec fn lead(s: Seq<char>, k: CharClass) -> nat
    decreases s.len(),
{
    if s.len() > 0 && in_class(s[0], k) {
        1 + lead(s.drop_first(), k)
    } else {
        0
    }
}

/// How many characters at the back of `s` are in class `k`.
pub open spec fn trail(s: Seq<char>, k: CharClass) -> nat
    decreases s.len(),
{
    if s.len() > 0 && in_class(s.last(), k) {
        1 + trail(s.drop_last(), k)
    } else {
        0
    }
}

/// `s` without the characters of class `k` at either end.
pub open spec fn strip(s: Seq<char>, k: CharClass) -> Seq<char> {
    let t = s.skip(lead(s, k) as int);
    t.take(t.len() - trail(t, k))
}

/// `s` without white space at either end.
pub open spec fn trim(s: Seq<char>) -> Seq<char> {
    strip(s, CharClass::Space)
}

/// `s` without double quotes at either end.
pub open spec fn unquote(s: Seq<char>) -> Seq<char> {
    strip(s, CharClass::Quote)
}

/// The position of the first `c` in `s`, or the length of `s` where there is none.
pub open spec fn find(s: Seq<char>, c: char) -> nat {
    lead(s, CharClass::Except(c))
}

pub open spec fn has_char(s: Seq<char>, c: char) -> bool {
    find(s, c) < s.len()
}

/// What precedes the first `c` in `s` (all of `s` where there is none).
pub open spec fn before(s: Seq<char>, c: char) -> Seq<char> {
    s.take(find(s, c) as int)
}

/// What follows the first `c` in `s`.
pub open spec fn after(s: Seq<char>, c: char) -> Seq<char> {
    s.skip(find(s, c) + 1int)
}

pub open spec fn starts_with(s: Seq<char>, p: Seq<char>) -> bool {
    p.len() <= s.len() && s.take(p.len() as int) == p
}

pub open spec fn occurs_at(s: Seq<char>, t: Seq<char>, i: int) -> bool {
    0 <= i && i + t.len() <= s.len() && s.subrange(i, i + t.len()) == t
}

/// The first position at or after `i` where `t` occurs in `s`.
pub open spec fn search_from(s: Seq<char>, t: Seq<char>, i: int) -> Option<nat>
    decreases s.len() + 1 - i,
{
    if i < 0 || i + t.len() > s.len() {
        None
    } else if occurs_at(s, t, i) {
        Some(i as nat)
    } else {
        search_from(s, t, i + 1)
    }
}

/// The first position where `t` occurs in `s`.
pub open spec fn search(s: Seq<char>, t: Seq<char>) -> Option<nat> {
    search_from(s, t, 0)
}

pub open spec fn contains(s: Seq<char>, t: Seq<char>) -> bool {
    search(s, t) is Some
}

pub proof fn lemma_lead(s: Seq<char>, k: CharClass, i: int)
    requires
        0 <= i <= s.len(),
        forall|j: int| 0 <= j < i ==> in_class(#[trigger] s[j], k),
        i == s.len() || !in_class(s[i], k),
    ensures
        lead(s, k) == i,
    decreases i,
{
    if i > 0 {
        lemma_lead(s.drop_first(), k, i - 1);
    }
}

pub proof fn lemma_trail(s: Seq<char>, k: CharClass, i: int)
    requires
        0 <= i <= s.len(),
        forall|j: int| s.len() - i <= j < s.len() ==> in_class(#[trigger] s[j], k),
        i == s.len() || !in_class(s[s.len() - 1 - i], k),
    ensures
        trail(s, k) == i,
    decreases i,
{
    if i > 0 {
        lemma_trail(s.drop_last(), k, i - 1);
    }
}

/// The run that `lead` counts is in the class, and the character after it is not.
pub proof fn lemma_lead_stop(s: Seq<char>, k: CharClass)
    ensures
        lead(s, k) <= s.len(),
        forall|j: int| 0 <= j < lead(s, k) ==> in_class(#[trigger] s[j], k),
        lead(s, k) < s.len() ==> !in_class(s[lead(s, k) as int], k),
    decreases s.len(),
{
    if s.len() > 0 && in_class(s[0], k) {
        lemma_lead_stop(s.drop_first(), k);
        assert forall|j: int| 0 <= j < lead(s, k) implies in_class(#[trigger] s[j], k) by {
            if j > 0 {
                assert(s[j] == s.drop_first()[j - 1]);
            }
        }
    }
}

/// Where `search_from` finds `t`, `t` occurs.
pub proof fn lemma_search_from_found(s: Seq<char>, t: Seq<char>, i: int)
    requires
        search_from(s, t, i) is Some,
    ensures
        occurs_at(s, t, search_from(s, t, i)->Some_0 as int),
    decreases s.len() + 1 - i,
{
    if !(i < 0 || i + t.len() > s.len()) && !occurs_at(s, t, i) {
        lemma_search_from_found(s, t, i + 1);
    }
}

pub proof fn lemma_search_found(s: Seq<char>, t: Seq<char>)
    requires
        search(s, t) is Some,
    ensures
        occurs_at(s, t, search(s, t)->Some_0 as int),
{
    lemma_search_from_found(s, t, 0);
}

pub fn is_in_class(c: char, k: CharClass) -> (r: bool)
    ensures
        r == in_class(c, k),
{
    match k {
        CharClass::Space => {
            let u = c as u32;
            (0x09 <= u && u <= 0x0D) || u == 0x20 || u == 0x85 || u == 0xA0 || u == 0x1680 || (
            0x2000 <= u && u <= 0x200A) || u == 0x2028 || u == 0x2029 || u == 0x202F || u
                == 0x205F || u == 0x3000
        },
        CharClass::Quote => c == '"',
        CharClass::Except(x) => c != x,
    }
}

/// The end of the run of class `k` that starts at `lo`, within `v[lo..hi]`.
pub fn lead_end(v: &Vec<char>, lo: usize, hi: usize, k: CharClass) -> (r: usize)
    requires
        lo <= hi <= v.len(),
    ensures
        lo <= r <= hi,
        r - lo == lead(v@.subrange(lo as int, hi as int), k),
{
    let mut i = lo;
    while i < hi && is_in_class(v[i], k)
        invariant
            lo <= i <= hi <= v.len(),
            forall|j: int| lo <= j < i ==> in_class(#[trigger] v@[j], k),
        decreases hi - i,
    {
        i += 1;
    }
    proof {
        let s = v@.subrange(lo as int, hi as int);
        assert forall|j: int| 0 <= j < i - lo implies in_class(#[trigger] s[j], k) by {
            assert(s[j] == v@[lo + j]);
        }
        lemma_lead(s, k, i - lo);
    }
    i
}

/// The start of the run of class `k` that ends at `hi`, within `v[lo..hi]`.
pub fn trail_start(v: &Vec<char>, lo: usize, hi: usize, k: CharClass) -> (r: usize)
    requires
        lo <= hi <= v.len(),
    ensures
        lo <= r <= hi,
        hi - r == trail(v@.subrange(lo as int, hi as int), k),
{
    let mut i = hi;
    while i > lo && is_in_class(v[i - 1], k)
        invariant
            lo <= i <= hi <= v.len(),
            forall|j: int| i <= j < hi ==> in_class(#[trigger] v@[j], k),
        decreases i - lo,
    {
        i -= 1;
    }
    proof {
        let s = v@.subrange(lo as int, hi as int);
        assert forall|j: int| s.len() - (hi - i) <= j < s.len() implies in_class(
            #[trigger] s[j],
            k,
        ) by {
            assert(s[j] == v@[lo + j]);
        }
        lemma_trail(s, k, hi - i);
    }
    i
}

/// The bounds of `v[lo..hi]` once the characters of class `k` are taken off both ends.
pub fn strip_bounds(v: &Vec<char>, lo: usize, hi: usize, k: CharClass) -> (r: (usize, usize))
    requires
        lo <= hi <= v.len(),
    ensures
        lo <= r.0 <= r.1 <= hi,
        r.0 - lo == lead(v@.subrange(lo as int, hi as int), k),
        v@.subrange(r.0 as int, r.1 as int) == strip(v@.subrange(lo as int, hi as int), k),
{
    let a = lead_end(v, lo, hi, k);
    let b = trail_start(v, a, hi, k);
    proof {
        let s = v@.subrange(lo as int, hi as int);
        let t = s.skip(lead(s, k) as int);
        assert(t =~= v@.subrange(a as int, hi as int));
        assert(t.take(t.len() - trail(t, k)) =~= v@.subrange(a as int, b as int));
    }
    (a, b)
}

/// The position of the first `c` in `v[lo..hi]`, or `hi` where there is none.
pub fn find_in(v: &Vec<char>, lo: usize, hi: usize, c: char) -> (r: usize)
    requires
        lo <= hi <= v.len(),
    ensures
        lo <= r <= hi,
        r - lo == find(v@.subrange(lo as int, hi as int), c),
{
    lead_end(v, lo, hi, CharClass::Except(c))
}

/// Whether `t` occurs in `v` at `i`.
pub fn occurs_at_exec(v: &Vec<char>, t: &Vec<char>, i: usize) -> (r: bool)
    ensures
        r == occurs_at(v@, t@, i as int),
{
    if i > v.len() || t.len() > v.len() - i {
        return false;
    }
    let mut j: usize = 0;
    while j < t.len()
        invariant
            i + t.len() <= v.len(),
            j <= t.len(),
            forall|m: int| 0 <= m < j ==> v@[i + m] == t@[m],
        decreases t.len() - j,
    {
        if v[i + j] != t[j] {
            assert(v@.subrange(i as int, i + t.len())[j as int] != t@[j as int]);
            return false;
        }
        j += 1;
    }
    assert(v@.subrange(i as int, i + t.len()) =~= t@);
    true
}

/// Whether `v[lo..hi]` starts with `p`.
pub fn starts_with_in(v: &Vec<char>, lo: usize, hi: usize, p: &Vec<char>) -> (r: bool)
    requires
        lo <= hi <= v.len(),
    ensures
        r == starts_with(v@.subrange(lo as int, hi as int), p@),
{
    if hi - lo < p.len() {
        return false;
    }
    let r = occurs_at_exec(v, p, lo);
    assert(v@.subrange(lo as int, hi as int).take(p.len() as int) =~= v@.subrange(
        lo as int,
        lo + p.len(),
    ));
    r
}

/// The first position where `t` occurs in `v`.
pub fn search_exec(v: &Vec<char>, t: &Vec<char>) -> (r: Option<usize>)
    ensures
        match r {
            Some(p) => search(v@, t@) == Some(p as nat),
            None => search(v@, t@) is None,
        },
        r matches Some(p) ==> occurs_at(v@, t@, p as int),
{
    if t.len() > v.len() {
        return None;
    }
    let mut i: usize = 0;
    loop
        invariant
            t.len() <= v.len(),
            i <= v.len() - t.len(),
            search(v@, t@) == search_from(v@, t@, i as int),
        decreases v.len() - i,
    {
        if occurs_at_exec(v, t, i) {
            return Some(i);
        }
        if i == v.len() - t.len() {
            assert(search_from(v@, t@, i + 1) is None);
            return None;
        }
        i += 1;
    }
}

/// The characters of `s`.
pub fn chars_of(s: &str) -> (r: Vec<char>)
    ensures
        r@ == s@,
{
    let mut r: Vec<char> = Vec::new();
    for c in it: s.chars()
        invariant
            r@ == it.seq().take(it.index() as int),
    {
        r.push(c);
    }
    r
}

/// Relies on `FromIterator<&char> for String`: the string holds the characters in order.
#[verifier::external_body]
pub fn string_of(v: &Vec<char>, lo: usize, hi: usize) -> (r: String)
    requires
        lo <= hi <= v.len(),
    ensures
        r@ == v@.subrange(lo as int, hi as int),
{
    v[lo..hi].iter().collect()
}

} // verus!
