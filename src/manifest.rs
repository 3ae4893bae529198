//! Finds the dependency declarations of a manifest, line by line.
use vstd::prelude::*;
use crate::text::{CharClass, after, before, chars_of, contains, find_in, has_char, lead, search_exec, strip_bounds, string_of, trim, unquote};
use crate::tokenizer::{pairs_view, tokenize_range, tokens};

verus! {

/// The physical lines of `s`, split at each line feed.
pub open spec fn lines(s: Seq<char>) -> Seq<Seq<char>>
    decreases s.len(),
{
    if has_char(s, '\n') {
        seq![before(s, '\n')] + lines(after(s, '\n'))
    } else {
        seq![s]
    }
}

pub open spec fn dependencies_word() -> Seq<char> {
    seq!['d', 'e', 'p', 'e', 'n', 'd', 'e', 'n', 'c', 'i', 'e', 's']
}

pub open spec fn version_word() -> Seq<char> {
    seq!['v', 'e', 'r', 's', 'i', 'o', 'n']
}

pub open spec fn path_word() -> Seq<char> {
    seq!['p', 'a', 't', 'h']
}

/// A line without its comment and the white space round what is left.
pub open spec fn cleaned(l: Seq<char>) -> Seq<char> {
    trim(before(l, '#'))
}

/// Where the cleaned line begins within the physical line.
pub open spec fn column_of(l: Seq<char>) -> nat {
    lead(before(l, '#'), CharClass::Space)
}

pub open spec fn is_header(c: Seq<char>) -> bool {
    c.len() >= 2 && c[0] == '[' && c.last() == ']'
}

pub open spec fn header_name(c: Seq<char>) -> Seq<char> {
    c.subrange(1, c.len() - 1)
}

/// The arguments that a declaration's value gives: a quoted string is its version,
/// under the key `version` that lookups use; an inline table is split into its pairs;
/// anything else declares nothing.
pub open spec fn entry_args(value: Seq<char>) -> Option<Seq<(Seq<char>, Seq<char>)>> {
    if value.len() >= 1 && value[0] == '"' && value.last() == '"' {
        Some(seq![(version_word(), unquote(value))])
    } else if value.len() >= 1 && value[0] == '{' && value.last() == '}' {
        Some(tokens(value.skip(1)))
    } else {
        None
    }
}

/// One dependency declaration as the contracts see it.
pub struct DependencyModel {
    pub name: Seq<char>,
    pub args: Seq<(Seq<char>, Seq<char>)>,
    /// The cleaned line that declared it.
    pub original_line: Seq<char>,
    /// The index of its physical line.
    pub line: nat,
    /// Where the cleaned line begins within the physical line.
    pub column: nat,
}

/// The section name and the declarations found so far.
pub open spec fn scan_line(
    st: (Seq<char>, Seq<DependencyModel>),
    l: Seq<char>,
    j: nat,
) -> (Seq<char>, Seq<DependencyModel>) {
    let c = cleaned(l);
    let value = trim(after(c, '='));
    if is_header(c) {
        (header_name(c), st.1)
    } else if contains(st.0, dependencies_word()) && has_char(c, '=') && entry_args(value) is Some {
        (
            st.0,
            st.1.push(
                DependencyModel {
                    name: trim(before(c, '=')),
                    args: entry_args(value)->Some_0,
                    original_line: c,
                    line: j,
                    column: column_of(l),
                },
            ),
        )
    } else {
        st
    }
}

/// The state after the first `n` lines of `ls`.
pub open spec fn scan_lines(ls: Seq<Seq<char>>, n: nat) -> (Seq<char>, Seq<DependencyModel>)
    decreases n,
{
    if n == 0 {
        (Seq::empty(), Seq::empty())
    } else {
        scan_line(scan_lines(ls, (n - 1) as nat), ls[n - 1], (n - 1) as nat)
    }
}

/// The dependency declarations of manifest text `s`, in the order of their lines.
pub open spec fn declarations(s: Seq<char>) -> Seq<DependencyModel> {
    scan_lines(lines(s), lines(s).len()).1
}

/// A dependency declaration found in a manifest.
pub struct DependencyDefinition {
    pub name: String,
    /// The arguments as key and value pairs, in the order in which they stand.
    pub args: Vec<(String, String)>,
    /// The declaring line without its comment and surrounding white space.
    pub original_line: String,
    /// The index of the declaring line among the manifest's lines.
    pub line: usize,
    /// Where `original_line` begins within the declaring line.
    pub column: usize,
}

impl View for DependencyDefinition {
    type V = DependencyModel;

    open spec fn view(&self) -> DependencyModel {
        DependencyModel {
            name: self.name@,
            args: pairs_view(self.args@),
            original_line: self.original_line@,
            line: self.line as nat,
            column: self.column as nat,
        }
    }
}

pub open spec fn deps_view(a: Seq<DependencyDefinition>) -> Seq<DependencyModel> {
    a.map_values(|d: DependencyDefinition| d@)
}

pub fn version_chars() -> (r: Vec<char>)
    ensures
        r@ == version_word(),
{
    let r = vec!['v', 'e', 'r', 's', 'i', 'o', 'n'];
    assert(r@ =~= version_word());
    r
}

pub fn path_chars() -> (r: Vec<char>)
    ensures
        r@ == path_word(),
{
    let r = vec!['p', 'a', 't', 'h'];
    assert(r@ =~= path_word());
    r
}

fn dependencies_chars() -> (r: Vec<char>)
    ensures
        r@ == dependencies_word(),
{
    let r = vec!['d', 'e', 'p', 'e', 'n', 'd', 'e', 'n', 'c', 'i', 'e', 's'];
    assert(r@ =~= dependencies_word());
    r
}

/// A copy of `v[lo..hi]`.
pub fn slice_chars(v: &Vec<char>, lo: usize, hi: usize) -> (r: Vec<char>)
    requires
        lo <= hi <= v.len(),
    ensures
        r@ == v@.subrange(lo as int, hi as int),
{
    let mut r: Vec<char> = Vec::new();
    let mut i = lo;
    while i < hi
        invariant
            lo <= i <= hi <= v.len(),
            r@ == v@.subrange(lo as int, i as int),
        decreases hi - i,
    {
        r.push(v[i]);
        i += 1;
        assert(r@ =~= v@.subrange(lo as int, i as int));
    }
    r
}

pub open spec fn bounds_view(v: Seq<char>, b: Seq<(usize, usize)>) -> Seq<Seq<char>> {
    b.map_values(|p: (usize, usize)| v.subrange(p.0 as int, p.1 as int))
}

/// The bounds of each line of `v`.
pub fn line_bounds(v: &Vec<char>) -> (r: Vec<(usize, usize)>)
    ensures
        bounds_view(v@, r@) == lines(v@),
        forall|j: int| 0 <= j < r.len() ==> (#[trigger] r@[j]).0 <= r@[j].1 <= v.len(),
{
    let mut r: Vec<(usize, usize)> = Vec::new();
    let mut start: usize = 0;
    assert(v@.subrange(0, v.len() as int) =~= v@);
    assert(bounds_view(v@, r@) =~= Seq::<Seq<char>>::empty());
    assert(bounds_view(v@, r@) + lines(v@) =~= lines(v@));
    loop
        invariant
            start <= v.len(),
            bounds_view(v@, r@) + lines(v@.subrange(start as int, v.len() as int)) == lines(v@),
            forall|j: int| 0 <= j < r.len() ==> (#[trigger] r@[j]).0 <= r@[j].1 <= v.len(),
        decreases v.len() - start,
    {
        let e = find_in(v, start, v.len(), '\n');
        let ghost rest = v@.subrange(start as int, v.len() as int);
        let ghost old_r = r@;
        r.push((start, e));
        proof {
            assert(bounds_view(v@, r@) =~= bounds_view(v@, old_r).push(
                v@.subrange(start as int, e as int),
            ));
            assert(before(rest, '\n') =~= v@.subrange(start as int, e as int));
        }
        if e == v.len() {
            assert(bounds_view(v@, r@) =~= bounds_view(v@, old_r) + lines(rest));
            assert(v@.subrange(v.len() as int, v.len() as int) =~= Seq::<char>::empty());
            assert(bounds_view(v@, r@) =~= lines(v@));
            return r;
        }
        proof {
            assert(after(rest, '\n') =~= v@.subrange(e + 1, v.len() as int));
            assert(bounds_view(v@, old_r) + lines(rest) =~= bounds_view(v@, r@) + lines(
                v@.subrange(e + 1, v.len() as int),
            ));
        }
        start = e + 1;
    }
}

/// The arguments that the value `v[lo..hi]` gives, if it declares a dependency.
fn entry_arguments(v: &Vec<char>, lo: usize, hi: usize) -> (r: Option<Vec<(String, String)>>)
    requires
        lo <= hi <= v.len(),
    ensures
        match r {
            Some(a) => entry_args(v@.subrange(lo as int, hi as int)) == Some(pairs_view(a@)),
            None => entry_args(v@.subrange(lo as int, hi as int)) is None,
        },
{
    let ghost s = v@.subrange(lo as int, hi as int);
    if hi > lo && v[lo] == '"' && v[hi - 1] == '"' {
        assert(s[0] == v@[lo as int] && s.last() == v@[hi - 1]);
        let (a, b) = strip_bounds(v, lo, hi, CharClass::Quote);
        let key = version_chars();
        let pair = (string_of(&key, 0, key.len()), string_of(v, a, b));
        assert(key@.subrange(0, key.len() as int) =~= key@);
        let r = vec![pair];
        assert(pairs_view(r@) =~= seq![(version_word(), unquote(s))]);
        Some(r)
    } else if hi > lo && v[lo] == '{' && v[hi - 1] == '}' {
        assert(s[0] == v@[lo as int] && s.last() == v@[hi - 1]);
        let a = tokenize_range(v, lo + 1, hi);
        assert(s.skip(1) =~= v@.subrange(lo + 1, hi as int));
        Some(a)
    } else {
        assert(hi > lo ==> s[0] == v@[lo as int] && s.last() == v@[hi - 1]);
        None
    }
}

/// The dependency declarations of a manifest, in the order of their lines: each line
/// of the form `name = "version"` or `name = { key = value, ... }` that stands in a
/// section whose name contains `dependencies`.
pub fn get_dependencies_from_toml(manifest_text: &str) -> (r: Vec<DependencyDefinition>)
    ensures
        deps_view(r@) == declarations(manifest_text@),
{
    let v = chars_of(manifest_text);
    let bounds = line_bounds(&v);
    let deps_word = dependencies_chars();
    let ghost ls = lines(v@);
    let mut section: Vec<char> = Vec::new();
    let mut in_deps = false;
    let mut out: Vec<DependencyDefinition> = Vec::new();
    let mut j: usize = 0;
    assert(deps_view(out@) =~= Seq::<DependencyModel>::empty());
    assert(contains(Seq::<char>::empty(), dependencies_word()) == false);
    while j < bounds.len()
        invariant
            j <= bounds.len(),
            ls == lines(v@),
            bounds_view(v@, bounds@) == ls,
            forall|i: int| 0 <= i < bounds.len() ==> (#[trigger] bounds@[i]).0 <= bounds@[i].1 <= v.len(),
            deps_word@ == dependencies_word(),
            scan_lines(ls, j as nat).0 == section@,
            in_deps == contains(section@, dependencies_word()),
            scan_lines(ls, j as nat).1 == deps_view(out@),
        decreases bounds.len() - j,
    {
        let (lo, hi) = bounds[j];
        let ghost l = ls[j as int];
        assert(l == v@.subrange(lo as int, hi as int));
        let h = find_in(&v, lo, hi, '#');
        let (a, b) = strip_bounds(&v, lo, h, CharClass::Space);
        let ghost c = v@.subrange(a as int, b as int);
        proof {
            assert(before(l, '#') =~= v@.subrange(lo as int, h as int));
            assert(cleaned(l) == c);
            assert(column_of(l) == a - lo);
        }
        if b - a >= 2 && v[a] == '[' && v[b - 1] == ']' {
            assert(is_header(c));
            section = slice_chars(&v, a + 1, b - 1);
            in_deps = search_exec(&section, &deps_word).is_some();
            assert(header_name(c) =~= section@);
        } else {
            assert(!is_header(c));
            if in_deps {
                let e = find_in(&v, a, b, '=');
                if e < b {
                    let (va, vb) = strip_bounds(&v, e + 1, b, CharClass::Space);
                    proof {
                        assert(after(c, '=') =~= v@.subrange(e + 1, b as int));
                    }
                    match entry_arguments(&v, va, vb) {
                        Some(args) => {
                            let (ka, kb) = strip_bounds(&v, a, e, CharClass::Space);
                            proof {
                                assert(before(c, '=') =~= v@.subrange(a as int, e as int));
                            }
                            let d = DependencyDefinition {
                                name: string_of(&v, ka, kb),
                                args,
                                original_line: string_of(&v, a, b),
                                line: j,
                                column: a - lo,
                            };
                            let ghost old_out = out@;
                            out.push(d);
                            assert(deps_view(out@) =~= deps_view(old_out).push(d@));
                        },
                        None => {},
                    }
                }
            }
        }
        j += 1;
    }
    out
}

} // verus!
