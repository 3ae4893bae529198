//! Decides the newest version of a dependency: the version that the manifest at its
//! local path declares.
use vstd::prelude::*;
use crate::text::{after, chars_of, find_in, has_char, starts_with, starts_with_in, strip_bounds, string_of, trim, CharClass};
use crate::tokenizer::pairs_view;
use crate::manifest::{DependencyDefinition, DependencyModel, bounds_view, line_bounds, lines, path_chars, path_word, version_chars, version_word};

verus! {

/// The value of the first argument named `key`.
pub open spec fn arg_value(args: Seq<(Seq<char>, Seq<char>)>, key: Seq<char>) -> Option<Seq<char>>
    decreases args.len(),
{
    if args.len() == 0 {
        None
    } else if args[0].0 == key {
        Some(args[0].1)
    } else {
        arg_value(args.drop_first(), key)
    }
}

/// Whether line `l`, trimmed, starts with `version` and holds an `=`.
#[verifier::opaque]
pub open spec fn declares_version(l: Seq<char>) -> bool {
    starts_with(trim(l), version_word()) && has_char(l, '=')
}

/// What follows the `=` of the first line that, trimmed, starts with `version` and
/// holds an `=`.
pub open spec fn version_in_lines(ls: Seq<Seq<char>>) -> Option<Seq<char>>
    decreases ls.len(),
{
    if ls.len() == 0 {
        None
    } else if declares_version(ls[0]) {
        Some(after(ls[0], '='))
    } else {
        version_in_lines(ls.drop_first())
    }
}

/// The version that manifest text `s` declares for its own package, untrimmed.
pub open spec fn manifest_version(s: Seq<char>) -> Option<Seq<char>> {
    version_in_lines(lines(s))
}

/// The newest version of `d`, where `sibling` is the text of the manifest at its local
/// path (`None` where that manifest could not be read).
pub open spec fn resolution(d: DependencyModel, sibling: Option<Seq<char>>) -> Option<Seq<char>> {
    if arg_value(d.args, path_word()) is Some && sibling is Some {
        manifest_version(sibling->Some_0)
    } else {
        None
    }
}

/// The characters of an optional text.
pub open spec fn text_of(t: Option<&str>) -> Option<Seq<char>> {
    match t {
        Some(t) => Some(t@),
        None => None,
    }
}

/// The newest version of a dependency could not be determined.
#[derive(Debug)]
pub struct NotResolvable {
    pub dependency_name: String,
}

/// The index of the first argument named `key`.
pub fn arg_index(args: &Vec<(String, String)>, key: &String) -> (r: Option<usize>)
    ensures
        match r {
            Some(i) => i < args.len() && arg_value(pairs_view(args@), key@) == Some(args@[i as int].1@),
            None => arg_value(pairs_view(args@), key@) is None,
        },
{
    let ghost pv = pairs_view(args@);
    let mut i: usize = 0;
    assert(pv.skip(0) =~= pv);
    while i < args.len()
        invariant
            i <= args.len(),
            pv == pairs_view(args@),
            arg_value(pv, key@) == arg_value(pv.skip(i as int), key@),
        decreases args.len() - i,
    {
        assert(pv.skip(i as int)[0] == (args@[i as int].0@, args@[i as int].1@));
        if args[i].0 == *key {
            return Some(i);
        }
        assert(pv.skip(i as int).drop_first() =~= pv.skip(i + 1));
        i += 1;
    }
    None
}

/// The value of the first argument of `dependency` named `key`.
pub fn argument(dependency: &DependencyDefinition, key: &str) -> (r: Option<String>)
    ensures
        match r {
            Some(v) => arg_value(dependency@.args, key@) == Some(v@),
            None => arg_value(dependency@.args, key@) is None,
        },
{
    let k = key.to_owned();
    match arg_index(&dependency.args, &k) {
        Some(i) => Some(dependency.args[i].1.clone()),
        None => None,
    }
}

/// The local path that `dependency` names, if any.
pub fn path_argument(dependency: &DependencyDefinition) -> (r: Option<String>)
    ensures
        match r {
            Some(v) => arg_value(dependency@.args, path_word()) == Some(v@),
            None => arg_value(dependency@.args, path_word()) is None,
        },
{
    let p = path_chars();
    let k = string_of(&p, 0, p.len());
    assert(p@.subrange(0, p.len() as int) =~= p@);
    match arg_index(&dependency.args, &k) {
        Some(i) => Some(dependency.args[i].1.clone()),
        None => None,
    }
}

/// What follows the `=` of `v[lo..hi]`, if the line, trimmed, starts with `word` and
/// holds an `=`.
fn version_on_line(v: &Vec<char>, lo: usize, hi: usize, word: &Vec<char>) -> (r: Option<String>)
    requires
        lo <= hi <= v.len(),
        word@ == version_word(),
    ensures
        match r {
            Some(x) => declares_version(v@.subrange(lo as int, hi as int)) && x@ == after(
                v@.subrange(lo as int, hi as int),
                '=',
            ),
            None => !declares_version(v@.subrange(lo as int, hi as int)),
        },
{
    reveal(declares_version);
    let (a, b) = strip_bounds(v, lo, hi, CharClass::Space);
    let e = find_in(v, lo, hi, '=');
    if starts_with_in(v, a, b, word) && e < hi {
        assert(after(v@.subrange(lo as int, hi as int), '=') =~= v@.subrange(e + 1, hi as int));
        Some(string_of(v, e + 1, hi))
    } else {
        None
    }
}

/// The version that a manifest declares for its own package: what follows the `=` of
/// the first line that, trimmed, starts with `version` and holds an `=`, untrimmed.
pub fn version_of_manifest(manifest_text: &str) -> (r: Option<String>)
    ensures
        match r {
            Some(v) => manifest_version(manifest_text@) == Some(v@),
            None => manifest_version(manifest_text@) is None,
        },
{
    let v = chars_of(manifest_text);
    let bounds = line_bounds(&v);
    let word = version_chars();
    let ghost ls = lines(v@);
    let mut j: usize = 0;
    assert(ls.skip(0) =~= ls);
    while j < bounds.len()
        invariant
            j <= bounds.len(),
            ls == lines(v@),
            bounds_view(v@, bounds@) == ls,
            forall|i: int| 0 <= i < bounds.len() ==> (#[trigger] bounds@[i]).0 <= bounds@[i].1 <= v.len(),
            word@ == version_word(),
            v@ == manifest_text@,
            version_in_lines(ls) == version_in_lines(ls.skip(j as int)),
        decreases bounds.len() - j,
    {
        let (lo, hi) = bounds[j];
        let ghost l = ls[j as int];
        assert(l == v@.subrange(lo as int, hi as int));
        let ghost t = ls.skip(j as int);
        assert(t[0] == l);
        assert(t.len() > 0);
        if let Some(found) = version_on_line(&v, lo, hi, &word) {
            assert(version_in_lines(t) == Some(after(l, '=')));
            return Some(found);
        }
        assert(ls.skip(j as int).drop_first() =~= ls.skip(j + 1));
        j += 1;
    }
    None
}

/// The newest version of `dependency`: the version declared by `sibling_manifest`, the
/// text of the manifest found at the dependency's `path` argument (`None` where it
/// could not be read). Fails where there is no `path` argument, no manifest text, or
/// no version line in it.
pub fn dependency_newest_version(dependency: &DependencyDefinition, sibling_manifest: Option<&str>) -> (r: Result<String, NotResolvable>)
    ensures
        match r {
            Ok(v) => resolution(dependency@, text_of(sibling_manifest)) == Some(v@),
            Err(e) => resolution(dependency@, text_of(sibling_manifest)) is None
                && e.dependency_name@ == dependency.name@,
        },
{
    let not_found = NotResolvable { dependency_name: dependency.name.clone() };
    if path_argument(dependency).is_none() {
        return Err(not_found);
    }
    match sibling_manifest {
        Some(t) => match version_of_manifest(t) {
            Some(v) => Ok(v),
            None => Err(not_found),
        },
        None => Err(not_found),
    }
}

} // verus!
