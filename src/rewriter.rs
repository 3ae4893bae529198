//! Puts resolved versions into a manifest, changing nothing but the version text of the
//! declarations that need it.
use vstd::prelude::*;
use crate::text::{CharClass, after, before, chars_of, has_char, lemma_lead_stop, occurs_at, occurs_at_exec, search, search_exec, strip_bounds, string_of, trim, unquote};
use crate::manifest::{DependencyDefinition, DependencyModel, bounds_view, deps_view, line_bounds, lines, slice_chars, version_chars, version_word};
use crate::resolver::{arg_index, arg_value};

verus! {

/// A resolved version without surrounding white space and double quotes.
pub open spec fn normalized(r: Seq<char>) -> Seq<char> {
    unquote(trim(r))
}

/// The edit that declaration `d` calls for in lines `ls`, given its resolved version:
/// where in its line the replaced text starts, the current version that it replaces,
/// and the new version. There is none where `d` has no version, its version could not
/// be resolved or is already the resolved one, or its line no longer reads as it did.
pub open spec fn edit(ls: Seq<Seq<char>>, d: DependencyModel, resolved: Option<Seq<char>>) -> Option<
    (nat, Seq<char>, Seq<char>),
> {
    match (arg_value(d.args, version_word()), resolved) {
        (Some(cur), Some(res)) => {
            if normalized(res) != cur && d.line < ls.len() && occurs_at(
                ls[d.line as int],
                d.original_line,
                d.column as int,
            ) && search(d.original_line, cur) is Some {
                Some((d.column + search(d.original_line, cur)->Some_0, cur, normalized(res)))
            } else {
                None
            }
        },
        _ => None,
    }
}

/// `l` with the `n` characters at `p` replaced by `new`.
pub open spec fn splice(l: Seq<char>, p: nat, n: nat, new: Seq<char>) -> Seq<char> {
    l.take(p as int) + new + l.skip((p + n) as int)
}

/// Lines `ls` after the edits of the first `n` declarations.
pub open spec fn apply_edits(
    ls: Seq<Seq<char>>,
    ds: Seq<DependencyModel>,
    rs: Seq<Option<Seq<char>>>,
    n: nat,
) -> Seq<Seq<char>>
    decreases n,
{
    if n == 0 {
        ls
    } else {
        let prev = apply_edits(ls, ds, rs, (n - 1) as nat);
        let d = ds[n - 1];
        match edit(prev, d, rs[n - 1]) {
            Some(e) => prev.update(d.line as int, splice(prev[d.line as int], e.0, e.1.len(), e.2)),
            None => prev,
        }
    }
}

/// Whether one of the first `n` declarations called for an edit.
pub open spec fn any_edit(
    ls: Seq<Seq<char>>,
    ds: Seq<DependencyModel>,
    rs: Seq<Option<Seq<char>>>,
    n: nat,
) -> bool
    decreases n,
{
    n > 0 && (any_edit(ls, ds, rs, (n - 1) as nat) || edit(
        apply_edits(ls, ds, rs, (n - 1) as nat),
        ds[n - 1],
        rs[n - 1],
    ) is Some)
}

/// The lines `ls` joined by line feeds.
pub open spec fn unlines(ls: Seq<Seq<char>>) -> Seq<char>
    decreases ls.len(),
{
    if ls.len() == 0 {
        Seq::empty()
    } else if ls.len() == 1 {
        ls[0]
    } else {
        unlines(ls.drop_last()) + seq!['\n'] + ls.last()
    }
}

/// The manifest text `s` after the edits that declarations `ds` call for, the version
/// of `ds[i]` resolved as `rs[i]`.
pub open spec fn rewritten(
    s: Seq<char>,
    ds: Seq<DependencyModel>,
    rs: Seq<Option<Seq<char>>>,
) -> Seq<char> {
    unlines(apply_edits(lines(s), ds, rs, ds.len()))
}

pub open spec fn changes(s: Seq<char>, ds: Seq<DependencyModel>, rs: Seq<Option<Seq<char>>>) -> bool {
    any_edit(lines(s), ds, rs, ds.len())
}

pub open spec fn options_view(rs: Seq<Option<String>>) -> Seq<Option<Seq<char>>> {
    rs.map_values(|o: Option<String>| match o {
        Some(s) => Some(s@),
        None => None,
    })
}

pub open spec fn lines_view(lv: Seq<Vec<char>>) -> Seq<Seq<char>> {
    lv.map_values(|l: Vec<char>| l@)
}

proof fn lemma_unlines_cons(b: Seq<char>, ls: Seq<Seq<char>>)
    requires
        ls.len() >= 1,
    ensures
        unlines(seq![b] + ls) == b + seq!['\n'] + unlines(ls),
    decreases ls.len(),
{
    let bl = seq![b] + ls;
    if ls.len() == 1 {
        assert(bl.drop_last() =~= seq![b]);
        assert(unlines(seq![b]) == b);
        assert(bl.last() == ls[0]);
        assert(unlines(bl) == unlines(bl.drop_last()) + seq!['\n'] + bl.last());
    } else {
        assert(bl.drop_last() =~= seq![b] + ls.drop_last());
        lemma_unlines_cons(b, ls.drop_last());
        assert(unlines(bl) =~= b + seq!['\n'] + unlines(ls));
    }
}

/// Joining the lines of a text gives the text back.
pub proof fn lemma_unlines_lines(s: Seq<char>)
    ensures
        unlines(lines(s)) == s,
    decreases s.len(),
{
    if has_char(s, '\n') {
        lemma_lead_stop(s, CharClass::Except('\n'));
        let a = after(s, '\n');
        lemma_unlines_lines(a);
        lemma_unlines_cons(before(s, '\n'), lines(a));
        assert(s =~= before(s, '\n') + seq!['\n'] + a);
    }
}

proof fn lemma_no_edit(ls: Seq<Seq<char>>, ds: Seq<DependencyModel>, rs: Seq<Option<Seq<char>>>, n: nat)
    requires
        !any_edit(ls, ds, rs, n),
    ensures
        apply_edits(ls, ds, rs, n) == ls,
    decreases n,
{
    if n > 0 {
        lemma_no_edit(ls, ds, rs, (n - 1) as nat);
    }
}

/// `l` with the `n` characters at `p` replaced by `new`.
fn splice_exec(l: &Vec<char>, p: usize, n: usize, new: &Vec<char>) -> (r: Vec<char>)
    requires
        p <= l.len(),
        n <= l.len() - p,
    ensures
        r@ == splice(l@, p as nat, n as nat, new@),
{
    let mut r = slice_chars(l, 0, p);
    let mut i: usize = 0;
    while i < new.len()
        invariant
            i <= new.len(),
            r@ == l@.take(p as int) + new@.take(i as int),
        decreases new.len() - i,
    {
        r.push(new[i]);
        i += 1;
        assert(r@ =~= l@.take(p as int) + new@.take(i as int));
    }
    let mut j: usize = p + n;
    assert(l@.skip((p + n) as int).take(0) =~= Seq::<char>::empty());
    assert(r@ =~= l@.take(p as int) + new@ + l@.skip((p + n) as int).take(0));
    while j < l.len()
        invariant
            p + n <= j <= l.len(),
            r@ == l@.take(p as int) + new@ + l@.skip((p + n) as int).take(j - p - n),
        decreases l.len() - j,
    {
        r.push(l[j]);
        j += 1;
        assert(r@ =~= l@.take(p as int) + new@ + l@.skip((p + n) as int).take(j - p - n));
    }
    assert(l@.skip((p + n) as int).take(j - p - n) =~= l@.skip((p + n) as int));
    r
}

/// The edit that `d` calls for in lines `lv`, given its resolved version `r`.
fn edit_of(lv: &Vec<Vec<char>>, d: &DependencyDefinition, r: &Option<String>) -> (e: Option<
    (usize, Vec<char>, Vec<char>),
>)
    ensures
        match e {
            Some(x) => edit(
                lines_view(lv@),
                d@,
                match r {
                    Some(s) => Some(s@),
                    None => None,
                },
            ) == Some((x.0 as nat, x.1@, x.2@)),
            None => edit(
                lines_view(lv@),
                d@,
                match r {
                    Some(s) => Some(s@),
                    None => None,
                },
            ) is None,
        },
{
    let word = version_chars();
    let key = string_of(&word, 0, word.len());
    assert(word@.subrange(0, word.len() as int) =~= word@);
    let res = match r {
        Some(s) => s,
        None => {
            return None;
        },
    };
    let idx = match arg_index(&d.args, &key) {
        Some(i) => i,
        None => {
            return None;
        },
    };
    let cur = chars_of(d.args[idx].1.as_str());
    let rv = chars_of(res.as_str());
    let (a, b) = strip_bounds(&rv, 0, rv.len(), CharClass::Space);
    let (qa, qb) = strip_bounds(&rv, a, b, CharClass::Quote);
    let new = slice_chars(&rv, qa, qb);
    proof {
        assert(rv@.subrange(0, rv.len() as int) =~= res@);
    }
    if new.len() == cur.len() {
        let mut same = true;
        let mut i: usize = 0;
        while i < cur.len()
            invariant
                i <= cur.len() == new.len(),
                same == (forall|j: int| 0 <= j < i ==> new@[j] == cur@[j]),
            decreases cur.len() - i,
        {
            if new[i] != cur[i] {
                same = false;
            }
            i += 1;
        }
        if same {
            assert(new@ =~= cur@);
            return None;
        }
    }
    assert(new@ != cur@);
    if d.line >= lv.len() {
        return None;
    }
    let orig = chars_of(d.original_line.as_str());
    if !occurs_at_exec(&lv[d.line], &orig, d.column) {
        return None;
    }
    match search_exec(&orig, &cur) {
        Some(k) => {
            assert(lines_view(lv@)[d.line as int] == lv@[d.line as int]@);
            proof {
                crate::text::lemma_search_found(orig@, cur@);
                assert(d.column + orig.len() <= lv@[d.line as int].len());
                assert(k + cur.len() <= orig.len());
            }
            Some((d.column + k, cur, new))
        },
        None => None,
    }
}

/// The lines `lv` joined by line feeds.
fn join_lines(lv: &Vec<Vec<char>>) -> (r: Vec<char>)
    ensures
        r@ == unlines(lines_view(lv@)),
{
    let mut out: Vec<char> = Vec::new();
    let ghost ls = lines_view(lv@);
    let mut i: usize = 0;
    assert(ls.take(0) =~= Seq::<Seq<char>>::empty());
    while i < lv.len()
        invariant
            i <= lv.len(),
            ls == lines_view(lv@),
            out@ == unlines(ls.take(i as int)),
        decreases lv.len() - i,
    {
        if i > 0 {
            out.push('\n');
        }
        let l = &lv[i];
        let mut j: usize = 0;
        let ghost base = out@;
        while j < l.len()
            invariant
                j <= l.len(),
                out@ == base + l@.take(j as int),
            decreases l.len() - j,
        {
            out.push(l[j]);
            j += 1;
            assert(out@ =~= base + l@.take(j as int));
        }
        proof {
            assert(l@.take(j as int) =~= l@);
            let t = ls.take(i + 1);
            assert(t.drop_last() =~= ls.take(i as int));
            assert(t.last() == l@);
            assert(out@ =~= unlines(t));
        }
        i += 1;
    }
    assert(ls.take(lv.len() as int) =~= ls);
    out
}

/// The manifest text with the version of each declaration replaced by its resolved
/// version (`resolved[i]` for `declarations[i]`, `None` where it could not be
/// resolved) wherever they differ, and whether anything was replaced. The resolved
/// version is compared and put in without surrounding white space and double quotes;
/// it replaces the first occurrence of the current version within the declaration's
/// own line, and nothing else changes.
pub fn rewrite(
    manifest_text: &str,
    declarations: &Vec<DependencyDefinition>,
    resolved: &Vec<Option<String>>,
) -> (r: (String, bool))
    requires
        resolved.len() == declarations.len(),
    ensures
        r.0@ == rewritten(manifest_text@, deps_view(declarations@), options_view(resolved@)),
        r.1 == changes(manifest_text@, deps_view(declarations@), options_view(resolved@)),
        !r.1 ==> r.0@ == manifest_text@,
{
    let v = chars_of(manifest_text);
    let bounds = line_bounds(&v);
    let ghost ls = lines(v@);
    let ghost ds = deps_view(declarations@);
    let ghost rs = options_view(resolved@);
    let mut lv: Vec<Vec<char>> = Vec::new();
    let mut i: usize = 0;
    while i < bounds.len()
        invariant
            i <= bounds.len(),
            bounds_view(v@, bounds@) == ls,
            forall|j: int| 0 <= j < bounds.len() ==> (#[trigger] bounds@[j]).0 <= bounds@[j].1 <= v.len(),
            lines_view(lv@) == ls.take(i as int),
        decreases bounds.len() - i,
    {
        let (lo, hi) = bounds[i];
        let l = slice_chars(&v, lo, hi);
        assert(ls[i as int] == l@);
        let ghost old_lv = lv@;
        lv.push(l);
        assert(lines_view(lv@) =~= lines_view(old_lv).push(l@));
        assert(ls.take(i as int).push(ls[i as int]) =~= ls.take(i + 1));
        i += 1;
    }
    assert(ls.take(bounds.len() as int) =~= ls);
    let mut changed = false;
    let mut k: usize = 0;
    while k < declarations.len()
        invariant
            k <= declarations.len() == resolved.len(),
            ds == deps_view(declarations@),
            rs == options_view(resolved@),
            lines_view(lv@) == apply_edits(ls, ds, rs, k as nat),
            changed == any_edit(ls, ds, rs, k as nat),
        decreases declarations.len() - k,
    {
        let d = &declarations[k];
        assert(ds[k as int] == d@);
        assert(rs[k as int] == match resolved@[k as int] {
            Some(s) => Some(s@),
            None => None::<Seq<char>>,
        });
        match edit_of(&lv, d, &resolved[k]) {
            Some((p, cur, new)) => {
                proof {
                    lemma_lead_stop(d@.original_line, CharClass::Space);
                }
                let ghost prev = lines_view(lv@);
                assert(p + cur.len() <= lv@[d.line as int].len()) by {
                    let orig = d@.original_line;
                    let kk = search(orig, cur@)->Some_0;
                    assert(occurs_at(orig, cur@, kk as int)) by {
                        crate::text::lemma_search_found(orig, cur@);
                    }
                }
                let nl = splice_exec(&lv[d.line], p, cur.len(), &new);
                lv.set(d.line, nl);
                assert(lines_view(lv@) =~= prev.update(
                    d.line as int,
                    splice(prev[d.line as int], p as nat, cur.len() as nat, new@),
                ));
                changed = true;
            },
            None => {},
        }
        k += 1;
    }
    let out = join_lines(&lv);
    proof {
        lemma_unlines_lines(v@);
        if !changed {
            lemma_no_edit(ls, ds, rs, declarations.len() as nat);
        }
    }
    (string_of(&out, 0, out.len()), changed)
}

} // verus!
