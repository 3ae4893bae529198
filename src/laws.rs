//! Properties that relate the parts of the library, proved.
use vstd::prelude::*;
use crate::text::{CharClass, before, contains, has_char, lemma_lead, lemma_search_found, occurs_at, search};
use crate::manifest::{DependencyModel, cleaned, column_of, declarations, dependencies_word, is_header, lines, scan_line, scan_lines, version_word};
use crate::resolver::arg_value;
use crate::rewriter::{any_edit, apply_edits, changes, edit, normalized, rewritten, splice, unlines};

verus! {

/// Declarations come out in the order of their lines, one line at most each, and each
/// from one of the lines scanned.
pub proof fn lemma_scan_lines_ordered(ls: Seq<Seq<char>>, n: nat)
    ensures
        forall|i: int| 0 <= i < scan_lines(ls, n).1.len() ==> #[trigger] scan_lines(ls, n).1[i].line < n,
        forall|a: int, b: int|
            0 <= a < b < scan_lines(ls, n).1.len() ==> #[trigger] scan_lines(ls, n).1[a].line
                < #[trigger] scan_lines(ls, n).1[b].line,
    decreases n,
{
    if n > 0 {
        let m = (n - 1) as nat;
        lemma_scan_lines_ordered(ls, m);
        let prev = scan_lines(ls, m).1;
        let cur = scan_lines(ls, n).1;
        lemma_scan_line_shape(scan_lines(ls, m), ls[m as int], m);
        assert forall|i: int| 0 <= i < cur.len() implies #[trigger] cur[i].line < n by {
            if i < prev.len() {
                assert(cur[i] == prev[i]);
            }
        }
        assert forall|a: int, b: int| 0 <= a < b < cur.len() implies #[trigger] cur[a].line
            < #[trigger] cur[b].line by {
            assert(cur[a] == prev[a]);
            if b < prev.len() {
                assert(cur[b] == prev[b]);
            }
        }
    }
}

/// A line adds at most one declaration, and that one records the line's index.
proof fn lemma_scan_line_shape(st: (Seq<char>, Seq<DependencyModel>), l: Seq<char>, j: nat)
    ensures
        scan_line(st, l, j).1 == st.1 || (scan_line(st, l, j).1 == st.1.push(
            scan_line(st, l, j).1.last(),
        ) && scan_line(st, l, j).1.last().line == j),
{
}

/// A comment does not change how a line is read: `l` followed by `#` and any text is
/// read as `l` alone, where `l` holds no `#`.
pub proof fn law_comment_ignored(
    st: (Seq<char>, Seq<DependencyModel>),
    l: Seq<char>,
    comment: Seq<char>,
    j: nat,
)
    requires
        !has_char(l, '#'),
    ensures
        cleaned(l + seq!['#'] + comment) == cleaned(l),
        column_of(l + seq!['#'] + comment) == column_of(l),
        scan_line(st, l + seq!['#'] + comment, j) == scan_line(st, l, j),
{
    let m = l + seq!['#'] + comment;
    crate::text::lemma_lead_stop(l, CharClass::Except('#'));
    assert forall|i: int| 0 <= i < l.len() implies crate::text::in_class(
        #[trigger] m[i],
        CharClass::Except('#'),
    ) by {
        assert(m[i] == l[i]);
    }
    lemma_lead(m, CharClass::Except('#'), l.len() as int);
    assert(before(m, '#') =~= l);
    assert(before(l, '#') =~= l);
}

/// Outside a section whose name contains `dependencies`, a line that is not a section
/// header declares nothing.
pub proof fn law_scoped_to_dependency_sections(
    st: (Seq<char>, Seq<DependencyModel>),
    l: Seq<char>,
    j: nat,
)
    requires
        !contains(st.0, dependencies_word()),
        !is_header(cleaned(l)),
    ensures
        scan_line(st, l, j) == st,
{
}

/// With declarations in strictly increasing line order, each declaration's edit is
/// made to its line as it stood at first, and no other line changes.
proof fn lemma_apply_edits_lines(
    ls: Seq<Seq<char>>,
    ds: Seq<DependencyModel>,
    rs: Seq<Option<Seq<char>>>,
    n: nat,
)
    requires
        n <= ds.len(),
        n <= rs.len(),
        forall|a: int, b: int| 0 <= a < b < ds.len() ==> #[trigger] ds[a].line < #[trigger] ds[b].line,
    ensures
        apply_edits(ls, ds, rs, n).len() == ls.len(),
        forall|j: int|
            0 <= j < ls.len() && (forall|i: int| 0 <= i < n ==> #[trigger] ds[i].line != j)
                ==> #[trigger] apply_edits(ls, ds, rs, n)[j] == ls[j],
        forall|i: int|
            0 <= i < n && #[trigger] ds[i].line < ls.len() ==> apply_edits(ls, ds, rs, n)[ds[i].line as int]
                == match edit(ls, ds[i], rs[i]) {
                Some(e) => splice(ls[ds[i].line as int], e.0, e.1.len(), e.2),
                None => ls[ds[i].line as int],
            },
    decreases n,
{
    if n > 0 {
        let m = (n - 1) as nat;
        lemma_apply_edits_lines(ls, ds, rs, m);
        let prev = apply_edits(ls, ds, rs, m);
        let d = ds[m as int];
        if d.line < ls.len() {
            assert(forall|i: int| 0 <= i < m ==> #[trigger] ds[i].line != d.line);
            assert(prev[d.line as int] == ls[d.line as int]);
            assert(edit(prev, d, rs[m as int]) == edit(ls, d, rs[m as int]));
        } else {
            assert(edit(prev, d, rs[m as int]) is None);
        }
        let cur = apply_edits(ls, ds, rs, n);
        assert forall|i: int|
            0 <= i < n && #[trigger] ds[i].line < ls.len() implies cur[ds[i].line as int]
                == match edit(ls, ds[i], rs[i]) {
                Some(e) => splice(ls[ds[i].line as int], e.0, e.1.len(), e.2),
                None => ls[ds[i].line as int],
            } by {
            if i < m {
                assert(ds[i].line != d.line);
            }
        }
    }
}

/// An edit replaces the declaration's current version where it stands in its line.
proof fn lemma_edit_site(ls: Seq<Seq<char>>, d: DependencyModel, r: Option<Seq<char>>)
    requires
        edit(ls, d, r) is Some,
    ensures
        occurs_at(ls[d.line as int], edit(ls, d, r)->Some_0.1, edit(ls, d, r)->Some_0.0 as int),
        edit(ls, d, r)->Some_0.1 == arg_value(d.args, version_word())->Some_0,
        edit(ls, d, r)->Some_0.2 == normalized(r->Some_0),
        edit(ls, d, r)->Some_0.1 != edit(ls, d, r)->Some_0.2,
{
    let cur = arg_value(d.args, version_word())->Some_0;
    let l = ls[d.line as int];
    let k = search(d.original_line, cur)->Some_0;
    lemma_search_found(d.original_line, cur);
    let p = d.column + k;
    assert(l.subrange(p as int, (p + cur.len()) as int) =~= d.original_line.subrange(
        k as int,
        (k + cur.len()) as int,
    ));
}

/// Rewriting keeps every line but the version text of the declarations it updates: the
/// text has as many lines as before, a line that declares nothing is unchanged, and
/// the line of a declaration is either unchanged or has the current version, at the
/// place where it stands, replaced by the differing resolved version.
pub proof fn law_rewrite_preserves_text(s: Seq<char>, rs: Seq<Option<Seq<char>>>)
    requires
        rs.len() == declarations(s).len(),
    ensures
        ({
            let ls = lines(s);
            let ds = declarations(s);
            let out = apply_edits(ls, ds, rs, ds.len());
            &&& rewritten(s, ds, rs) == unlines(out)
            &&& out.len() == ls.len()
            &&& forall|j: int|
                0 <= j < ls.len() && (forall|i: int| 0 <= i < ds.len() ==> #[trigger] ds[i].line != j)
                    ==> #[trigger] out[j] == ls[j]
            &&& forall|i: int|
                0 <= i < ds.len() ==> {
                    let j = (#[trigger] ds[i]).line as int;
                    &&& j < ls.len()
                    &&& out[j] == ls[j] || exists|p: nat, cur: Seq<char>, new: Seq<char>|
                        occurs_at(ls[j], cur, p as int) && cur == arg_value(
                            ds[i].args,
                            version_word(),
                        )->Some_0 && new == normalized(rs[i]->Some_0) && cur != new && out[j]
                            == #[trigger] splice(ls[j], p, cur.len(), new)
                }
        }),
{
    let ls = lines(s);
    let ds = declarations(s);
    lemma_scan_lines_ordered(ls, ls.len());
    lemma_apply_edits_lines(ls, ds, rs, ds.len());
    let out = apply_edits(ls, ds, rs, ds.len());
    assert forall|i: int| 0 <= i < ds.len() implies {
        let j = (#[trigger] ds[i]).line as int;
        &&& j < ls.len()
        &&& out[j] == ls[j] || exists|p: nat, cur: Seq<char>, new: Seq<char>|
            occurs_at(ls[j], cur, p as int) && cur == arg_value(ds[i].args, version_word())->Some_0
                && new == normalized(rs[i]->Some_0) && cur != new && out[j] == #[trigger] splice(
                ls[j],
                p,
                cur.len(),
                new,
            )
    } by {
        let j = ds[i].line as int;
        if let Some(e) = edit(ls, ds[i], rs[i]) {
            lemma_edit_site(ls, ds[i], rs[i]);
            assert(out[j] == splice(ls[j], e.0, e.1.len(), e.2));
        }
    }
}

/// Where every resolved version, without white space and quotes round it, already is
/// the declaration's current version (or could not be resolved), rewriting changes
/// nothing and gives the text back as it was.
pub proof fn law_current_versions_kept(s: Seq<char>, ds: Seq<DependencyModel>, rs: Seq<Option<Seq<char>>>)
    requires
        rs.len() == ds.len(),
        forall|i: int|
            0 <= i < ds.len() && (#[trigger] rs[i]) is Some && arg_value(ds[i].args, version_word()) is Some
                ==> normalized(rs[i]->Some_0) == arg_value(ds[i].args, version_word())->Some_0,
    ensures
        !changes(s, ds, rs),
        rewritten(s, ds, rs) == s,
{
    lemma_no_edits(lines(s), ds, rs, ds.len());
    crate::rewriter::lemma_unlines_lines(s);
}

proof fn lemma_no_edits(ls: Seq<Seq<char>>, ds: Seq<DependencyModel>, rs: Seq<Option<Seq<char>>>, n: nat)
    requires
        n <= ds.len() == rs.len(),
        forall|i: int|
            0 <= i < ds.len() && (#[trigger] rs[i]) is Some && arg_value(ds[i].args, version_word()) is Some
                ==> normalized(rs[i]->Some_0) == arg_value(ds[i].args, version_word())->Some_0,
    ensures
        !any_edit(ls, ds, rs, n),
        apply_edits(ls, ds, rs, n) == ls,
    decreases n,
{
    if n > 0 {
        lemma_no_edits(ls, ds, rs, (n - 1) as nat);
        let i = n - 1;
        assert(rs[i] is Some && arg_value(ds[i].args, version_word()) is Some ==> normalized(
            rs[i]->Some_0,
        ) == arg_value(ds[i].args, version_word())->Some_0);
    }
}

} // verus!
