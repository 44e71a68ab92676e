use vstd::prelude::*;
use crate::text::ESC;
use crate::ansi::{ansi_html, escape_html, escape_char, escape_state, render_state, plain};
use crate::compare::{
    FileStatus, SourceFile, EntryModel, find_rel, both_sides, lone, taken, first_match, pairing,
    renamed_entries, deleted_entries, added_entries, classified, sort_by_path, insert_pos,
};
use crate::tree::{NodeModel, tree_insert, build_model, find_name, place, leaf, dir};

verus! {

// ---------------------------------------------------------------------------
// Rendering

proof fn lemma_plain_prefix(s: Seq<char>)
    requires
        forall|i: int| 0 <= i < s.len() ==> s[i] != ESC,
    ensures
        render_state(s) == (escape_html(s), plain()),
        escape_state(s).0 == false,
    decreases s.len(),
{
    if s.len() > 0 {
        lemma_plain_prefix(s.drop_last());
    }
}

proof fn lemma_escape_no_open_tag(s: Seq<char>)
    ensures
        forall|i: int| 0 <= i < escape_html(s).len() ==> escape_html(s)[i] != '<',
    decreases s.len(),
{
    if s.len() > 0 {
        lemma_escape_no_open_tag(s.drop_last());
        reveal_strlit("&lt;");
        reveal_strlit("&gt;");
        reveal_strlit("&amp;");
        reveal_strlit("&quot;");
        let a = escape_html(s.drop_last());
        let b = escape_char(s.last());
        assert forall|i: int| 0 <= i < (a + b).len() implies (a + b)[i] != '<' by {
            if i >= a.len() {
                assert((a + b)[i] == b[i - a.len()]);
            }
        }
    }
}

/// Text without escape sequences renders as its HTML-escaped self, with no
/// style region: the markup holds no `<` at all.
pub proof fn law_plain_text(s: Seq<char>)
    requires
        forall|i: int| 0 <= i < s.len() ==> s[i] != ESC,
    ensures
        ansi_html(s) == escape_html(s),
        forall|i: int| 0 <= i < ansi_html(s).len() ==> ansi_html(s)[i] != '<',
{
    lemma_plain_prefix(s);
    lemma_escape_no_open_tag(s);
}

// ---------------------------------------------------------------------------
// Sorting keeps the entries

proof fn lemma_insert_pos_range(sorted: Seq<EntryModel>, e: EntryModel, k: int)
    requires
        0 <= k,
    ensures
        0 <= insert_pos(sorted, e, k) <= sorted.len(),
    decreases sorted.len() - k,
{
    if k < sorted.len() && !crate::compare::lex_lt(e.path, sorted[k].path) {
        lemma_insert_pos_range(sorted, e, k + 1);
    }
}

/// Sorting neither loses nor invents entries.
#[verifier::rlimit(60)]
proof fn lemma_sort_members(s: Seq<EntryModel>)
    ensures
        sort_by_path(s).len() == s.len(),
        forall|k: int| 0 <= k < s.len() ==> exists|m: int| 0 <= m < s.len() && #[trigger] sort_by_path(s)[k] == s[m],
        forall|m: int| 0 <= m < s.len() ==> exists|k: int| 0 <= k < s.len() && sort_by_path(s)[k] == #[trigger] s[m],
    decreases s.len(),
{
    if s.len() > 0 {
        let p = sort_by_path(s.drop_last());
        lemma_sort_members(s.drop_last());
        lemma_insert_pos_range(p, s.last(), 0);
        let q = insert_pos(p, s.last(), 0);
        let out = p.insert(q, s.last());
        assert(sort_by_path(s) == out);
        assert forall|k: int| 0 <= k < s.len() implies exists|m: int| 0 <= m < s.len() && #[trigger] sort_by_path(s)[k] == s[m] by {
            if k < q {
                let m = choose|m: int| 0 <= m < s.len() - 1 && p[k] == s.drop_last()[m];
                assert(out[k] == s[m]);
            } else if k == q {
                assert(out[k] == s[s.len() - 1]);
            } else {
                let m = choose|m: int| 0 <= m < s.len() - 1 && p[k - 1] == s.drop_last()[m];
                assert(out[k] == s[m]);
            }
        }
        assert forall|m: int| 0 <= m < s.len() implies exists|k: int| 0 <= k < s.len() && sort_by_path(s)[k] == #[trigger] s[m] by {
            if m == s.len() - 1 {
                assert(out[q] == s[m]);
            } else {
                assert(s.drop_last()[m] == s[m]);
                let k = choose|k: int| 0 <= k < s.len() - 1 && p[k] == #[trigger] s.drop_last()[m];
                if k < q {
                    assert(out[k] == s[m]);
                } else {
                    assert(out[k + 1] == s[m]);
                }
            }
        }
    }
}

// ---------------------------------------------------------------------------
// Identical trees

/// No two files of `files` share a relative path.
pub open spec fn unique_paths(files: Seq<SourceFile>) -> bool {
    forall|i: int, j: int|
        0 <= i < j < files.len() ==> files[i].relative@ != files[j].relative@
}

/// Two listings of the same tree: the same relative paths with the same
/// bytes, in the same order.
pub open spec fn same_listing(left: Seq<SourceFile>, right: Seq<SourceFile>) -> bool {
    &&& left.len() == right.len()
    &&& forall|i: int|
        0 <= i < left.len() ==> left[i].relative@ == right[i].relative@ && left[i].content@
            == right[i].content@
}

proof fn lemma_find_unique(files: Seq<SourceFile>, i: int)
    requires
        unique_paths(files),
        0 <= i < files.len(),
    ensures
        find_rel(files, files[i].relative@) == Some(i),
    decreases files.len(),
{
    if i != files.len() - 1 {
        assert(files.drop_last()[i] == files[i]);
        lemma_find_unique(files.drop_last(), i);
    }
}

proof fn lemma_both_unchanged(left: Seq<SourceFile>, right: Seq<SourceFile>, n: int)
    requires
        same_listing(left, right),
        unique_paths(left),
        0 <= n <= right.len(),
    ensures
        forall|k: int| 0 <= k < both_sides(left, right.take(n)).len() ==> (#[trigger] both_sides(left, right.take(n))[k]).status == FileStatus::Unchanged,
    decreases n,
{
    if n > 0 {
        lemma_both_unchanged(left, right, n - 1);
        assert(right.take(n).drop_last() =~= right.take(n - 1));
        lemma_find_unique(left, n - 1);
    }
}

proof fn lemma_lone_empty(a: Seq<SourceFile>, b: Seq<SourceFile>, n: int)
    requires
        a.len() == b.len(),
        unique_paths(b),
        forall|i: int| 0 <= i < a.len() ==> a[i].relative@ == b[i].relative@,
        0 <= n <= a.len(),
    ensures
        lone(a.take(n), b).len() == 0,
    decreases n,
{
    if n > 0 {
        lemma_lone_empty(a, b, n - 1);
        assert(a.take(n).drop_last() =~= a.take(n - 1));
        lemma_find_unique(b, n - 1);
    }
}

proof fn lemma_no_unchanged_tree(es: Seq<EntryModel>)
    requires
        forall|k: int| 0 <= k < es.len() ==> (#[trigger] es[k]).status == FileStatus::Unchanged,
    ensures
        build_model(es) == Seq::<NodeModel>::empty(),
    decreases es.len(),
{
    if es.len() > 0 {
        lemma_no_unchanged_tree(es.drop_last());
    }
}

/// Comparing two listings of the same tree classifies every file as
/// Unchanged, and its display tree is empty.
pub proof fn law_identical_trees(left: Seq<SourceFile>, right: Seq<SourceFile>)
    requires
        same_listing(left, right),
        unique_paths(left),
    ensures
        forall|k: int| 0 <= k < sort_by_path(classified(left, right)).len() ==> (#[trigger] sort_by_path(classified(left, right))[k]).status == FileStatus::Unchanged,
        build_model(sort_by_path(classified(left, right))) == Seq::<NodeModel>::empty(),
{
    assert(unique_paths(right));
    lemma_both_unchanged(left, right, right.len() as int);
    assert(right.take(right.len() as int) =~= right);
    assert(left.take(left.len() as int) =~= left);
    lemma_lone_empty(left, right, left.len() as int);
    lemma_lone_empty(right, left, right.len() as int);
    let c = classified(left, right);
    assert(c =~= both_sides(left, right));
    lemma_sort_members(c);
    let out = sort_by_path(c);
    assert forall|k: int| 0 <= k < out.len() implies (#[trigger] out[k]).status == FileStatus::Unchanged by {
        let m = choose|m: int| 0 <= m < c.len() && out[k] == c[m];
    }
    lemma_no_unchanged_tree(out);
}

// ---------------------------------------------------------------------------
// Renames

proof fn lemma_first_match_free(
    del: SourceFile,
    right: Seq<SourceFile>,
    adds: Seq<int>,
    used: Set<int>,
    j: int,
)
    ensures
        first_match(del, right, adds, used, j) matches Some(x) ==> (!used.contains(x) && 0 <= x
            < adds.len() && right[adds[x]].content@ == del.content@),
    decreases adds.len() - j,
{
    if 0 <= j < adds.len() && !(!used.contains(j) && right[adds[j]].content@ == del.content@) {
        lemma_first_match_free(del, right, adds, used, j + 1);
    }
}

/// Each addition is the partner of at most one deletion.
pub proof fn law_renames_pair_once(
    left: Seq<SourceFile>,
    right: Seq<SourceFile>,
    dels: Seq<int>,
    adds: Seq<int>,
    k1: int,
    k2: int,
)
    requires
        0 <= k1 < k2 < dels.len(),
        pairing(left, right, dels, adds)[k1] is Some,
    ensures
        pairing(left, right, dels, adds)[k1] != pairing(left, right, dels, adds)[k2],
    decreases dels.len(),
{
    let prev = pairing(left, right, dels.drop_last(), adds);
    lemma_pairing_len(left, right, dels.drop_last(), adds);
    if k2 == dels.len() - 1 {
        lemma_first_match_free(left[dels.last()], right, adds, taken(prev), 0);
        let x = prev[k1];
        if pairing(left, right, dels, adds)[k2] == x {
            assert(taken(prev).contains(x->0));
        }
    } else {
        law_renames_pair_once(left, right, dels.drop_last(), adds, k1, k2);
    }
}

proof fn lemma_pairing_len(
    left: Seq<SourceFile>,
    right: Seq<SourceFile>,
    dels: Seq<int>,
    adds: Seq<int>,
)
    ensures
        pairing(left, right, dels, adds).len() == dels.len(),
    decreases dels.len(),
{
    if dels.len() > 0 {
        lemma_pairing_len(left, right, dels.drop_last(), adds);
    }
}

// ---------------------------------------------------------------------------
// The display tree

/// Neither `m` nor any node below it carries the Unchanged status.
pub open spec fn no_unchanged_node(m: NodeModel) -> bool
    decreases m,
{
    &&& m.status != Some(FileStatus::Unchanged)
    &&& forall|i: int|
        0 <= i < m.children.len() ==> no_unchanged_node(#[trigger] m.children[i])
}

pub open spec fn no_unchanged_forest(ns: Seq<NodeModel>) -> bool {
    forall|i: int| 0 <= i < ns.len() ==> no_unchanged_node(#[trigger] ns[i])
}

proof fn lemma_find_name_range(ns: Seq<NodeModel>, name: Seq<char>, k: int)
    requires
        0 <= k,
    ensures
        find_name(ns, name, k) matches Some(i) ==> k <= i < ns.len(),
    decreases ns.len() - k,
{
    if k < ns.len() && ns[k].name != name {
        lemma_find_name_range(ns, name, k + 1);
    }
}

proof fn lemma_place_range(ns: Seq<NodeModel>, n: NodeModel, k: int)
    requires
        0 <= k,
    ensures
        0 <= place(ns, n, k) <= ns.len(),
    decreases ns.len() - k,
{
    if k < ns.len() && !crate::tree::goes_before(n, ns[k]) {
        lemma_place_range(ns, n, k + 1);
    }
}

proof fn lemma_insert_clean(ns: Seq<NodeModel>, parts: Seq<Seq<char>>, prefix: Seq<char>, e: EntryModel)
    requires
        no_unchanged_forest(ns),
        e.status != FileStatus::Unchanged,
    ensures
        no_unchanged_forest(tree_insert(ns, parts, prefix, e)),
    decreases parts.len(),
{
    if parts.len() > 0 {
        let name = parts[0];
        let here = crate::tree::join_path(prefix, name);
        lemma_find_name_range(ns, name, 0);
        match find_name(ns, name, 0) {
            Some(i) => {
                if parts.len() > 1 {
                    let m = ns[i];
                    assert(no_unchanged_node(m));
                    lemma_insert_clean(m.children, parts.drop_first(), here, e);
                    let nm = NodeModel {
                        children: tree_insert(m.children, parts.drop_first(), here, e),
                        ..m
                    };
                    assert(no_unchanged_node(nm));
                    let out = ns.update(i, nm);
                    assert forall|k: int| 0 <= k < out.len() implies no_unchanged_node(#[trigger] out[k]) by {
                        if k != i {
                            assert(out[k] == ns[k]);
                        }
                    }
                }
            },
            None => {
                let node = if parts.len() == 1 {
                    leaf(name, e)
                } else {
                    dir(name, here, tree_insert(Seq::empty(), parts.drop_first(), here, e))
                };
                if parts.len() > 1 {
                    lemma_insert_clean(Seq::empty(), parts.drop_first(), here, e);
                }
                assert(no_unchanged_node(node));
                lemma_place_range(ns, node, 0);
                let q = place(ns, node, 0);
                let out = ns.insert(q, node);
                assert forall|k: int| 0 <= k < out.len() implies no_unchanged_node(#[trigger] out[k]) by {
                    if k < q {
                        assert(out[k] == ns[k]);
                    } else if k > q {
                        assert(out[k] == ns[k - 1]);
                    }
                }
            },
        }
    }
}

/// No node of a display tree, at any depth, carries the Unchanged status.
pub proof fn law_tree_has_no_unchanged(es: Seq<EntryModel>)
    ensures
        no_unchanged_forest(build_model(es)),
    decreases es.len(),
{
    if es.len() > 0 {
        law_tree_has_no_unchanged(es.drop_last());
        let e = es.last();
        if e.status != FileStatus::Unchanged {
            lemma_insert_clean(
                build_model(es.drop_last()),
                crate::ansi::split_on(crate::tree::tree_path(e), '/'),
                Seq::empty(),
                e,
            );
        }
    }
}

// ---------------------------------------------------------------------------
// Lone files

proof fn lemma_lone_range(a: Seq<SourceFile>, b: Seq<SourceFile>)
    ensures
        forall|p: int| 0 <= p < lone(a, b).len() ==> 0 <= #[trigger] lone(a, b)[p] < a.len(),
        forall|p: int, q: int| 0 <= p < q < lone(a, b).len() ==> lone(a, b)[p] < lone(a, b)[q],
        forall|p: int| 0 <= p < lone(a, b).len() ==> find_rel(b, a[#[trigger] lone(a, b)[p]].relative@) is None,
    decreases a.len(),
{
    if a.len() > 0 {
        lemma_lone_range(a.drop_last(), b);
        let prev = lone(a.drop_last(), b);
        assert forall|p: int| 0 <= p < prev.len() implies a.drop_last()[prev[p]] == a[prev[p]] by {}
    }
}

proof fn lemma_lone_has(a: Seq<SourceFile>, b: Seq<SourceFile>, j: int)
    requires
        0 <= j < a.len(),
        find_rel(b, a[j].relative@) is None,
    ensures
        exists|p: int| 0 <= p < lone(a, b).len() && lone(a, b)[p] == j,
    decreases a.len(),
{
    let prev = lone(a.drop_last(), b);
    if j == a.len() - 1 {
        assert(lone(a, b)[prev.len() as int] == j);
    } else {
        assert(a.drop_last()[j] == a[j]);
        lemma_lone_has(a.drop_last(), b, j);
        let p = choose|p: int| 0 <= p < prev.len() && prev[p] == j;
        assert(lone(a, b)[p] == j);
    }
}

proof fn lemma_pairing_content(
    left: Seq<SourceFile>,
    right: Seq<SourceFile>,
    dels: Seq<int>,
    adds: Seq<int>,
)
    ensures
        pairing(left, right, dels, adds).len() == dels.len(),
        forall|k: int| 0 <= k < dels.len() ==> (#[trigger] pairing(left, right, dels, adds)[k] matches Some(x) ==> (0 <= x < adds.len()
            && right[adds[x]].content@ == left[dels[k]].content@)),
    decreases dels.len(),
{
    if dels.len() > 0 {
        let prev = pairing(left, right, dels.drop_last(), adds);
        lemma_pairing_content(left, right, dels.drop_last(), adds);
        lemma_first_match_free(left[dels.last()], right, adds, taken(prev), 0);
        assert forall|k: int| 0 <= k < dels.len() - 1 implies dels.drop_last()[k] == dels[k] by {}
    }
}

proof fn lemma_added_has(right: Seq<SourceFile>, adds: Seq<int>, used: Set<int>, n: int, p: int)
    requires
        0 <= p < n,
        !used.contains(p),
    ensures
        exists|k: int| 0 <= k < added_entries(right, adds, used, n).len() && added_entries(right, adds, used, n)[k]
            == crate::compare::entry(right[adds[p]].relative@, right[adds[p]].relative@, FileStatus::Added, None, Some(right[adds[p]].absolute@)),
    decreases n,
{
    let prev = added_entries(right, adds, used, n - 1);
    if p == n - 1 {
        assert(added_entries(right, adds, used, n)[prev.len() as int] == crate::compare::entry(
            right[adds[p]].relative@, right[adds[p]].relative@, FileStatus::Added, None, Some(right[adds[p]].absolute@)));
    } else {
        lemma_added_has(right, adds, used, n - 1, p);
        let k = choose|k: int| 0 <= k < prev.len() && prev[k] == crate::compare::entry(
            right[adds[p]].relative@, right[adds[p]].relative@, FileStatus::Added, None, Some(right[adds[p]].absolute@));
        assert(added_entries(right, adds, used, n)[k] == prev[k]);
    }
}

proof fn lemma_deleted_has(left: Seq<SourceFile>, dels: Seq<int>, pairs: Seq<Option<int>>, n: int, q: int)
    requires
        0 <= q < n,
        pairs[q] is None,
    ensures
        exists|k: int| 0 <= k < deleted_entries(left, dels, pairs, n).len() && deleted_entries(left, dels, pairs, n)[k]
            == crate::compare::entry(left[dels[q]].relative@, left[dels[q]].relative@, FileStatus::Deleted, Some(left[dels[q]].absolute@), None),
    decreases n,
{
    let prev = deleted_entries(left, dels, pairs, n - 1);
    let want = crate::compare::entry(left[dels[q]].relative@, left[dels[q]].relative@, FileStatus::Deleted, Some(left[dels[q]].absolute@), None);
    if q == n - 1 {
        assert(deleted_entries(left, dels, pairs, n)[prev.len() as int] == want);
    } else {
        lemma_deleted_has(left, dels, pairs, n - 1, q);
        let k = choose|k: int| 0 <= k < prev.len() && prev[k] == want;
        assert(deleted_entries(left, dels, pairs, n)[k] == prev[k]);
    }
}

/// An entry present before sorting is present after it.
proof fn lemma_sorted_has(c: Seq<EntryModel>, m: int)
    requires
        0 <= m < c.len(),
    ensures
        exists|k: int| 0 <= k < sort_by_path(c).len() && sort_by_path(c)[k] == c[m],
{
    lemma_sort_members(c);
}

/// A file only on the right whose bytes no file on the left has is reported
/// as Added, with a right path and no left path.
pub proof fn law_lone_right_file_is_added(left: Seq<SourceFile>, right: Seq<SourceFile>, j: int)
    requires
        0 <= j < right.len(),
        find_rel(left, right[j].relative@) is None,
        forall|i: int| 0 <= i < left.len() ==> left[i].content@ != right[j].content@,
    ensures
        exists|k: int| 0 <= k < sort_by_path(classified(left, right)).len() && sort_by_path(classified(left, right))[k]
            == crate::compare::entry(right[j].relative@, right[j].relative@, FileStatus::Added, None, Some(right[j].absolute@)),
{
    let dels = lone(left, right);
    let adds = lone(right, left);
    let pairs = pairing(left, right, dels, adds);
    lemma_lone_has(right, left, j);
    let p = choose|p: int| 0 <= p < adds.len() && adds[p] == j;
    lemma_lone_range(left, right);
    lemma_pairing_content(left, right, dels, adds);
    if taken(pairs).contains(p) {
        let k = choose|k: int| 0 <= k < pairs.len() && pairs[k] == Some(p);
        assert(0 <= dels[k] < left.len());
    }
    lemma_added_has(right, adds, taken(pairs), adds.len() as int, p);
    let d = added_entries(right, adds, taken(pairs), adds.len() as int);
    let k = choose|k: int| 0 <= k < d.len() && d[k] == crate::compare::entry(right[j].relative@, right[j].relative@, FileStatus::Added, None, Some(right[j].absolute@));
    let c = classified(left, right);
    let off = c.len() - d.len();
    assert(c[off + k] == d[k]);
    lemma_sorted_has(c, off + k);
}

/// A file only on the left whose bytes no file on the right has is reported
/// as Deleted, with a left path and no right path.
pub proof fn law_lone_left_file_is_deleted(left: Seq<SourceFile>, right: Seq<SourceFile>, i: int)
    requires
        0 <= i < left.len(),
        find_rel(right, left[i].relative@) is None,
        forall|j: int| 0 <= j < right.len() ==> right[j].content@ != left[i].content@,
    ensures
        exists|k: int| 0 <= k < sort_by_path(classified(left, right)).len() && sort_by_path(classified(left, right))[k]
            == crate::compare::entry(left[i].relative@, left[i].relative@, FileStatus::Deleted, Some(left[i].absolute@), None),
{
    let dels = lone(left, right);
    let adds = lone(right, left);
    let pairs = pairing(left, right, dels, adds);
    lemma_lone_has(left, right, i);
    let q = choose|q: int| 0 <= q < dels.len() && dels[q] == i;
    lemma_lone_range(right, left);
    lemma_pairing_content(left, right, dels, adds);
    if pairs[q] is Some {
        assert(0 <= adds[pairs[q]->0] < right.len());
    }
    lemma_deleted_has(left, dels, pairs, dels.len() as int, q);
    let want = crate::compare::entry(left[i].relative@, left[i].relative@, FileStatus::Deleted, Some(left[i].absolute@), None);
    let d = deleted_entries(left, dels, pairs, dels.len() as int);
    let k = choose|k: int| 0 <= k < d.len() && d[k] == want;
    let c = classified(left, right);
    let a = added_entries(right, adds, taken(pairs), adds.len() as int);
    let off = c.len() - a.len() - d.len();
    assert(c[off + k] == d[k]);
    lemma_sorted_has(c, off + k);
}

proof fn lemma_pairing_prefix(
    left: Seq<SourceFile>,
    right: Seq<SourceFile>,
    dels: Seq<int>,
    adds: Seq<int>,
    n: int,
)
    requires
        0 <= n <= dels.len(),
    ensures
        pairing(left, right, dels, adds).take(n) == pairing(left, right, dels.take(n), adds),
    decreases dels.len(),
{
    lemma_pairing_len(left, right, dels, adds);
    if n == dels.len() {
        assert(dels.take(n) =~= dels);
        assert(pairing(left, right, dels, adds).take(n) =~= pairing(left, right, dels, adds));
    } else {
        lemma_pairing_prefix(left, right, dels.drop_last(), adds, n);
        lemma_pairing_len(left, right, dels.drop_last(), adds);
        assert(dels.drop_last().take(n) =~= dels.take(n));
        assert(pairing(left, right, dels, adds).take(n) =~= pairing(left, right, dels.drop_last(), adds).take(n));
    }
}

proof fn lemma_first_match_at(
    del: SourceFile,
    right: Seq<SourceFile>,
    adds: Seq<int>,
    used: Set<int>,
    m: int,
    p: int,
)
    requires
        0 <= m <= p < adds.len(),
        !used.contains(p),
        right[adds[p]].content@ == del.content@,
        forall|x: int| m <= x < p ==> used.contains(x) || right[adds[x]].content@ != del.content@,
    ensures
        first_match(del, right, adds, used, m) == Some(p),
    decreases p - m,
{
    if m < p {
        lemma_first_match_at(del, right, adds, used, m + 1, p);
    }
}

proof fn lemma_renamed_has(
    left: Seq<SourceFile>,
    right: Seq<SourceFile>,
    dels: Seq<int>,
    adds: Seq<int>,
    pairs: Seq<Option<int>>,
    n: int,
    q: int,
    p: int,
)
    requires
        0 <= q < n,
        pairs[q] == Some(p),
    ensures
        exists|k: int| 0 <= k < renamed_entries(left, right, dels, adds, pairs, n).len() && renamed_entries(left, right, dels, adds, pairs, n)[k]
            == crate::compare::entry(
            left[dels[q]].relative@ + crate::compare::arrow() + right[adds[p]].relative@,
            right[adds[p]].relative@,
            FileStatus::Renamed,
            Some(left[dels[q]].absolute@),
            Some(right[adds[p]].absolute@),
        ),
    decreases n,
{
    let prev = renamed_entries(left, right, dels, adds, pairs, n - 1);
    let want = crate::compare::entry(
        left[dels[q]].relative@ + crate::compare::arrow() + right[adds[p]].relative@,
        right[adds[p]].relative@,
        FileStatus::Renamed,
        Some(left[dels[q]].absolute@),
        Some(right[adds[p]].absolute@),
    );
    if q == n - 1 {
        assert(renamed_entries(left, right, dels, adds, pairs, n)[prev.len() as int] == want);
    } else {
        lemma_renamed_has(left, right, dels, adds, pairs, n - 1, q, p);
        let k = choose|k: int| 0 <= k < prev.len() && prev[k] == want;
        assert(renamed_entries(left, right, dels, adds, pairs, n)[k] == prev[k]);
    }
}

/// A file only on the left and a file only on the right with the same
/// bytes, where no other lone file has those bytes, are reported as one
/// Renamed entry `old → new`.
pub proof fn law_unique_content_is_renamed(
    left: Seq<SourceFile>,
    right: Seq<SourceFile>,
    i: int,
    j: int,
)
    requires
        0 <= i < left.len(),
        0 <= j < right.len(),
        find_rel(right, left[i].relative@) is None,
        find_rel(left, right[j].relative@) is None,
        left[i].content@ == right[j].content@,
        forall|i2: int|
            0 <= i2 < left.len() && i2 != i && find_rel(right, left[i2].relative@) is None
                ==> left[i2].content@ != left[i].content@,
        forall|j2: int|
            0 <= j2 < right.len() && j2 != j && find_rel(left, right[j2].relative@) is None
                ==> right[j2].content@ != right[j].content@,
    ensures
        exists|k: int| 0 <= k < sort_by_path(classified(left, right)).len() && sort_by_path(classified(left, right))[k]
            == crate::compare::entry(
            left[i].relative@ + crate::compare::arrow() + right[j].relative@,
            right[j].relative@,
            FileStatus::Renamed,
            Some(left[i].absolute@),
            Some(right[j].absolute@),
        ),
{
    let dels = lone(left, right);
    let adds = lone(right, left);
    let pairs = pairing(left, right, dels, adds);
    lemma_lone_has(left, right, i);
    lemma_lone_has(right, left, j);
    let q = choose|q: int| 0 <= q < dels.len() && dels[q] == i;
    let p = choose|p: int| 0 <= p < adds.len() && adds[p] == j;
    lemma_lone_range(left, right);
    lemma_lone_range(right, left);
    // The earlier deletions did not take `p`.
    let before = pairing(left, right, dels.take(q), adds);
    lemma_pairing_content(left, right, dels.take(q), adds);
    if taken(before).contains(p) {
        let k = choose|k: int| 0 <= k < before.len() && before[k] == Some(p);
        assert(dels.take(q)[k] == dels[k]);
        assert(dels[k] < dels[q]);
    }
    // No addition before `p` has these bytes.
    assert forall|x: int| 0 <= x < p implies taken(before).contains(x) || right[adds[x]].content@ != left[i].content@ by {
        assert(adds[x] < adds[p]);
    }
    lemma_first_match_at(left[i], right, adds, taken(before), 0, p);
    lemma_pairing_prefix(left, right, dels, adds, q + 1);
    lemma_pairing_prefix(left, right, dels.take(q + 1), adds, q);
    assert(dels.take(q + 1).take(q) =~= dels.take(q));
    assert(dels.take(q + 1).drop_last() =~= dels.take(q));
    lemma_pairing_len(left, right, dels, adds);
    assert(pairs[q] == pairing(left, right, dels, adds).take(q + 1)[q]);
    assert(pairs[q] == Some(p));
    lemma_renamed_has(left, right, dels, adds, pairs, dels.len() as int, q, p);
    let r = renamed_entries(left, right, dels, adds, pairs, dels.len() as int);
    let want = crate::compare::entry(
        left[i].relative@ + crate::compare::arrow() + right[j].relative@,
        right[j].relative@,
        FileStatus::Renamed,
        Some(left[i].absolute@),
        Some(right[j].absolute@),
    );
    let k = choose|k: int| 0 <= k < r.len() && r[k] == want;
    let c = classified(left, right);
    let off = both_sides(left, right).len();
    assert(c[off + k] == r[k]);
    lemma_sorted_has(c, off + k);
}

// ---------------------------------------------------------------------------
// Order

proof fn lemma_lex_asym(a: Seq<char>, b: Seq<char>, i: int)
    requires
        0 <= i,
    ensures
        crate::compare::lex_lt_from(a, b, i) ==> !crate::compare::lex_lt_from(b, a, i),
    decreases a.len() - i,
{
    if i < a.len() && i < b.len() && a[i] == b[i] {
        lemma_lex_asym(a, b, i + 1);
    }
}

proof fn lemma_insert_pos_first(sorted: Seq<EntryModel>, e: EntryModel, k: int)
    requires
        0 <= k,
    ensures
        k <= insert_pos(sorted, e, k) || k > sorted.len(),
        forall|m: int| k <= m < insert_pos(sorted, e, k) ==> !crate::compare::lex_lt(e.path, #[trigger] sorted[m].path),
        insert_pos(sorted, e, k) < sorted.len() ==> crate::compare::lex_lt(e.path, sorted[insert_pos(sorted, e, k)].path),
    decreases sorted.len() - k,
{
    if k < sorted.len() && !crate::compare::lex_lt(e.path, sorted[k].path) {
        lemma_insert_pos_first(sorted, e, k + 1);
    }
}

/// Each entry's path is not smaller than the path before it.
pub open spec fn path_sorted(s: Seq<EntryModel>) -> bool {
    forall|k: int| 0 <= k < s.len() - 1 ==> !crate::compare::lex_lt(#[trigger] s[k + 1].path, s[k].path)
}

/// The entries of a comparison come sorted by path.
pub proof fn law_sorted_by_path(s: Seq<EntryModel>)
    ensures
        path_sorted(sort_by_path(s)),
    decreases s.len(),
{
    if s.len() > 0 {
        law_sorted_by_path(s.drop_last());
        let p = sort_by_path(s.drop_last());
        let e = s.last();
        lemma_insert_pos_range(p, e, 0);
        lemma_insert_pos_first(p, e, 0);
        let q = insert_pos(p, e, 0);
        let out = p.insert(q, e);
        assert forall|k: int| 0 <= k < out.len() - 1 implies !crate::compare::lex_lt(#[trigger] out[k + 1].path, out[k].path) by {
            if k + 1 < q {
                assert(out[k] == p[k] && out[k + 1] == p[k + 1]);
            } else if k + 1 == q {
                assert(out[k] == p[q - 1] && out[k + 1] == e);
            } else if k == q {
                assert(out[k] == e && out[k + 1] == p[q]);
                lemma_lex_asym(e.path, p[q].path, 0);
            } else {
                assert(out[k] == p[k - 1] && out[k + 1] == p[k]);
                assert(!crate::compare::lex_lt(p[(k - 1) + 1].path, p[k - 1].path));
            }
        }
    }
}

proof fn lemma_goes_before_asym(a: NodeModel, b: NodeModel)
    ensures
        crate::tree::goes_before(a, b) ==> !crate::tree::goes_before(b, a),
{
    lemma_lex_asym(crate::tree::lower_of(a.name), crate::tree::lower_of(b.name), 0);
}

/// Every sibling list of the tree below `m`, and `m`'s own children, are in
/// order: no node goes before the sibling in front of it.
pub open spec fn ordered_node(m: NodeModel) -> bool
    decreases m,
{
    &&& siblings_ordered(m.children)
    &&& forall|i: int| 0 <= i < m.children.len() ==> ordered_node(#[trigger] m.children[i])
}

pub open spec fn siblings_ordered(ns: Seq<NodeModel>) -> bool {
    forall|k: int| 0 <= k < ns.len() - 1 ==> !crate::tree::goes_before(#[trigger] ns[k + 1], ns[k])
}

pub open spec fn ordered_forest(ns: Seq<NodeModel>) -> bool {
    &&& siblings_ordered(ns)
    &&& forall|i: int| 0 <= i < ns.len() ==> ordered_node(#[trigger] ns[i])
}

proof fn lemma_place_first(ns: Seq<NodeModel>, n: NodeModel, k: int)
    requires
        0 <= k,
    ensures
        forall|m: int| k <= m < place(ns, n, k) ==> !crate::tree::goes_before(n, #[trigger] ns[m]),
        place(ns, n, k) < ns.len() ==> crate::tree::goes_before(n, ns[place(ns, n, k)]),
    decreases ns.len() - k,
{
    if k < ns.len() && !crate::tree::goes_before(n, ns[k]) {
        lemma_place_first(ns, n, k + 1);
    }
}

proof fn lemma_insert_ordered(ns: Seq<NodeModel>, parts: Seq<Seq<char>>, prefix: Seq<char>, e: EntryModel)
    requires
        ordered_forest(ns),
    ensures
        ordered_forest(tree_insert(ns, parts, prefix, e)),
    decreases parts.len(),
{
    if parts.len() > 0 {
        let name = parts[0];
        let here = crate::tree::join_path(prefix, name);
        lemma_find_name_range(ns, name, 0);
        match find_name(ns, name, 0) {
            Some(i) => {
                if parts.len() > 1 {
                    let m = ns[i];
                    assert(ordered_node(m));
                    lemma_insert_ordered(m.children, parts.drop_first(), here, e);
                    let nm = NodeModel {
                        children: tree_insert(m.children, parts.drop_first(), here, e),
                        ..m
                    };
                    assert(ordered_node(nm));
                    let out = ns.update(i, nm);
                    assert forall|k: int| 0 <= k < out.len() implies ordered_node(#[trigger] out[k]) by {
                        if k != i {
                            assert(out[k] == ns[k]);
                        }
                    }
                    assert forall|k: int| 0 <= k < out.len() - 1 implies !crate::tree::goes_before(#[trigger] out[k + 1], out[k]) by {
                        assert(!crate::tree::goes_before(ns[k + 1], ns[k]));
                    }
                }
            },
            None => {
                let node = if parts.len() == 1 {
                    leaf(name, e)
                } else {
                    dir(name, here, tree_insert(Seq::empty(), parts.drop_first(), here, e))
                };
                if parts.len() > 1 {
                    lemma_insert_ordered(Seq::empty(), parts.drop_first(), here, e);
                }
                assert(ordered_node(node));
                lemma_place_range(ns, node, 0);
                lemma_place_first(ns, node, 0);
                let q = place(ns, node, 0);
                let out = ns.insert(q, node);
                assert forall|k: int| 0 <= k < out.len() implies ordered_node(#[trigger] out[k]) by {
                    if k < q {
                        assert(out[k] == ns[k]);
                    } else if k > q {
                        assert(out[k] == ns[k - 1]);
                    }
                }
                assert forall|k: int| 0 <= k < out.len() - 1 implies !crate::tree::goes_before(#[trigger] out[k + 1], out[k]) by {
                    if k + 1 < q {
                        assert(out[k] == ns[k] && out[k + 1] == ns[k + 1]);
                    } else if k + 1 == q {
                        assert(out[k] == ns[q - 1] && out[k + 1] == node);
                    } else if k == q {
                        assert(out[k] == node && out[k + 1] == ns[q]);
                        lemma_goes_before_asym(node, ns[q]);
                    } else {
                        assert(out[k] == ns[k - 1] && out[k + 1] == ns[k]);
                        assert(!crate::tree::goes_before(ns[(k - 1) + 1], ns[k - 1]));
                    }
                }
            },
        }
    }
}

/// In a display tree every list of siblings is ordered: directories before
/// files, then by lower-cased name.
pub proof fn law_tree_siblings_ordered(es: Seq<EntryModel>)
    ensures
        ordered_forest(build_model(es)),
    decreases es.len(),
{
    if es.len() > 0 {
        law_tree_siblings_ordered(es.drop_last());
        let e = es.last();
        if e.status != FileStatus::Unchanged {
            lemma_insert_ordered(
                build_model(es.drop_last()),
                crate::ansi::split_on(crate::tree::tree_path(e), '/'),
                Seq::empty(),
                e,
            );
        }
    }
}

} // verus!
