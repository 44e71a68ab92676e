use vstd::prelude::*;
use crate::text::{chars_of, string_of};
use crate::ansi::{split_on, split_chars, views};
use crate::compare::{FileStatus, FileEntry, EntryModel, opt_view, entry_views, lex_lt, lex_less, arrow};

verus! {

/// One node of the display tree: a directory or a changed file.
#[derive(Debug)]
pub struct FileTreeNode {
    pub name: String,
    pub path: String,
    pub status: Option<FileStatus>,
    pub is_dir: bool,
    pub children: Vec<FileTreeNode>,
    pub left_path: Option<String>,
    pub right_path: Option<String>,
}

/// A node of the display tree as plain values.
pub struct NodeModel {
    pub name: Seq<char>,
    pub path: Seq<char>,
    pub status: Option<FileStatus>,
    pub is_dir: bool,
    pub children: Seq<NodeModel>,
    pub left_path: Option<Seq<char>>,
    pub right_path: Option<Seq<char>>,
}

/// `n` holds exactly the tree `m`.
pub open spec fn node_is(n: FileTreeNode, m: NodeModel) -> bool
    decreases m,
{
    &&& n.name@ == m.name
    &&& n.path@ == m.path
    &&& n.status == m.status
    &&& n.is_dir == m.is_dir
    &&& opt_view(n.left_path) == m.left_path
    &&& opt_view(n.right_path) == m.right_path
    &&& n.children@.len() == m.children.len()
    &&& forall|i: int|
        0 <= i < m.children.len() ==> node_is(#[trigger] n.children@[i], m.children[i])
}

/// `ns` holds exactly the trees `ms`, in order.
pub open spec fn forest_is(ns: Seq<FileTreeNode>, ms: Seq<NodeModel>) -> bool {
    &&& ns.len() == ms.len()
    &&& forall|i: int| 0 <= i < ms.len() ==> node_is(#[trigger] ns[i], ms[i])
}

/// What `str::to_lowercase` makes of a name.
pub uninterp spec fn lower_of(s: Seq<char>) -> Seq<char>;

/// Relies on `str::to_lowercase`: the lower-case form of a string depends on
/// its characters alone.
#[verifier::external_body]
fn lowercase(s: &str) -> (r: String)
    ensures
        r@ == lower_of(s@),
{
    s.to_lowercase()
}

/// Sibling order: directories before files, then by lower-cased name.
pub open spec fn goes_before(a: NodeModel, b: NodeModel) -> bool {
    (a.is_dir && !b.is_dir) || (a.is_dir == b.is_dir && lex_lt(lower_of(a.name), lower_of(b.name)))
}

/// Where a new sibling `n` goes: before the first sibling it goes before,
/// so that it follows every sibling it ties with.
pub open spec fn place(ns: Seq<NodeModel>, n: NodeModel, k: int) -> int
    decreases ns.len() - k,
{
    if k < 0 || k >= ns.len() {
        ns.len() as int
    } else if goes_before(n, ns[k]) {
        k
    } else {
        place(ns, n, k + 1)
    }
}

/// The first sibling named `name`.
pub open spec fn find_name(ns: Seq<NodeModel>, name: Seq<char>, k: int) -> Option<int>
    decreases ns.len() - k,
{
    if k < 0 || k >= ns.len() {
        None
    } else if ns[k].name == name {
        Some(k)
    } else {
        find_name(ns, name, k + 1)
    }
}

pub open spec fn join_path(prefix: Seq<char>, name: Seq<char>) -> Seq<char> {
    if prefix.len() == 0 { name } else { prefix + seq!['/'] + name }
}

pub open spec fn leaf(name: Seq<char>, e: EntryModel) -> NodeModel {
    NodeModel {
        name,
        path: e.path,
        status: Some(e.status),
        is_dir: false,
        children: Seq::empty(),
        left_path: e.left_path,
        right_path: e.right_path,
    }
}

pub open spec fn dir(name: Seq<char>, path: Seq<char>, children: Seq<NodeModel>) -> NodeModel {
    NodeModel {
        name,
        path,
        status: None,
        is_dir: true,
        children,
        left_path: None,
        right_path: None,
    }
}

/// Inserts the entry `e` at the segments `parts` below the directory whose
/// tree path is `prefix`, creating directories on the way; a new node takes
/// its sorted place among its siblings.
pub open spec fn tree_insert(
    ns: Seq<NodeModel>,
    parts: Seq<Seq<char>>,
    prefix: Seq<char>,
    e: EntryModel,
) -> Seq<NodeModel>
    decreases parts.len(),
{
    if parts.len() == 0 {
        ns
    } else {
        let name = parts[0];
        let here = join_path(prefix, name);
        match find_name(ns, name, 0) {
            Some(i) => if parts.len() == 1 {
                ns
            } else {
                let m = ns[i];
                ns.update(
                    i,
                    NodeModel {
                        children: tree_insert(m.children, parts.drop_first(), here, e),
                        ..m
                    },
                )
            },
            None => {
                let node = if parts.len() == 1 {
                    leaf(name, e)
                } else {
                    dir(name, here, tree_insert(Seq::empty(), parts.drop_first(), here, e))
                };
                ns.insert(place(ns, node, 0), node)
            },
        }
    }
}

/// The first position of ` → ` in `s` at or after `k`.
pub open spec fn find_arrow(s: Seq<char>, k: int) -> Option<int>
    decreases s.len() - k,
{
    if k < 0 || k + 3 > s.len() {
        None
    } else if s.subrange(k, k + 3) == arrow() {
        Some(k)
    } else {
        find_arrow(s, k + 1)
    }
}

/// Where an entry is placed: a rename at its new path.
pub open spec fn tree_path(e: EntryModel) -> Seq<char> {
    if e.status == FileStatus::Renamed {
        match find_arrow(e.path, 0) {
            Some(k) => e.path.skip(k + 3),
            None => e.path,
        }
    } else {
        e.path
    }
}

/// The display tree of `es`: every entry but the Unchanged ones, inserted
/// in order.
pub open spec fn build_model(es: Seq<EntryModel>) -> Seq<NodeModel>
    decreases es.len(),
{
    if es.len() == 0 {
        Seq::empty()
    } else {
        let prev = build_model(es.drop_last());
        let e = es.last();
        if e.status == FileStatus::Unchanged {
            prev
        } else {
            tree_insert(prev, split_on(tree_path(e), '/'), Seq::empty(), e)
        }
    }
}

fn clone_opt(o: &Option<String>) -> (r: Option<String>)
    ensures
        opt_view(r) == opt_view(*o),
{
    match o {
        Some(s) => Some(s.clone()),
        None => None,
    }
}

fn same_chars(a: &Vec<char>, b: &Vec<char>) -> (r: bool)
    ensures
        r == (a@ == b@),
{
    if a.len() != b.len() {
        return false;
    }
    let mut i: usize = 0;
    while i < a.len()
        invariant
            a.len() == b.len(),
            0 <= i <= a.len(),
            a@.take(i as int) == b@.take(i as int),
        decreases a.len() - i,
    {
        if a[i] != b[i] {
            assert(a@[i as int] != b@[i as int]);
            return false;
        }
        i += 1;
        assert(a@.take(i as int) =~= b@.take(i as int));
    }
    assert(a@ =~= a@.take(i as int));
    assert(b@ =~= b@.take(i as int));
    true
}

fn join_chars(prefix: &Vec<char>, name: &Vec<char>) -> (r: Vec<char>)
    ensures
        r@ == join_path(prefix@, name@),
{
    if prefix.len() == 0 {
        crate::text::slice_of(name, 0, name.len())
    } else {
        let mut r = crate::text::slice_of(prefix, 0, prefix.len());
        r.push('/');
        crate::text::push_all(&mut r, name);
        r
    }
}

/// Whether the node `a` goes before the node `b` among siblings.
fn node_before(a: &FileTreeNode, b: &FileTreeNode, Ghost(ma): Ghost<NodeModel>, Ghost(mb): Ghost<NodeModel>) -> (r: bool)
    requires
        node_is(*a, ma),
        node_is(*b, mb),
    ensures
        r == goes_before(ma, mb),
{
    if a.is_dir && !b.is_dir {
        return true;
    }
    if a.is_dir != b.is_dir {
        return false;
    }
    let la = chars_of(lowercase(a.name.as_str()).as_str());
    let lb = chars_of(lowercase(b.name.as_str()).as_str());
    lex_less(&la, &lb)
}

/// Inserts `entry` at the segments `parts[i..]` below the directory whose
/// tree path is `prefix`.
fn insert_into_tree(
    nodes: &mut Vec<FileTreeNode>,
    Ghost(ms): Ghost<Seq<NodeModel>>,
    parts: &Vec<Vec<char>>,
    i: usize,
    prefix: &Vec<char>,
    entry: &FileEntry,
)
    requires
        forest_is(old(nodes)@, ms),
        i <= parts.len(),
    ensures
        forest_is(final(nodes)@, tree_insert(ms, views(parts@).skip(i as int), prefix@, entry@)),
    decreases parts.len() - i,
{
    let ghost rest = views(parts@).skip(i as int);
    if i == parts.len() {
        assert(rest.len() == 0);
        return;
    }
    assert(rest[0] == parts[i as int]@);
    assert(rest.drop_first() =~= views(parts@).skip(i + 1));
    let name = &parts[i];
    let here = join_chars(prefix, name);
    let is_leaf = i + 1 == parts.len();
    // Look for a sibling of that name.
    let mut j: usize = 0;
    let mut found = false;
    while j < nodes.len() && !found
        invariant
            forest_is(nodes@, ms),
            0 <= j <= nodes.len(),
            !found ==> find_name(ms, name@, j as int) == find_name(ms, name@, 0),
            found ==> j < nodes.len() && find_name(ms, name@, 0) == Some(j as int),
        decreases nodes.len() - j + (if found { 0int } else { 1int }),
    {
        assert(node_is(nodes@[j as int], ms[j as int]));
        let cs = chars_of(nodes[j].name.as_str());
        if same_chars(&cs, name) {
            found = true;
        } else {
            j += 1;
        }
    }
    if found {
        if is_leaf {
            return;
        }
        let ghost m = ms[j as int];
        let ghost old_nodes = nodes@;
        let mut node = nodes.remove(j);
        assert(node_is(node, m));
        insert_into_tree(&mut node.children, Ghost(m.children), parts, i + 1, &here, entry);
        let ghost nm = NodeModel {
            children: tree_insert(m.children, views(parts@).skip(i + 1), here@, entry@),
            ..m
        };
        assert(node_is(node, nm));
        nodes.insert(j, node);
        let ghost want = ms.update(j as int, nm);
        assert forall|k: int| 0 <= k < want.len() implies node_is(#[trigger] nodes@[k], want[k]) by {
            if k != j {
                assert(nodes@[k] == old_nodes[k]);
            }
        }
        assert(forest_is(nodes@, want));
        return;
    }
    // A new node.
    let ghost node_model = if is_leaf {
        leaf(name@, entry@)
    } else {
        dir(name@, here@, tree_insert(Seq::empty(), views(parts@).skip(i + 1), here@, entry@))
    };
    let node = if is_leaf {
        FileTreeNode {
            name: string_of(name.as_slice()),
            path: entry.path.clone(),
            status: Some(entry.status),
            is_dir: false,
            children: Vec::new(),
            left_path: clone_opt(&entry.left_path),
            right_path: clone_opt(&entry.right_path),
        }
    } else {
        let mut children: Vec<FileTreeNode> = Vec::new();
        insert_into_tree(&mut children, Ghost(Seq::empty()), parts, i + 1, &here, entry);
        FileTreeNode {
            name: string_of(name.as_slice()),
            path: string_of(here.as_slice()),
            status: None,
            is_dir: true,
            children,
            left_path: None,
            right_path: None,
        }
    };
    assert(node_is(node, node_model));
    let mut k: usize = 0;
    while k < nodes.len() && !node_before(&node, &nodes[k], Ghost(node_model), Ghost(ms[k as int]))
        invariant
            forest_is(nodes@, ms),
            node_is(node, node_model),
            0 <= k <= nodes.len(),
            place(ms, node_model, k as int) == place(ms, node_model, 0),
        decreases nodes.len() - k,
    {
        k += 1;
    }
    let ghost old_nodes = nodes@;
    nodes.insert(k, node);
    let ghost want = ms.insert(k as int, node_model);
    assert forall|m: int| 0 <= m < want.len() implies node_is(#[trigger] nodes@[m], want[m]) by {
        if m < k {
            assert(nodes@[m] == old_nodes[m]);
        } else if m > k {
            assert(nodes@[m] == old_nodes[m - 1]);
        }
    }
    assert(forest_is(nodes@, want));
}

fn arrow_at(s: &Vec<char>, k: usize) -> (r: bool)
    requires
        k + 3 <= s.len(),
    ensures
        r == (s@.subrange(k as int, k + 3) == arrow()),
{
    let a = chars_of(" \u{2192} ");
    let piece = crate::text::slice_of(s, k, k + 3);
    same_chars(&piece, &a)
}

/// The path at which an entry is placed in the tree.
fn placement_path(e: &FileEntry) -> (r: Vec<char>)
    ensures
        r@ == tree_path(e@),
{
    let p = chars_of(e.path.as_str());
    if e.status != FileStatus::Renamed {
        return p;
    }
    let mut k: usize = 0;
    while p.len() >= 3 && k <= p.len() - 3
        invariant
            p@ == e@.path,
            e@.status == FileStatus::Renamed,
            find_arrow(p@, k as int) == find_arrow(p@, 0),
        decreases p.len() - k,
    {
        if arrow_at(&p, k) {
            let r = crate::text::slice_of(&p, k + 3, p.len());
            assert(r@ =~= p@.skip(k + 3));
            return r;
        }
        k += 1;
    }
    assert(find_arrow(p@, k as int) is None);
    p
}

/// Folds entries into the display tree: Unchanged entries are left out, a
/// rename stands at its new path, directories are made on demand, and
/// siblings are ordered directories first, then by lower-cased name, ties
/// in the order of `entries`.
pub fn build_file_tree(entries: &[FileEntry]) -> (r: Vec<FileTreeNode>)
    ensures
        forest_is(r@, build_model(entry_views(entries@))),
{
    let ghost es = entry_views(entries@);
    let mut roots: Vec<FileTreeNode> = Vec::new();
    let mut i: usize = 0;
    while i < entries.len()
        invariant
            0 <= i <= entries.len(),
            es == entry_views(entries@),
            forest_is(roots@, build_model(es.take(i as int))),
        decreases entries.len() - i,
    {
        assert(es.take(i as int + 1).drop_last() =~= es.take(i as int));
        assert(es.take(i as int + 1).last() == entries[i as int]@);
        let e = &entries[i];
        if e.status != FileStatus::Unchanged {
            let path = placement_path(e);
            let parts = split_chars(&path, '/');
            let empty: Vec<char> = Vec::new();
            insert_into_tree(&mut roots, Ghost(build_model(es.take(i as int))), &parts, 0, &empty, e);
            assert(views(parts@).skip(0) =~= views(parts@));
            assert(empty@ =~= Seq::<char>::empty());
        }
        i += 1;
    }
    assert(es.take(entries.len() as int) =~= es);
    roots
}

} // verus!
