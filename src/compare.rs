use vstd::prelude::*;
use vstd::string::StringExecFns;
use crate::text::{chars_of, string_of, push_str, push_all, slice_of};
use crate::layout::{last_index_of, rfind, lemma_last_index_bound};

verus! {

/// How a file differs between the two trees.
#[derive(Debug, Clone, Copy, PartialEq, Eq, Structural)]
pub enum FileStatus {
    Added,
    Deleted,
    Modified,
    Renamed,
    Unchanged,
}

/// Why comparing two trees failed.
#[derive(Debug)]
pub enum DiffError {
    Io(String),
    Walk(String),
    Path(String),
}

impl DiffError {
    /// The message shown for this error.
    pub fn message(&self) -> (r: String)
        ensures
            r@ == (match self {
                DiffError::Io(m) => "IO error: "@ + m@,
                DiffError::Walk(m) => "Walk error: "@ + m@,
                DiffError::Path(m) => "Path error: "@ + m@,
            }),
    {
        match self {
            DiffError::Io(m) => String::from_str("IO error: ").concat(m.as_str()),
            DiffError::Walk(m) => String::from_str("Walk error: ").concat(m.as_str()),
            DiffError::Path(m) => String::from_str("Path error: ").concat(m.as_str()),
        }
    }
}

/// A regular file found under one of the two roots: its path relative to
/// the root (segments joined by `/`), its full path, and its bytes.
pub struct SourceFile {
    pub relative: String,
    pub absolute: String,
    pub content: Vec<u8>,
}

/// One compared file.
#[derive(Debug, Clone)]
pub struct FileEntry {
    pub path: String,
    pub name: String,
    pub status: FileStatus,
    pub is_dir: bool,
    pub left_path: Option<String>,
    pub right_path: Option<String>,
}

/// A compared file as plain values.
pub struct EntryModel {
    pub path: Seq<char>,
    pub name: Seq<char>,
    pub status: FileStatus,
    pub is_dir: bool,
    pub left_path: Option<Seq<char>>,
    pub right_path: Option<Seq<char>>,
}

pub open spec fn opt_view(o: Option<String>) -> Option<Seq<char>> {
    match o {
        Some(s) => Some(s@),
        None => None,
    }
}

impl View for FileEntry {
    type V = EntryModel;

    open spec fn view(&self) -> EntryModel {
        EntryModel {
            path: self.path@,
            name: self.name@,
            status: self.status,
            is_dir: self.is_dir,
            left_path: opt_view(self.left_path),
            right_path: opt_view(self.right_path),
        }
    }
}

pub open spec fn entry_views(v: Seq<FileEntry>) -> Seq<EntryModel> {
    v.map_values(|e: FileEntry| e@)
}

/// The last segment of a `/`-separated relative path.
pub open spec fn file_name(rel: Seq<char>) -> Seq<char> {
    match last_index_of(rel, '/') {
        Some(k) => rel.skip(k + 1),
        None => rel,
    }
}

pub open spec fn entry(
    path: Seq<char>,
    name_from: Seq<char>,
    status: FileStatus,
    left: Option<Seq<char>>,
    right: Option<Seq<char>>,
) -> EntryModel {
    EntryModel {
        path,
        name: file_name(name_from),
        status,
        is_dir: false,
        left_path: left,
        right_path: right,
    }
}

/// The position of the file of `files` with relative path `rel` (the last
/// one, should there be several).
pub open spec fn find_rel(files: Seq<SourceFile>, rel: Seq<char>) -> Option<int>
    decreases files.len(),
{
    if files.len() == 0 {
        None
    } else if files.last().relative@ == rel {
        Some(files.len() - 1)
    } else {
        find_rel(files.drop_last(), rel)
    }
}

/// The entries of the files of `right` that `left` has too: Unchanged when
/// the bytes are equal, else Modified; in the order of `right`.
pub open spec fn both_sides(left: Seq<SourceFile>, right: Seq<SourceFile>) -> Seq<EntryModel>
    decreases right.len(),
{
    if right.len() == 0 {
        Seq::empty()
    } else {
        let prev = both_sides(left, right.drop_last());
        let r = right.last();
        match find_rel(left, r.relative@) {
            Some(i) => prev.push(
                entry(
                    r.relative@,
                    r.relative@,
                    if left[i].content@ == r.content@ {
                        FileStatus::Unchanged
                    } else {
                        FileStatus::Modified
                    },
                    Some(left[i].absolute@),
                    Some(r.absolute@),
                ),
            ),
            None => prev,
        }
    }
}

/// The positions of the files of `a` whose relative path `b` lacks, in order.
pub open spec fn lone(a: Seq<SourceFile>, b: Seq<SourceFile>) -> Seq<int>
    decreases a.len(),
{
    if a.len() == 0 {
        Seq::empty()
    } else {
        let prev = lone(a.drop_last(), b);
        if find_rel(b, a.last().relative@) is None {
            prev.push(a.len() - 1)
        } else {
            prev
        }
    }
}

/// The additions already paired with a deletion.
pub open spec fn taken(pairs: Seq<Option<int>>) -> Set<int> {
    Set::new(|j: int| exists|k: int| 0 <= k < pairs.len() && pairs[k] == Some(j))
}

/// The first addition at or after `adds[j]`, not in `used`, whose bytes
/// equal those of `del`; as a position in `adds`.
pub open spec fn first_match(
    del: SourceFile,
    right: Seq<SourceFile>,
    adds: Seq<int>,
    used: Set<int>,
    j: int,
) -> Option<int>
    decreases adds.len() - j,
{
    if j < 0 || j >= adds.len() {
        None
    } else if !used.contains(j) && right[adds[j]].content@ == del.content@ {
        Some(j)
    } else {
        first_match(del, right, adds, used, j + 1)
    }
}

/// For each deletion in turn, the addition it is renamed to, if any: the
/// first one with equal bytes that no earlier deletion took.
pub open spec fn pairing(
    left: Seq<SourceFile>,
    right: Seq<SourceFile>,
    dels: Seq<int>,
    adds: Seq<int>,
) -> Seq<Option<int>>
    decreases dels.len(),
{
    if dels.len() == 0 {
        Seq::empty()
    } else {
        let prev = pairing(left, right, dels.drop_last(), adds);
        prev.push(first_match(left[dels.last()], right, adds, taken(prev), 0))
    }
}

pub open spec fn arrow() -> Seq<char> {
    " \u{2192} "@
}

/// The Renamed entries of the deletions `dels[..n]` that found a partner.
pub open spec fn renamed_entries(
    left: Seq<SourceFile>,
    right: Seq<SourceFile>,
    dels: Seq<int>,
    adds: Seq<int>,
    pairs: Seq<Option<int>>,
    n: int,
) -> Seq<EntryModel>
    decreases n,
{
    if n <= 0 {
        Seq::empty()
    } else {
        let prev = renamed_entries(left, right, dels, adds, pairs, n - 1);
        let d = left[dels[n - 1]];
        match pairs[n - 1] {
            Some(j) => prev.push(
                entry(
                    d.relative@ + arrow() + right[adds[j]].relative@,
                    right[adds[j]].relative@,
                    FileStatus::Renamed,
                    Some(d.absolute@),
                    Some(right[adds[j]].absolute@),
                ),
            ),
            None => prev,
        }
    }
}

/// The Deleted entries of the deletions `dels[..n]` left without a partner.
pub open spec fn deleted_entries(
    left: Seq<SourceFile>,
    dels: Seq<int>,
    pairs: Seq<Option<int>>,
    n: int,
) -> Seq<EntryModel>
    decreases n,
{
    if n <= 0 {
        Seq::empty()
    } else {
        let prev = deleted_entries(left, dels, pairs, n - 1);
        let d = left[dels[n - 1]];
        match pairs[n - 1] {
            Some(_) => prev,
            None => prev.push(
                entry(d.relative@, d.relative@, FileStatus::Deleted, Some(d.absolute@), None),
            ),
        }
    }
}

/// The Added entries of the additions `adds[..n]` that no deletion took.
pub open spec fn added_entries(
    right: Seq<SourceFile>,
    adds: Seq<int>,
    used: Set<int>,
    n: int,
) -> Seq<EntryModel>
    decreases n,
{
    if n <= 0 {
        Seq::empty()
    } else {
        let prev = added_entries(right, adds, used, n - 1);
        let a = right[adds[n - 1]];
        if used.contains(n - 1) {
            prev
        } else {
            prev.push(
                entry(a.relative@, a.relative@, FileStatus::Added, None, Some(a.absolute@)),
            )
        }
    }
}

/// Every entry of a comparison before ordering: files on both sides, then
/// renames, then the remaining deletions, then the remaining additions.
pub open spec fn classified(left: Seq<SourceFile>, right: Seq<SourceFile>) -> Seq<EntryModel> {
    let dels = lone(left, right);
    let adds = lone(right, left);
    let pairs = pairing(left, right, dels, adds);
    both_sides(left, right) + renamed_entries(left, right, dels, adds, pairs, dels.len() as int)
        + deleted_entries(left, dels, pairs, dels.len() as int) + added_entries(
        right,
        adds,
        taken(pairs),
        adds.len() as int,
    )
}

/// `a` comes before `b` in string order, from position `i` on.
pub open spec fn lex_lt_from(a: Seq<char>, b: Seq<char>, i: int) -> bool
    decreases a.len() - i,
{
    if i < 0 || i >= a.len() {
        0 <= i < b.len()
    } else if i >= b.len() {
        false
    } else if a[i] != b[i] {
        a[i] < b[i]
    } else {
        lex_lt_from(a, b, i + 1)
    }
}

/// String order: by characters, a proper prefix first.
pub open spec fn lex_lt(a: Seq<char>, b: Seq<char>) -> bool {
    lex_lt_from(a, b, 0)
}

pub fn lex_less(a: &Vec<char>, b: &Vec<char>) -> (r: bool)
    ensures
        r == lex_lt(a@, b@),
{
    let mut i: usize = 0;
    while i < a.len() && i < b.len() && a[i] == b[i]
        invariant
            0 <= i <= a.len(),
            i <= b.len(),
            lex_lt_from(a@, b@, i as int) == lex_lt(a@, b@),
        decreases a.len() - i,
    {
        i += 1;
    }
    if i >= a.len() {
        i < b.len()
    } else if i >= b.len() {
        false
    } else {
        a[i] < b[i]
    }
}

/// Where `e` goes in `sorted`: before the first entry whose path it
/// precedes, that is, after every entry whose path is equal or smaller.
pub open spec fn insert_pos(sorted: Seq<EntryModel>, e: EntryModel, k: int) -> int
    decreases sorted.len() - k,
{
    if k < 0 || k >= sorted.len() {
        sorted.len() as int
    } else if lex_lt(e.path, sorted[k].path) {
        k
    } else {
        insert_pos(sorted, e, k + 1)
    }
}

/// `s` sorted by path, entries with equal paths kept in their order.
pub open spec fn sort_by_path(s: Seq<EntryModel>) -> Seq<EntryModel>
    decreases s.len(),
{
    if s.len() == 0 {
        Seq::empty()
    } else {
        let p = sort_by_path(s.drop_last());
        p.insert(insert_pos(p, s.last(), 0), s.last())
    }
}

proof fn lemma_renamed_prefix(
    left: Seq<SourceFile>,
    right: Seq<SourceFile>,
    dels: Seq<int>,
    adds: Seq<int>,
    pairs_a: Seq<Option<int>>,
    pairs_b: Seq<Option<int>>,
    n: int,
)
    requires
        0 <= n <= pairs_a.len(),
        n <= pairs_b.len(),
        forall|k: int| 0 <= k < n ==> pairs_a[k] == pairs_b[k],
    ensures
        renamed_entries(left, right, dels, adds, pairs_a, n) == renamed_entries(left, right, dels, adds, pairs_b, n),
    decreases n,
{
    if n > 0 {
        lemma_renamed_prefix(left, right, dels, adds, pairs_a, pairs_b, n - 1);
    }
}

spec fn same_pair(p: Option<usize>, g: Option<int>, n: nat) -> bool {
    match p {
        Some(x) => g == Some(x as int) && x < n,
        None => g is None,
    }
}

fn same_bytes(a: &Vec<u8>, b: &Vec<u8>) -> (r: bool)
    ensures
        r == (a@ == b@),
{
    if a.len() != b.len() {
        return false;
    }
    let mut i: usize = 0;
    while i < a.len()
        invariant
            a.len() == b.len(),
            0 <= i <= a.len(),
            a@.take(i as int) == b@.take(i as int),
        decreases a.len() - i,
    {
        if a[i] != b[i] {
            assert(a@[i as int] != b@[i as int]);
            return false;
        }
        i += 1;
        assert(a@.take(i as int) =~= b@.take(i as int));
    }
    assert(a@ =~= a@.take(i as int));
    assert(b@ =~= b@.take(i as int));
    true
}

proof fn lemma_find_rel_bound(files: Seq<SourceFile>, rel: Seq<char>)
    ensures
        find_rel(files, rel) matches Some(k) ==> 0 <= k < files.len() && files[k].relative@ == rel,
    decreases files.len(),
{
    if files.len() > 0 && files.last().relative@ != rel {
        lemma_find_rel_bound(files.drop_last(), rel);
    }
}

fn find_index(files: &Vec<SourceFile>, rel: &String) -> (r: Option<usize>)
    ensures
        r matches Some(k) ==> find_rel(files@, rel@) == Some(k as int),
        r is None ==> find_rel(files@, rel@) is None,
        r == (match find_rel(files@, rel@) { Some(k) => Some(k as usize), None => None::<usize> }),
        r matches Some(k) ==> k < files.len(),
{
    proof {
        lemma_find_rel_bound(files@, rel@);
    }
    let mut k: usize = files.len();
    assert(files@.take(k as int) =~= files@);
    while k > 0
        invariant
            k <= files.len(),
            find_rel(files@.take(k as int), rel@) == find_rel(files@, rel@),
        decreases k,
    {
        assert(files@.take(k as int).drop_last() =~= files@.take(k - 1));
        if files[k - 1].relative == *rel {
            return Some(k - 1);
        }
        k -= 1;
    }
    None
}

fn name_of(rel: &Vec<char>) -> (r: String)
    ensures
        r@ == file_name(rel@),
{
    proof {
        lemma_last_index_bound(rel@, '/');
    }
    match rfind(rel, '/') {
        Some(k) => {
            let tail = slice_of(rel, k + 1, rel.len());
            assert(tail@ =~= rel@.skip(k + 1));
            string_of(tail.as_slice())
        },
        None => string_of(rel.as_slice()),
    }
}

fn opt_clone(s: &String) -> (r: Option<String>)
    ensures
        opt_view(r) == Some(s@),
{
    Some(s.clone())
}

fn make_entry(
    path: String,
    name_from: &String,
    status: FileStatus,
    left: Option<String>,
    right: Option<String>,
) -> (r: FileEntry)
    ensures
        r@ == entry(path@, name_from@, status, opt_view(left), opt_view(right)),
{
    let rel = chars_of(name_from.as_str());
    FileEntry { path, name: name_of(&rel), status, is_dir: false, left_path: left, right_path: right }
}

fn lone_files(a: &Vec<SourceFile>, b: &Vec<SourceFile>) -> (r: Vec<usize>)
    ensures
        r@.map_values(|k: usize| k as int) == lone(a@, b@),
        forall|k: int| 0 <= k < r.len() ==> r[k] < a.len(),
{
    let mut r: Vec<usize> = Vec::new();
    let mut i: usize = 0;
    while i < a.len()
        invariant
            0 <= i <= a.len(),
            r@.map_values(|k: usize| k as int) == lone(a@.take(i as int), b@),
            forall|k: int| 0 <= k < r.len() ==> r[k] < i,
        decreases a.len() - i,
    {
        assert(a@.take(i as int + 1).drop_last() =~= a@.take(i as int));
        if find_index(b, &a[i].relative).is_none() {
            r.push(i);
        }
        i += 1;
        assert(r@.map_values(|k: usize| k as int) =~= lone(a@.take(i as int), b@));
    }
    assert(a@.take(a.len() as int) =~= a@);
    r
}

/// Compares two trees, given as the regular files under each root, and
/// classifies every file. Files with the same relative path are Modified or
/// Unchanged by their bytes. Each file only on the left is renamed to the
/// first file only on the right with the same bytes that no earlier one
/// took, deletions taken in the order of `left` and additions in the order
/// of `right`; the rest are Deleted and Added. The entries come sorted by
/// path.
pub fn compare_directories(left: &Vec<SourceFile>, right: &Vec<SourceFile>) -> (r: Vec<FileEntry>)
    ensures
        entry_views(r@) == sort_by_path(classified(left@, right@)),
{
    let mut entries: Vec<FileEntry> = Vec::new();
    // Files on both sides.
    let mut i: usize = 0;
    while i < right.len()
        invariant
            0 <= i <= right.len(),
            entry_views(entries@) == both_sides(left@, right@.take(i as int)),
        decreases right.len() - i,
    {
        assert(right@.take(i as int + 1).drop_last() =~= right@.take(i as int));
        assert(right@.take(i as int + 1).last() == right@[i as int]);
        let r = &right[i];
        let ghost before = entry_views(entries@);
        match find_index(left, &r.relative) {
            Some(k) => {
                let l = &left[k];
                let status = if same_bytes(&l.content, &r.content) {
                    FileStatus::Unchanged
                } else {
                    FileStatus::Modified
                };
                let e = make_entry(
                    r.relative.clone(),
                    &r.relative,
                    status,
                    opt_clone(&l.absolute),
                    opt_clone(&r.absolute),
                );
                entries.push(e);
                assert(entry_views(entries@) =~= before.push(e@));
            },
            None => {},
        }
        i += 1;
    }
    assert(right@.take(right.len() as int) =~= right@);
    let ghost first = entry_views(entries@);

    // Renames.
    let dels = lone_files(left, right);
    let adds = lone_files(right, left);
    let ghost gdels = dels@.map_values(|k: usize| k as int);
    let ghost gadds = adds@.map_values(|k: usize| k as int);
    let mut used: Vec<bool> = Vec::new();
    let mut j: usize = 0;
    while j < adds.len()
        invariant
            0 <= j <= adds.len(),
            used.len() == j,
            forall|k: int| 0 <= k < j ==> !used[k],
        decreases adds.len() - j,
    {
        used.push(false);
        j += 1;
    }
    let mut pairs: Vec<Option<usize>> = Vec::new();
    let ghost mut gpairs: Seq<Option<int>> = Seq::empty();
    let mut renamed: Vec<FileEntry> = Vec::new();
    let mut d: usize = 0;
    while d < dels.len()
        invariant
            0 <= d <= dels.len(),
            gdels == dels@.map_values(|k: usize| k as int),
            gadds == adds@.map_values(|k: usize| k as int),
            gdels == lone(left@, right@),
            gadds == lone(right@, left@),
            forall|k: int| 0 <= k < dels.len() ==> dels[k] < left.len(),
            forall|k: int| 0 <= k < adds.len() ==> adds[k] < right.len(),
            used.len() == adds.len(),
            gpairs == pairing(left@, right@, gdels.take(d as int), gadds),
            gpairs.len() == d,
            pairs.len() == d,
            forall|k: int| 0 <= k < d ==> same_pair(#[trigger] pairs[k], gpairs[k], adds.len() as nat),
            forall|x: int| 0 <= x < adds.len() ==> (used[x] <==> taken(gpairs).contains(x)),
            entry_views(renamed@) == renamed_entries(left@, right@, gdels, gadds, gpairs, d as int),
        decreases dels.len() - d,
    {
        assert(gdels.take(d as int + 1).drop_last() =~= gdels.take(d as int));
        assert(gdels[d as int] == dels[d as int] as int);
        let del = &left[dels[d]];
        let ghost target = first_match(left@[gdels[d as int]], right@, gadds, taken(gpairs), 0);
        let mut found: Option<usize> = None;
        let mut a: usize = 0;
        while a < adds.len()
            invariant
                0 <= a <= adds.len(),
                gadds == adds@.map_values(|k: usize| k as int),
                forall|k: int| 0 <= k < adds.len() ==> adds[k] < right.len(),
                used.len() == adds.len(),
                forall|x: int| 0 <= x < adds.len() ==> (used[x] <==> taken(gpairs).contains(x)),
                *del == left@[gdels[d as int]],
                found is None ==> first_match(*del, right@, gadds, taken(gpairs), a as int) == target,
                found matches Some(x) ==> target == Some(x as int) && x < adds.len() && a == adds.len(),
            decreases adds.len() - a,
        {
            assert(gadds[a as int] == adds[a as int] as int);
            if !used[a] && same_bytes(&right[adds[a]].content, &del.content) {
                assert(!taken(gpairs).contains(a as int));
                assert(right@[gadds[a as int]].content@ == del.content@);
                assert(first_match(*del, right@, gadds, taken(gpairs), a as int) == Some(a as int));
                found = Some(a);
                a = adds.len();
            } else {
                a += 1;
            }
        }
        let ghost old_pairs = gpairs;
        let ghost old_renamed = entry_views(renamed@);
        match found {
            Some(x) => {
                assert(target == Some(x as int));
                assert(gadds[x as int] == adds[x as int] as int);
                used.set(x, true);
                let add = &right[adds[x]];
                let mut p: Vec<char> = chars_of(del.relative.as_str());
                push_str(&mut p, " \u{2192} ");
                push_all(&mut p, &chars_of(add.relative.as_str()));
                let e = make_entry(
                    string_of(p.as_slice()),
                    &add.relative,
                    FileStatus::Renamed,
                    opt_clone(&del.absolute),
                    opt_clone(&add.absolute),
                );
                renamed.push(e);
                assert(entry_views(renamed@) =~= old_renamed.push(e@));
            },
            None => {
                assert(target is None);
            },
        }
        pairs.push(found);
        proof {
            gpairs = old_pairs.push(target);
            lemma_renamed_prefix(left@, right@, gdels, gadds, old_pairs, gpairs, d as int);
            let want = match target {
                Some(x) => taken(old_pairs).insert(x),
                None => taken(old_pairs),
            };
            assert forall|j: int| taken(gpairs).contains(j) <==> want.contains(j) by {
                if taken(gpairs).contains(j) {
                    let k = choose|k: int| 0 <= k < gpairs.len() && gpairs[k] == Some(j);
                    if k < old_pairs.len() {
                        assert(old_pairs[k] == Some(j));
                    }
                }
                if taken(old_pairs).contains(j) {
                    let k = choose|k: int| 0 <= k < old_pairs.len() && old_pairs[k] == Some(j);
                    assert(gpairs[k] == Some(j));
                }
                if target == Some(j) {
                    assert(gpairs[old_pairs.len() as int] == Some(j));
                }
            }
            assert(taken(gpairs) =~= want);
        }
        d += 1;
    }
    assert(gdels.take(dels.len() as int) =~= gdels);

    // Remaining deletions.
    let mut deleted: Vec<FileEntry> = Vec::new();
    let mut k: usize = 0;
    while k < dels.len()
        invariant
            0 <= k <= dels.len(),
            gdels == dels@.map_values(|k: usize| k as int),
            forall|m: int| 0 <= m < dels.len() ==> dels[m] < left.len(),
            pairs.len() == dels.len(),
            gpairs.len() == dels.len(),
            forall|m: int| 0 <= m < dels.len() ==> same_pair(#[trigger] pairs[m], gpairs[m], adds.len() as nat),
            entry_views(deleted@) == deleted_entries(left@, gdels, gpairs, k as int),
        decreases dels.len() - k,
    {
        let ghost before = entry_views(deleted@);
        if pairs[k].is_none() {
            let f = &left[dels[k]];
            let e = make_entry(f.relative.clone(), &f.relative, FileStatus::Deleted, opt_clone(&f.absolute), None);
            deleted.push(e);
            assert(entry_views(deleted@) =~= before.push(e@));
        }
        k += 1;
    }

    // Remaining additions.
    let mut added: Vec<FileEntry> = Vec::new();
    let mut k: usize = 0;
    while k < adds.len()
        invariant
            0 <= k <= adds.len(),
            gadds == adds@.map_values(|k: usize| k as int),
            forall|m: int| 0 <= m < adds.len() ==> adds[m] < right.len(),
            used.len() == adds.len(),
            forall|x: int| 0 <= x < adds.len() ==> (used[x] <==> taken(gpairs).contains(x)),
            entry_views(added@) == added_entries(right@, gadds, taken(gpairs), k as int),
        decreases adds.len() - k,
    {
        let ghost before = entry_views(added@);
        if !used[k] {
            let f = &right[adds[k]];
            let e = make_entry(f.relative.clone(), &f.relative, FileStatus::Added, None, opt_clone(&f.absolute));
            added.push(e);
            assert(entry_views(added@) =~= before.push(e@));
        }
        k += 1;
    }

    let ghost all = first + entry_views(renamed@) + entry_views(deleted@) + entry_views(added@);
    assert(all == classified(left@, right@));
    let mut all_entries = entries;
    append_entries(&mut all_entries, renamed);
    append_entries(&mut all_entries, deleted);
    append_entries(&mut all_entries, added);
    assert(entry_views(all_entries@) =~= all);
    sort_entries(all_entries)
}

fn append_entries(dst: &mut Vec<FileEntry>, src: Vec<FileEntry>)
    ensures
        entry_views(final(dst)@) == entry_views(old(dst)@) + entry_views(src@),
{
    let ghost moved = src@;
    let mut src = src;
    dst.append(&mut src);
    assert(entry_views(dst@) =~= entry_views(old(dst)@) + entry_views(moved));
}

/// Sorts entries by path, equal paths keeping their order.
fn sort_entries(v: Vec<FileEntry>) -> (r: Vec<FileEntry>)
    ensures
        entry_views(r@) == sort_by_path(entry_views(v@)),
{
    let ghost s = entry_views(v@);
    let total = v.len();
    let ghost n = total as nat;
    let mut rest = v;
    let mut sorted: Vec<FileEntry> = Vec::new();
    let mut keys: Vec<Vec<char>> = Vec::new();
    let mut i: usize = 0;
    while rest.len() > 0
        invariant
            i + rest.len() == n,
            n <= usize::MAX,
            entry_views(rest@) == s.skip(i as int),
            s.len() == n,
            entry_views(sorted@) == sort_by_path(s.take(i as int)),
            keys.len() == sorted.len(),
            forall|k: int| 0 <= k < keys.len() ==> #[trigger] keys[k]@ == sorted[k]@.path,
        decreases rest.len(),
    {
        let ghost old_rest = rest@;
        let e = rest.remove(0);
        assert(old_rest[0]@ == entry_views(old_rest)[0]);
        assert forall|m: int| 0 <= m < rest.len() implies #[trigger] entry_views(rest@)[m] == s.skip(
            i as int + 1,
        )[m] by {
            assert(rest@[m] == old_rest[m + 1]);
            assert(entry_views(old_rest)[m + 1] == old_rest[m + 1]@);
            assert(s.skip(i as int)[m + 1] == s[i + 1 + m]);
        }
        assert(entry_views(rest@) =~= s.skip(i as int + 1));
        assert(s.take(i as int + 1).drop_last() =~= s.take(i as int));
        assert(s.take(i as int + 1).last() == e@);
        let key = chars_of(e.path.as_str());
        let ghost sp = entry_views(sorted@);
        let mut k: usize = 0;
        while k < sorted.len() && !lex_less(&key, &keys[k])
            invariant
                0 <= k <= sorted.len(),
                keys.len() == sorted.len(),
                sp == entry_views(sorted@),
                key@ == e@.path,
                forall|m: int| 0 <= m < keys.len() ==> #[trigger] keys[m]@ == sorted[m]@.path,
                insert_pos(sp, e@, k as int) == insert_pos(sp, e@, 0),
            decreases sorted.len() - k,
        {
            assert(sp[k as int] == sorted[k as int]@);
            k += 1;
        }
        proof {
            if k < sorted.len() {
                assert(sp[k as int] == sorted[k as int]@);
            }
        }
        let ghost ev = e@;
        let ghost old_keys = keys@;
        let ghost old_sorted = sorted@;
        sorted.insert(k, e);
        keys.insert(k, key);
        assert(entry_views(sorted@) =~= sp.insert(k as int, ev));
        i += 1;
        assert forall|m: int| 0 <= m < keys.len() implies #[trigger] keys[m]@ == sorted[m]@.path by {
            if m < k {
                assert(keys[m] == old_keys[m]);
                assert(sorted[m] == old_sorted[m]);
            } else if m > k {
                assert(keys[m] == old_keys[m - 1]);
                assert(sorted[m] == old_sorted[m - 1]);
            }
        }
    }
    assert(s.take(n as int) =~= s);
    sorted
}

} // verus!
