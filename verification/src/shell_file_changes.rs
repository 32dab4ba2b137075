//! File changes a shell command made, found by comparing snapshots of the
//! working tree taken before and after it ran.
use vstd::prelude::*;
use crate::text::{chars_of, str_eq, string_from_chars};
use crate::text_editor::{named_view, sort_by_name, sort_entries};
use std::collections::VecDeque;

verus! {

/// Most directories one snapshot scans.
pub const MAX_SCANNED_DIRS: usize = 1024;
/// Most files one snapshot records.
pub const MAX_SCANNED_FILES: usize = 20_000;
/// Deepest directory level one snapshot enters.
pub const MAX_DEPTH: usize = 24;

/// Directory names a snapshot never enters: version control, caches,
/// virtual environments and build output.
pub open spec fn skipped_dir_name(name: Seq<char>) -> bool {
    ||| name == ".git"@
    ||| name == ".hg"@
    ||| name == ".svn"@
    ||| name == ".cache"@
    ||| name == ".mypy_cache"@
    ||| name == ".next"@
    ||| name == ".pytest_cache"@
    ||| name == ".ruff_cache"@
    ||| name == ".turbo"@
    ||| name == ".venv"@
    ||| name == "__pycache__"@
    ||| name == "build"@
    ||| name == "coverage"@
    ||| name == "dist"@
    ||| name == "node_modules"@
    ||| name == "target"@
    ||| name == "venv"@
}

/// Whether a snapshot skips the directory `name`.
pub fn should_skip_dir(name: &str) -> (r: bool)
    ensures
        r == skipped_dir_name(name@),
{
    str_eq(name, ".git") || str_eq(name, ".hg") || str_eq(name, ".svn") || str_eq(name, ".cache")
        || str_eq(name, ".mypy_cache") || str_eq(name, ".next") || str_eq(name, ".pytest_cache")
        || str_eq(name, ".ruff_cache") || str_eq(name, ".turbo") || str_eq(name, ".venv") || str_eq(
        name,
        "__pycache__",
    ) || str_eq(name, "build") || str_eq(name, "coverage") || str_eq(name, "dist") || str_eq(
        name,
        "node_modules",
    ) || str_eq(name, "target") || str_eq(name, "venv")
}

/// A segment of a path that names something: not empty and not `.`.
pub open spec fn named_segment(seg: Seq<char>) -> bool {
    seg.len() > 0 && seg != "."@
}

/// Reading `s` from the left: the named segments closed so far and the
/// segment being read.
pub open spec fn split_state(s: Seq<char>) -> (Seq<Seq<char>>, Seq<char>)
    decreases s.len(),
{
    if s.len() == 0 {
        (Seq::empty(), Seq::empty())
    } else {
        let (ns, cur) = split_state(s.drop_last());
        if s.last() == '/' {
            (
                if named_segment(cur) {
                    ns.push(cur)
                } else {
                    ns
                },
                Seq::empty(),
            )
        } else {
            (ns, cur.push(s.last()))
        }
    }
}

/// The named segments of `s`, in order: what is left between separators
/// once empty segments and `.` are dropped.
pub open spec fn named_segments(s: Seq<char>) -> Seq<Seq<char>> {
    let (ns, cur) = split_state(s);
    if named_segment(cur) {
        ns.push(cur)
    } else {
        ns
    }
}

/// Segments joined by `/`.
pub open spec fn join_slash(ns: Seq<Seq<char>>) -> Seq<char>
    decreases ns.len(),
{
    if ns.len() == 0 {
        Seq::empty()
    } else if ns.len() == 1 {
        ns[0]
    } else {
        join_slash(ns.drop_last()) + "/"@ + ns.last()
    }
}

/// `s` starts at the root.
pub open spec fn starts_at_root(s: Seq<char>) -> bool {
    s.len() > 0 && s[0] == '/'
}

/// `s` starts with a `.` segment, which the path keeps.
pub open spec fn starts_at_current(s: Seq<char>) -> bool {
    !starts_at_root(s) && s.len() > 0 && s[0] == '.' && (s.len() == 1 || s[1] == '/')
}

/// The path rebuilt from its components (`Path::components` collected into
/// a `PathBuf`): repeated separators, `.` segments past the start and a
/// trailing separator are dropped; a leading `/` or `.` stays.
pub open spec fn normalized_path(s: Seq<char>) -> Seq<char> {
    let ns = named_segments(s);
    if starts_at_root(s) {
        "/"@ + join_slash(ns)
    } else if starts_at_current(s) {
        if ns.len() == 0 {
            "."@
        } else {
            "./"@ + join_slash(ns)
        }
    } else {
        join_slash(ns)
    }
}

proof fn lemma_join_slash_push(ns: Seq<Seq<char>>, x: Seq<char>)
    requires
        ns.len() > 0,
    ensures
        join_slash(ns.push(x)) == join_slash(ns) + "/"@ + x,
{
    assert(ns.push(x).drop_last() == ns);
}

fn join_segments(ns: &Vec<Vec<char>>) -> (r: Vec<char>)
    ensures
        r@ == join_slash(ns@.map_values(|v: Vec<char>| v@)),
{
    let ghost vs = ns@.map_values(|v: Vec<char>| v@);
    let mut out: Vec<char> = Vec::new();
    let mut i: usize = 0;
    while i < ns.len()
        invariant
            i <= ns@.len(),
            vs == ns@.map_values(|v: Vec<char>| v@),
            out@ == join_slash(vs.take(i as int)),
        decreases ns.len() - i,
    {
        if i > 0 {
            out.push('/');
        }
        let seg = &ns[i];
        let mut j: usize = 0;
        let ghost base = out@;
        while j < seg.len()
            invariant
                j <= seg@.len(),
                out@ == base + seg@.take(j as int),
            decreases seg.len() - j,
        {
            out.push(seg[j]);
            j += 1;
        }
        proof {
            assert(seg@.take(seg@.len() as int) == seg@);
            assert(vs.take(i as int + 1) == vs.take(i as int).push(vs[i as int]));
            if i == 0 {
                assert(vs.take(1) == seq![vs[0]]);
                assert(base == Seq::<char>::empty());
                assert(out@ == vs[0]);
            } else {
                lemma_join_slash_push(vs.take(i as int), vs[i as int]);
                assert(base == join_slash(vs.take(i as int)) + "/"@) by {
                    assert(seq!['/'] == "/"@) by {
                        reveal_strlit("/");
                    }
                }
                assert(out@ == join_slash(vs.take(i as int)) + "/"@ + vs[i as int]);
            }
        }
        i += 1;
    }
    proof {
        assert(vs.take(ns@.len() as int) == vs);
    }
    out
}

/// `path` rebuilt from its components, as a snapshot keys files.
pub fn normalize_snapshot_path(path: &str) -> (r: String)
    ensures
        r@ == normalized_path(path@),
{
    let s = chars_of(path);
    let mut ns: Vec<Vec<char>> = Vec::new();
    let mut cur: Vec<char> = Vec::new();
    let mut i: usize = 0;
    while i < s.len()
        invariant
            i <= s@.len(),
            s@ == path@,
            split_state(s@.take(i as int)) == (ns@.map_values(|v: Vec<char>| v@), cur@),
        decreases s.len() - i,
    {
        let c = s[i];
        proof {
            assert(s@.take(i as int + 1).drop_last() == s@.take(i as int));
        }
        if c == '/' {
            let keep = is_named_segment(&cur);
            if keep {
                let ghost before = ns@;
                ns.push(cur);
                proof {
                    assert(ns@.map_values(|v: Vec<char>| v@) == before.map_values(
                        |v: Vec<char>| v@,
                    ).push(ns@.last()@));
                }
            }
            cur = Vec::new();
        } else {
            cur.push(c);
        }
        i += 1;
    }
    proof {
        assert(s@.take(s@.len() as int) == s@);
    }
    if is_named_segment(&cur) {
        let ghost before = ns@;
        ns.push(cur);
        proof {
            assert(ns@.map_values(|v: Vec<char>| v@) == before.map_values(|v: Vec<char>| v@).push(
                ns@.last()@,
            ));
        }
    }
    let joined = join_segments(&ns);
    let root = s.len() > 0 && s[0] == '/';
    let current = !root && s.len() > 0 && s[0] == '.' && (s.len() == 1 || s[1] == '/');
    let mut out: Vec<char> = Vec::new();
    if root {
        out.push('/');
        proof {
            reveal_strlit("/");
        }
    } else if current {
        out.push('.');
        proof {
            reveal_strlit(".");
            reveal_strlit("./");
        }
        if ns.len() > 0 {
            out.push('/');
        }
    }
    let ghost head = out@;
    let mut k: usize = 0;
    while k < joined.len()
        invariant
            k <= joined@.len(),
            out@ == head + joined@.take(k as int),
        decreases joined.len() - k,
    {
        out.push(joined[k]);
        k += 1;
    }
    proof {
        assert(joined@.take(joined@.len() as int) == joined@);
        if !root && current && ns@.len() == 0 {
            assert(joined@ == Seq::<char>::empty());
        }
    }
    string_from_chars(out.as_slice())
}

fn is_named_segment(seg: &Vec<char>) -> (r: bool)
    ensures
        r == named_segment(seg@),
{
    proof {
        reveal_strlit(".");
    }
    if seg.len() == 0 {
        return false;
    }
    if seg.len() == 1 && seg[0] == '.' {
        assert(seg@ == "."@);
        return false;
    }
    assert(seg@ != "."@ ) by {
        if seg@ == "."@ {
            assert(seg@.len() == 1 && seg@[0] == '.');
        }
    }
    true
}


/// When a file was created and last modified, in milliseconds.
#[derive(Clone, Copy, Debug, PartialEq, Eq, Structural)]
pub struct ShellFileEntry {
    pub created_at_ms: i64,
    pub modified_at_ms: i64,
}

/// The keys of `s` are pairwise different.
pub open spec fn keys_distinct<V>(s: Seq<(String, V)>) -> bool {
    forall|i: int, j: int| 0 <= i < j < s.len() ==> (#[trigger] s[i]).0@ != (#[trigger] s[j]).0@
}

/// The map whose entries are `s`, later entries winning.
pub open spec fn entries_map<V>(s: Seq<(String, V)>) -> Map<Seq<char>, V>
    decreases s.len(),
{
    if s.len() == 0 {
        Map::empty()
    } else {
        entries_map(s.drop_last()).insert(s.last().0@, s.last().1)
    }
}

/// A key is in the map exactly when some entry has it; with distinct keys
/// each entry's value is the map's; and the map is finite with one key per
/// entry.
pub proof fn lemma_entries_map<V>(s: Seq<(String, V)>)
    ensures
        forall|k: Seq<char>| #[trigger]
            entries_map(s).dom().contains(k) <==> exists|i: int| 0 <= i < s.len() && s[i].0@ == k,
        entries_map(s).dom().finite(),
        keys_distinct(s) ==> forall|i: int|
            0 <= i < s.len() ==> entries_map(s)[#[trigger] s[i].0@] == s[i].1,
        keys_distinct(s) ==> entries_map(s).dom().len() == s.len(),
    decreases s.len(),
{
    if s.len() > 0 {
        let d = s.drop_last();
        lemma_entries_map(d);
        assert forall|k: Seq<char>| #[trigger]
            entries_map(s).dom().contains(k) <==> exists|i: int| 0 <= i < s.len() && s[i].0@ == k by {
            if entries_map(s).dom().contains(k) {
                if k != s.last().0@ {
                    let i = choose|i: int| 0 <= i < d.len() && d[i].0@ == k;
                    assert(s[i] == d[i]);
                } else {
                    assert(s[s.len() - 1].0@ == k);
                }
            }
            if exists|i: int| 0 <= i < s.len() && s[i].0@ == k {
                let i = choose|i: int| 0 <= i < s.len() && s[i].0@ == k;
                if i < s.len() - 1 {
                    assert(d[i] == s[i]);
                }
            }
        }
        if keys_distinct(s) {
            assert(keys_distinct(d)) by {
                assert forall|i: int, j: int| 0 <= i < j < d.len() implies (#[trigger] d[i]).0@
                    != (#[trigger] d[j]).0@ by {
                    assert(d[i] == s[i] && d[j] == s[j]);
                }
            }
            assert forall|i: int| 0 <= i < s.len() implies entries_map(s)[#[trigger] s[i].0@]
                == s[i].1 by {
                if i < s.len() - 1 {
                    assert(d[i] == s[i]);
                    assert(s[i].0@ != s[s.len() - 1].0@);
                }
            }
            assert(!entries_map(d).dom().contains(s.last().0@)) by {
                if entries_map(d).dom().contains(s.last().0@) {
                    let i = choose|i: int| 0 <= i < d.len() && d[i].0@ == s.last().0@;
                    assert(d[i] == s[i]);
                    assert(s[i].0@ != s[s.len() - 1].0@);
                }
            }
        }
    }
}

/// Appending an entry whose key is new keeps the keys distinct.
proof fn lemma_push_distinct<V>(s: Seq<(String, V)>, e: (String, V))
    requires
        keys_distinct(s),
        !entries_map(s).dom().contains(e.0@),
    ensures
        keys_distinct(s.push(e)),
        entries_map(s.push(e)) == entries_map(s).insert(e.0@, e.1),
{
    lemma_entries_map(s);
    let t = s.push(e);
    assert(t.drop_last() == s);
    assert forall|i: int, j: int| 0 <= i < j < t.len() implies (#[trigger] t[i]).0@
        != (#[trigger] t[j]).0@ by {
        if j == s.len() {
            assert(t[i] == s[i]);
        } else {
            assert(t[i] == s[i] && t[j] == s[j]);
        }
    }
}

/// Files of the working tree with their times, keyed by path.
pub struct ShellFileSnapshot {
    files: Vec<(String, ShellFileEntry)>,
}

impl View for ShellFileSnapshot {
    type V = Map<Seq<char>, ShellFileEntry>;

    closed spec fn view(&self) -> Map<Seq<char>, ShellFileEntry> {
        entries_map(self.files@)
    }
}

impl ShellFileSnapshot {
    #[verifier::type_invariant]
    spec fn paths_distinct(self) -> bool {
        keys_distinct(self.files@)
    }

    /// An empty snapshot.
    pub fn new() -> (r: Self)
        ensures
            r@ == Map::<Seq<char>, ShellFileEntry>::empty(),
    {
        ShellFileSnapshot { files: Vec::new() }
    }

    /// Number of files recorded.
    pub fn file_count(&self) -> (r: usize)
        ensures
            r == self@.dom().len(),
            self@.dom().finite(),
    {
        proof {
            use_type_invariant(self);
            lemma_entries_map(self.files@);
        }
        self.files.len()
    }

    /// The entry of `path`, if recorded.
    pub fn get(&self, path: &str) -> (r: Option<ShellFileEntry>)
        ensures
            r == (if self@.dom().contains(path@) {
                Some(self@[path@])
            } else {
                None
            }),
    {
        proof {
            use_type_invariant(self);
            lemma_entries_map(self.files@);
        }
        match find_entry(&self.files, path) {
            Some(i) => Some(self.files[i].1),
            None => None,
        }
    }

    /// Records `entry` under `path`, replacing an earlier one.
    pub fn insert(&mut self, path: String, entry: ShellFileEntry)
        ensures
            final(self)@ == old(self)@.insert(path@, entry),
    {
        proof {
            use_type_invariant(&*self);
            lemma_entries_map(self.files@);
        }
        let found = find_entry(&self.files, path.as_str());
        match found {
            Some(i) => {
                let ghost old_files = self.files@;
                let ghost k = path@;
                let mut files = Vec::new();
                std::mem::swap(&mut files, &mut self.files);
                files.set(i, (path, entry));
                proof {
                    let nf = files@;
                    assert(nf.len() == old_files.len());
                    assert forall|a: int, b: int| 0 <= a < b < nf.len() implies (#[trigger] nf[a]).0@
                        != (#[trigger] nf[b]).0@ by {
                        if a != i && b != i {
                            assert(nf[a] == old_files[a] && nf[b] == old_files[b]);
                        } else if a == i {
                            assert(nf[b] == old_files[b]);
                            assert(old_files[a].0@ == k);
                        } else {
                            assert(nf[a] == old_files[a]);
                            assert(old_files[b].0@ == k);
                        }
                    }
                    lemma_entries_map(nf);
                    assert(entries_map(nf) =~= entries_map(old_files).insert(k, entry)) by {
                        assert forall|p: Seq<char>| #[trigger] entries_map(nf).dom().contains(p)
                            <==> entries_map(old_files).insert(k, entry).dom().contains(p) by {
                            if entries_map(nf).dom().contains(p) {
                                let j = choose|j: int| 0 <= j < nf.len() && nf[j].0@ == p;
                                if j != i {
                                    assert(nf[j] == old_files[j]);
                                }
                            }
                            if entries_map(old_files).dom().contains(p) && p != k {
                                let j = choose|j: int| 0 <= j < old_files.len() && old_files[j].0@
                                    == p;
                                assert(j != i);
                                assert(nf[j] == old_files[j]);
                            }
                            if p == k {
                                assert(nf[i as int].0@ == k);
                            }
                        }
                        assert forall|p: Seq<char>| #[trigger] entries_map(nf).dom().contains(p)
                            implies entries_map(nf)[p] == entries_map(old_files).insert(k, entry)[p] by {
                            let j = choose|j: int| 0 <= j < nf.len() && nf[j].0@ == p;
                            if j != i {
                                assert(nf[j] == old_files[j]);
                                assert(p != k);
                            } else {
                                assert(p == k);
                            }
                        }
                    }
                }
                self.files = files;
            },
            None => {
                let e = (path, entry);
                proof {
                    lemma_push_distinct(self.files@, e);
                }
                let mut files = Vec::new();
                std::mem::swap(&mut files, &mut self.files);
                files.push(e);
                self.files = files;
            },
        }
    }
}

/// The index of the entry for `path`, if any.
fn find_entry<V>(files: &Vec<(String, V)>, path: &str) -> (r: Option<usize>)
    ensures
        match r {
            Some(i) => i < files@.len() && files@[i as int].0@ == path@,
            None => forall|i: int| 0 <= i < files@.len() ==> (#[trigger] files@[i]).0@ != path@,
        },
{
    let mut i: usize = 0;
    while i < files.len()
        invariant
            i <= files@.len(),
            forall|j: int| 0 <= j < i ==> (#[trigger] files@[j]).0@ != path@,
        decreases files.len() - i,
    {
        if str_eq(files[i].0.as_str(), path) {
            return Some(i);
        }
        i += 1;
    }
    None
}

/// How a file changed between two snapshots.
#[derive(Clone, Copy, Debug, PartialEq, Eq, Structural)]
pub enum ShellFileChange {
    /// The file is new.
    Add,
    /// The file's times changed.
    Update,
    /// The file is gone.
    Delete,
}

/// The path changed between `before` and `after`.
pub open spec fn path_changed(
    before: Map<Seq<char>, ShellFileEntry>,
    after: Map<Seq<char>, ShellFileEntry>,
    p: Seq<char>,
) -> bool {
    if before.dom().contains(p) {
        !after.dom().contains(p) || after[p] != before[p]
    } else {
        after.dom().contains(p)
    }
}

/// How a changed path changed.
pub open spec fn change_of(
    before: Map<Seq<char>, ShellFileEntry>,
    after: Map<Seq<char>, ShellFileEntry>,
    p: Seq<char>,
) -> ShellFileChange {
    if !before.dom().contains(p) {
        ShellFileChange::Add
    } else if after.dom().contains(p) {
        ShellFileChange::Update
    } else {
        ShellFileChange::Delete
    }
}

/// Every changed path with its change: files only in `after` are added,
/// files only in `before` deleted, files in both with other times updated.
pub open spec fn snapshot_diff(
    before: Map<Seq<char>, ShellFileEntry>,
    after: Map<Seq<char>, ShellFileEntry>,
) -> Map<Seq<char>, ShellFileChange> {
    Map::new(|p: Seq<char>| path_changed(before, after, p), |p: Seq<char>| change_of(before, after, p))
}

/// The files a command changed, each once, with how it changed.
pub fn diff_shell_snapshots(before: &ShellFileSnapshot, after: &ShellFileSnapshot) -> (r: Vec<
    (String, ShellFileChange),
>)
    ensures
        keys_distinct(r@),
        entries_map(r@) == snapshot_diff(before@, after@),
{
    proof {
        use_type_invariant(before);
        use_type_invariant(after);
        lemma_entries_map(before.files@);
        lemma_entries_map(after.files@);
    }
    let ghost b = before@;
    let ghost a = after@;
    let ghost d = snapshot_diff(b, a);
    let mut changes: Vec<(String, ShellFileChange)> = Vec::new();
    let mut i: usize = 0;
    while i < before.files.len()
        invariant
            i <= before.files@.len(),
            b == entries_map(before.files@),
            a == entries_map(after.files@),
            d == snapshot_diff(b, a),
            keys_distinct(before.files@),
            keys_distinct(after.files@),
            forall|k: Seq<char>| #[trigger]
                b.dom().contains(k) <==> exists|j: int| 0 <= j < before.files@.len() && before.files@[j].0@ == k,
            forall|k: Seq<char>| #[trigger]
                a.dom().contains(k) <==> exists|j: int| 0 <= j < after.files@.len() && after.files@[j].0@ == k,
            forall|j: int| 0 <= j < before.files@.len() ==> b[#[trigger] before.files@[j].0@] == before.files@[j].1,
            forall|j: int| 0 <= j < after.files@.len() ==> a[#[trigger] after.files@[j].0@] == after.files@[j].1,
            keys_distinct(changes@),
            entries_map(changes@) == d.restrict(entries_map(before.files@.take(i as int)).dom()),
        decreases before.files.len() - i,
    {
        let ghost prev = changes@;
        let ghost k = before.files@[i as int].0@;
        let ghost pre = before.files@.take(i as int);
        proof {
            assert(before.files@.take(i as int + 1) == pre.push(before.files@[i as int]));
            assert(before.files@.take(i as int + 1).drop_last() == pre);
            lemma_entries_map(pre);
            lemma_entries_map(changes@);
            assert(!entries_map(changes@).dom().contains(k)) by {
                if entries_map(pre).dom().contains(k) {
                    let j = choose|j: int| 0 <= j < pre.len() && pre[j].0@ == k;
                    assert(pre[j] == before.files@[j]);
                }
            }
        }
        let path = &before.files[i].0;
        let entry = before.files[i].1;
        let change = match find_entry(&after.files, path.as_str()) {
            Some(j) => if after.files[j].1 == entry {
                None
            } else {
                Some(ShellFileChange::Update)
            },
            None => Some(ShellFileChange::Delete),
        };
        proof {
            if exists|j: int| 0 <= j < after.files@.len() && after.files@[j].0@ == k {
                assert(a.dom().contains(k));
            }
            assert(b[k] == entry);
        }
        match change {
            Some(c) => {
                let e = (path.clone(), c);
                proof {
                    lemma_push_distinct(changes@, e);
                }
                changes.push(e);
                proof {
                    assert(entries_map(changes@) =~= d.restrict(entries_map(before.files@.take(i as int + 1)).dom()));
                }
            },
            None => {
                proof {
                    assert(!d.dom().contains(k));
                    assert(entries_map(changes@) =~= d.restrict(entries_map(before.files@.take(i as int + 1)).dom()));
                }
            },
        }
        i += 1;
    }
    proof {
        assert(before.files@.take(before.files@.len() as int) == before.files@);
    }
    let mut j: usize = 0;
    while j < after.files.len()
        invariant
            j <= after.files@.len(),
            b == entries_map(before.files@),
            a == entries_map(after.files@),
            d == snapshot_diff(b, a),
            keys_distinct(after.files@),
            forall|k: Seq<char>| #[trigger]
                a.dom().contains(k) <==> exists|x: int| 0 <= x < after.files@.len() && after.files@[x].0@ == k,
            forall|k: Seq<char>| #[trigger]
                b.dom().contains(k) <==> exists|x: int| 0 <= x < before.files@.len() && before.files@[x].0@ == k,
            keys_distinct(changes@),
            entries_map(changes@) == d.restrict(b.dom().union(entries_map(after.files@.take(j as int)).dom())),
        decreases after.files.len() - j,
    {
        let ghost k = after.files@[j as int].0@;
        let ghost pre = after.files@.take(j as int);
        proof {
            assert(after.files@.take(j as int + 1) == pre.push(after.files@[j as int]));
            assert(after.files@.take(j as int + 1).drop_last() == pre);
            lemma_entries_map(pre);
            lemma_entries_map(changes@);
        }
        let path = &after.files[j].0;
        let known = find_entry(&before.files, path.as_str());
        if known.is_none() {
            proof {
                assert(!b.dom().contains(k));
                assert(!entries_map(changes@).dom().contains(k)) by {
                    if entries_map(pre).dom().contains(k) {
                        let x = choose|x: int| 0 <= x < pre.len() && pre[x].0@ == k;
                        assert(pre[x] == after.files@[x]);
                    }
                }
            }
            let e = (path.clone(), ShellFileChange::Add);
            proof {
                lemma_push_distinct(changes@, e);
            }
            changes.push(e);
            proof {
                assert(a.dom().contains(k));
                assert(entries_map(changes@) =~= d.restrict(b.dom().union(entries_map(after.files@.take(j as int + 1)).dom())));
            }
        } else {
            proof {
                assert(b.dom().contains(k));
                assert(entries_map(changes@) =~= d.restrict(b.dom().union(entries_map(after.files@.take(j as int + 1)).dom())));
            }
        }
        j += 1;
    }
    proof {
        assert(after.files@.take(after.files@.len() as int) == after.files@);
        assert(entries_map(changes@) =~= d);
    }
    changes
}


/// Why a snapshot gave up.
#[derive(Clone, Copy, Debug, PartialEq, Eq, Structural)]
pub enum SnapshotLimit {
    /// More directories than [`MAX_SCANNED_DIRS`].
    DirectoryCount,
    /// More files than [`MAX_SCANNED_FILES`].
    FileCount,
    /// A directory deeper than [`MAX_DEPTH`].
    Depth,
}

/// A directory waiting to be read: where it is, where it is relative to
/// the root, and how deep.
#[derive(Debug)]
pub struct PendingDir {
    pub abs_path: String,
    pub rel_path: String,
    pub depth: usize,
}

impl PendingDir {
    pub open spec fn view3(self) -> (Seq<char>, Seq<char>, usize) {
        (self.abs_path@, self.rel_path@, self.depth)
    }
}

/// An entry of a directory listing.
#[derive(Debug)]
pub struct ScanEntry {
    pub file_name: String,
    pub is_directory: bool,
    pub is_file: bool,
}

/// What the scan does with one listed entry.
#[derive(Debug)]
pub enum EntryStep {
    /// Nothing.
    Skip,
    /// Read this directory's metadata, then [`ShellSnapshotScan::enter_directory`].
    CheckDirectory { abs_path: String, rel_path: String },
    /// Read this file's metadata, then [`ShellSnapshotScan::record_file`].
    CheckFile { abs_path: String, rel_path: String },
}

/// `name` joined onto `base` as `Path::join` joins a name: a name from the
/// root replaces the base; otherwise one separator stands between them.
pub open spec fn joined_path(base: Seq<char>, name: Seq<char>) -> Seq<char> {
    if name.len() > 0 && name[0] == '/' {
        name
    } else if base.len() == 0 {
        name
    } else if base.last() == '/' {
        base + name
    } else {
        base + "/"@ + name
    }
}

fn join_path(base: &str, name: &str) -> (r: String)
    ensures
        r@ == joined_path(base@, name@),
{
    let b = chars_of(base);
    let n = chars_of(name);
    if n.len() > 0 && n[0] == '/' {
        return name.to_string();
    }
    if b.len() == 0 {
        return name.to_string();
    }
    let mut out = b;
    if out[out.len() - 1] != '/' {
        out.push('/');
        proof {
            reveal_strlit("/");
        }
    }
    let ghost head = out@;
    let mut i: usize = 0;
    while i < n.len()
        invariant
            i <= n@.len(),
            out@ == head + n@.take(i as int),
        decreases n.len() - i,
    {
        out.push(n[i]);
        i += 1;
    }
    assert(n@.take(n@.len() as int) == n@);
    string_from_chars(out.as_slice())
}

/// What the scan does with `entry` of the directory `dir`, having recorded
/// `recorded` files: `.` and `..` are skipped, and so are skipped
/// directory names and entries that are neither directory nor file; a
/// file past the file limit ends the scan.
pub open spec fn entry_step_spec(
    dir: (Seq<char>, Seq<char>, usize),
    name: Seq<char>,
    is_directory: bool,
    is_file: bool,
    recorded: nat,
) -> Result<Option<(bool, Seq<char>, Seq<char>)>, SnapshotLimit> {
    if name == "."@ || name == ".."@ {
        Ok(None)
    } else if is_directory {
        if skipped_dir_name(name) {
            Ok(None)
        } else {
            Ok(Some((true, joined_path(dir.0, name), joined_path(dir.1, name))))
        }
    } else if !is_file {
        Ok(None)
    } else if recorded >= MAX_SCANNED_FILES {
        Err(SnapshotLimit::FileCount)
    } else {
        Ok(Some((false, joined_path(dir.0, name), joined_path(dir.1, name))))
    }
}

pub open spec fn entry_step_view(r: Result<EntryStep, SnapshotLimit>) -> Result<
    Option<(bool, Seq<char>, Seq<char>)>,
    SnapshotLimit,
> {
    match r {
        Ok(EntryStep::Skip) => Ok(None),
        Ok(EntryStep::CheckDirectory { abs_path, rel_path }) => Ok(Some((true, abs_path@, rel_path@))),
        Ok(EntryStep::CheckFile { abs_path, rel_path }) => Ok(Some((false, abs_path@, rel_path@))),
        Err(l) => Err(l),
    }
}

/// A breadth-first scan of a working tree into a snapshot. The caller
/// reads directories and metadata; the scan decides what to read and what
/// to record, and when to give up.
pub struct ShellSnapshotScan {
    files: ShellFileSnapshot,
    dirs_scanned: usize,
    pending: VecDeque<PendingDir>,
}

pub open spec fn pending_view(s: Seq<PendingDir>) -> Seq<(Seq<char>, Seq<char>, usize)> {
    s.map_values(|d: PendingDir| d.view3())
}

impl ShellSnapshotScan {
    #[verifier::type_invariant]
    spec fn scan_inv(self) -> bool {
        self.dirs_scanned <= MAX_SCANNED_DIRS
    }

    /// Directories still to read, in order.
    pub closed spec fn queued(&self) -> Seq<(Seq<char>, Seq<char>, usize)> {
        pending_view(self.pending@)
    }

    /// Directories read so far.
    pub closed spec fn scanned(&self) -> nat {
        self.dirs_scanned as nat
    }

    /// Files recorded so far.
    pub closed spec fn recorded(&self) -> Map<Seq<char>, ShellFileEntry> {
        self.files@
    }

    /// A scan that starts at `root`.
    pub fn new(root: String) -> (r: Self)
        ensures
            r.queued() == seq![(root@, Seq::<char>::empty(), 0usize)],
            r.scanned() == 0,
            r.recorded() == Map::<Seq<char>, ShellFileEntry>::empty(),
    {
        let mut pending: VecDeque<PendingDir> = VecDeque::new();
        pending.push_back(PendingDir { abs_path: root, rel_path: String::new(), depth: 0 });
        let r = ShellSnapshotScan { files: ShellFileSnapshot::new(), dirs_scanned: 0, pending };
        assert(r.queued() =~= seq![(root@, Seq::<char>::empty(), 0usize)]);
        r
    }

    /// The next directory to read, or `None` when all are read. A directory
    /// deeper than [`MAX_DEPTH`], or one past [`MAX_SCANNED_DIRS`], ends the
    /// scan.
    pub fn next_directory(&mut self) -> (r: Result<Option<PendingDir>, SnapshotLimit>)
        ensures
            final(self).recorded() == old(self).recorded(),
            old(self).queued().len() == 0 ==> (r matches Ok(None) && final(self).queued()
                == old(self).queued()),
            old(self).queued().len() > 0 ==> {
                let d = old(self).queued()[0];
                &&& final(self).queued() == old(self).queued().drop_first()
                &&& if d.2 > MAX_DEPTH {
                    r == Err::<Option<PendingDir>, SnapshotLimit>(SnapshotLimit::Depth)
                } else if old(self).scanned() + 1 > MAX_SCANNED_DIRS {
                    r == Err::<Option<PendingDir>, SnapshotLimit>(SnapshotLimit::DirectoryCount)
                } else {
                    &&& r matches Ok(Some(p)) && p.view3() == d
                    &&& final(self).scanned() == old(self).scanned() + 1
                }
            },
    {
        proof {
            use_type_invariant(&*self);
        }
        let ghost pv = pending_view(self.pending@);
        let mut pending = VecDeque::new();
        std::mem::swap(&mut pending, &mut self.pending);
        let front = pending.pop_front();
        self.pending = pending;
        let d = match front {
            Some(d) => d,
            None => return Ok(None),
        };
        proof {
            assert(pending_view(self.pending@) =~= pv.drop_first());
        }
        let depth = d.depth;
        if depth > MAX_DEPTH {
            return Err(SnapshotLimit::Depth);
        }
        if self.dirs_scanned >= MAX_SCANNED_DIRS {
            return Err(SnapshotLimit::DirectoryCount);
        }
        self.dirs_scanned = self.dirs_scanned + 1;
        Ok(Some(d))
    }

    /// What to do with `entry` of `dir`.
    pub fn classify_entry(&self, dir: &PendingDir, entry: &ScanEntry) -> (r: Result<EntryStep, SnapshotLimit>)
        ensures
            entry_step_view(r) == entry_step_spec(
                dir.view3(),
                entry.file_name@,
                entry.is_directory,
                entry.is_file,
                self.recorded().dom().len(),
            ),
    {
        proof {
            use_type_invariant(self);
        }
        let name = entry.file_name.as_str();
        if str_eq(name, ".") || str_eq(name, "..") {
            return Ok(EntryStep::Skip);
        }
        if entry.is_directory {
            if should_skip_dir(name) {
                return Ok(EntryStep::Skip);
            }
            return Ok(
                EntryStep::CheckDirectory {
                    abs_path: join_path(dir.abs_path.as_str(), name),
                    rel_path: join_path(dir.rel_path.as_str(), name),
                },
            );
        }
        if !entry.is_file {
            return Ok(EntryStep::Skip);
        }
        if self.files.file_count() >= MAX_SCANNED_FILES {
            return Err(SnapshotLimit::FileCount);
        }
        Ok(
            EntryStep::CheckFile {
                abs_path: join_path(dir.abs_path.as_str(), name),
                rel_path: join_path(dir.rel_path.as_str(), name),
            },
        )
    }

    /// Queues a subdirectory of `parent` unless it is a symbolic link.
    pub fn enter_directory(&mut self, parent: &PendingDir, abs_path: String, rel_path: String, is_symlink: bool)
        requires
            parent.depth <= MAX_DEPTH,
        ensures
            final(self).recorded() == old(self).recorded(),
            final(self).scanned() == old(self).scanned(),
            final(self).queued() == if is_symlink {
                old(self).queued()
            } else {
                old(self).queued().push((abs_path@, rel_path@, (parent.depth + 1) as usize))
            },
    {
        proof {
            use_type_invariant(&*self);
        }
        if is_symlink {
            return;
        }
        let d = PendingDir { abs_path, rel_path, depth: parent.depth + 1 };
        let ghost pv = pending_view(self.pending@);
        let ghost dv = d.view3();
        let mut pending = VecDeque::new();
        std::mem::swap(&mut pending, &mut self.pending);
        pending.push_back(d);
        proof {
            assert(pending_view(pending@) =~= pv.push(dv));
        }
        self.pending = pending;
    }

    /// Records a file by its path relative to the root, unless its
    /// metadata shows no regular file or a symbolic link.
    pub fn record_file(
        &mut self,
        rel_path: &str,
        is_file: bool,
        is_symlink: bool,
        created_at_ms: i64,
        modified_at_ms: i64,
    )
        ensures
            final(self).queued() == old(self).queued(),
            final(self).scanned() == old(self).scanned(),
            final(self).recorded() == if is_file && !is_symlink {
                old(self).recorded().insert(
                    normalized_path(rel_path@),
                    ShellFileEntry { created_at_ms, modified_at_ms },
                )
            } else {
                old(self).recorded()
            },
    {
        proof {
            use_type_invariant(&*self);
        }
        if !is_file || is_symlink {
            return;
        }
        let key = normalize_snapshot_path(rel_path);
        let mut files = ShellFileSnapshot::new();
        std::mem::swap(&mut files, &mut self.files);
        files.insert(key, ShellFileEntry { created_at_ms, modified_at_ms });
        self.files = files;
    }

    /// The snapshot recorded.
    pub fn finish(self) -> (r: ShellFileSnapshot)
        ensures
            r@ == self.recorded(),
    {
        self.files
    }
}

/// The entries of a directory in name order, as the scan visits them.
pub fn sort_scan_entries(entries: Vec<ScanEntry>) -> (r: Vec<ScanEntry>)
    ensures
        r@.map_values(|e: ScanEntry| (e.file_name@, (e.is_directory, e.is_file))) == sort_entries(
            entries@.map_values(|e: ScanEntry| (e.file_name@, (e.is_directory, e.is_file))),
        ),
{
    let ghost input = entries@.map_values(|e: ScanEntry| (e.file_name@, (e.is_directory, e.is_file)));
    let mut named: Vec<(Vec<char>, (bool, bool))> = Vec::new();
    let mut i: usize = 0;
    while i < entries.len()
        invariant
            i <= entries@.len(),
            input == entries@.map_values(|e: ScanEntry| (e.file_name@, (e.is_directory, e.is_file))),
            named_view(named@) == input.take(i as int),
        decreases entries.len() - i,
    {
        let x = (chars_of(entries[i].file_name.as_str()), (entries[i].is_directory, entries[i].is_file));
        let ghost prev = named@;
        named.push(x);
        proof {
            assert(named_view(prev.push(x)) =~= named_view(prev).push((x.0@, x.1)));
            assert(input.take(i + 1) =~= input.take(i as int).push(input[i as int]));
        }
        i += 1;
    }
    assert(input.take(entries.len() as int) == input);
    let sorted = sort_by_name(named);
    let ghost sv = named_view(sorted@);
    let mut out: Vec<ScanEntry> = Vec::new();
    let mut k: usize = 0;
    while k < sorted.len()
        invariant
            k <= sorted@.len(),
            sv == named_view(sorted@),
            out@.map_values(|e: ScanEntry| (e.file_name@, (e.is_directory, e.is_file))) == sv.take(k as int),
        decreases sorted.len() - k,
    {
        let e = ScanEntry {
            file_name: string_from_chars(sorted[k].0.as_slice()),
            is_directory: (sorted[k].1).0,
            is_file: (sorted[k].1).1,
        };
        let ghost prev = out@;
        out.push(e);
        proof {
            assert(out@.map_values(|e: ScanEntry| (e.file_name@, (e.is_directory, e.is_file))) =~= prev.map_values(
                |e: ScanEntry| (e.file_name@, (e.is_directory, e.is_file)),
            ).push(sv[k as int]));
            assert(sv.take(k + 1) =~= sv.take(k as int).push(sv[k as int]));
        }
        k += 1;
    }
    assert(sv.take(sorted.len() as int) == sv);
    out
}


/// A tree that did not change reports no change.
pub proof fn law_unchanged_snapshot_has_no_changes(snapshot: Map<Seq<char>, ShellFileEntry>)
    ensures
        snapshot_diff(snapshot, snapshot) == Map::<Seq<char>, ShellFileChange>::empty(),
{
    assert(snapshot_diff(snapshot, snapshot) =~= Map::<Seq<char>, ShellFileChange>::empty());
}

/// Every reported change is to a path of one of the two snapshots, and a
/// path of both is only ever reported as updated.
pub proof fn law_changes_come_from_the_snapshots(
    before: Map<Seq<char>, ShellFileEntry>,
    after: Map<Seq<char>, ShellFileEntry>,
    p: Seq<char>,
)
    requires
        snapshot_diff(before, after).dom().contains(p),
    ensures
        before.dom().contains(p) || after.dom().contains(p),
        before.dom().contains(p) && after.dom().contains(p) ==> snapshot_diff(before, after)[p]
            == ShellFileChange::Update && before[p] != after[p],
{
}

} // verus!
