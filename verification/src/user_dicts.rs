//! User-dictionary hot reload.
//!
//! The `user_dicts/` directory is watched by fingerprint (path plus
//! modification time plus size) instead of re-reading files on every
//! check: a stat pass per file decides whether anything changed, and only
//! changed files are re-parsed. Each file's parsed dictionary is kept, so a
//! file that becomes unreadable or corrupt keeps serving its last good
//! contents until it changes again.
//!
//! Files are kept in path order, which is the merge priority of their
//! dictionaries: a scan comes in strict path order and the watcher keeps
//! it.
//!
//! Reading the directory and parsing files is the caller's: it scans the
//! directory, asks [`UserDictWatcher::plan`] which files to (re)load,
//! loads them, and hands the results to [`UserDictWatcher::refresh`].
use vstd::prelude::*;

verus! {

/// A file's identity as far as cheap stat calls can tell: modification
/// time plus size. Content edits move at least one of them.
#[derive(Clone, Copy, PartialEq, Eq, Debug, Structural)]
pub struct FileStamp {
    /// Modification time, in nanoseconds since the Unix epoch (negative
    /// before it).
    pub mtime_nanos: i128,
    /// Size in bytes.
    pub size: u64,
}

/// One tracked file: the stamp at the last load attempt and the parsed
/// dictionary from the last successful load. A broken edit keeps the
/// previous dictionary (last good) while the stamp advances, so the file
/// is retried only when it changes again, not on every check.
pub struct UserDictFile<D> {
    /// The file's path.
    pub path: String,
    /// The stamp at the last load attempt.
    pub stamp: FileStamp,
    /// The dictionary from the last successful load, if any.
    pub dict: Option<D>,
}

/// No path occurs twice among the files.
pub open spec fn paths_distinct<D>(files: Seq<UserDictFile<D>>) -> bool {
    forall|i: int, j: int|
        0 <= i < j < files.len() ==> #[trigger] files[i].path@ != #[trigger] files[j].path@
}

/// Path order: `a` sorts strictly before `b`, character by character (by
/// code point), a proper prefix first. For the files of one directory this
/// is the order of `Path` and of `String`, so it is the alphabetical merge
/// priority of the user dictionaries.
pub open spec fn path_lt(a: Seq<char>, b: Seq<char>) -> bool
    decreases a.len(),
{
    if b.len() == 0 {
        false
    } else if a.len() == 0 {
        true
    } else if a[0] != b[0] {
        a[0] < b[0]
    } else {
        path_lt(a.drop_first(), b.drop_first())
    }
}

/// No path sorts before itself.
pub proof fn lemma_path_lt_irreflexive(a: Seq<char>)
    ensures
        !path_lt(a, a),
    decreases a.len(),
{
    if a.len() > 0 {
        lemma_path_lt_irreflexive(a.drop_first());
    }
}

/// The files are in strict path order.
pub open spec fn paths_sorted<D>(files: Seq<UserDictFile<D>>) -> bool {
    forall|i: int, j: int|
        0 <= i < j < files.len() ==> path_lt(#[trigger] files[i].path@, #[trigger] files[j].path@)
}

/// A directory scan is in strict path order.
pub open spec fn scan_sorted(current: Seq<(String, FileStamp)>) -> bool {
    forall|i: int, j: int|
        0 <= i < j < current.len() ==> path_lt(#[trigger] current[i].0@, #[trigger] current[j].0@)
}

proof fn lemma_sorted_files_distinct<D>(files: Seq<UserDictFile<D>>)
    requires
        paths_sorted(files),
    ensures
        paths_distinct(files),
{
    assert forall|i: int, j: int| 0 <= i < j < files.len() implies #[trigger] files[i].path@ != #[trigger] files[j].path@ by {
        if files[i].path@ == files[j].path@ {
            lemma_path_lt_irreflexive(files[i].path@);
        }
    }
}

proof fn lemma_sorted_scan_distinct(current: Seq<(String, FileStamp)>)
    requires
        scan_sorted(current),
    ensures
        scan_distinct(current),
{
    assert forall|i: int, j: int| 0 <= i < j < current.len() implies #[trigger] current[i].0@ != #[trigger] current[j].0@ by {
        if current[i].0@ == current[j].0@ {
            lemma_path_lt_irreflexive(current[i].0@);
        }
    }
}

/// No path occurs twice in a directory scan.
pub open spec fn scan_distinct(current: Seq<(String, FileStamp)>) -> bool {
    forall|i: int, j: int|
        0 <= i < j < current.len() ==> #[trigger] current[i].0@ != #[trigger] current[j].0@
}

/// Index of the file with path `p`, or -1 when none has it.
pub open spec fn path_index<D>(files: Seq<UserDictFile<D>>, p: Seq<char>) -> int {
    if exists|k: int| 0 <= k < files.len() && #[trigger] files[k].path@ == p {
        choose|k: int| 0 <= k < files.len() && #[trigger] files[k].path@ == p
    } else {
        -1
    }
}

/// Whether the scan found a file at path `p`.
pub open spec fn in_scan(current: Seq<(String, FileStamp)>, p: Seq<char>) -> bool {
    exists|i: int| 0 <= i < current.len() && #[trigger] current[i].0@ == p
}

/// Whether a scanned file must be (re)loaded: it is new, or its stamp moved.
pub open spec fn needs_load<D>(files: Seq<UserDictFile<D>>, p: Seq<char>, stamp: FileStamp) -> bool {
    let k = path_index(files, p);
    k < 0 || files[k].stamp != stamp
}

/// Whether a scan differs from the tracked files: a file was added,
/// edited, or removed.
pub open spec fn scan_changes<D>(files: Seq<UserDictFile<D>>, current: Seq<(String, FileStamp)>) -> bool {
    ||| exists|i: int| 0 <= i < current.len() && #[trigger] needs_load(files, current[i].0@, current[i].1)
    ||| exists|k: int| 0 <= k < files.len() && !#[trigger] in_scan(current, files[k].path@)
}

/// The dictionary a scanned file serves after a refresh, given the result
/// of loading it: a new file serves what loaded (nothing on failure), an
/// unchanged file keeps its dictionary, and an edited file serves the new
/// contents or, when they fail to load, its last good ones.
pub open spec fn next_dict<D>(files: Seq<UserDictFile<D>>, p: Seq<char>, stamp: FileStamp, load: Option<D>) -> Option<
    D,
> {
    let k = path_index(files, p);
    if k < 0 {
        load
    } else if files[k].stamp == stamp {
        files[k].dict
    } else if load is Some {
        load
    } else {
        files[k].dict
    }
}

/// Whether `new` is what the tracked files `old` become after a refresh
/// with the scan `current` and the load results `loads`: exactly the
/// scanned files, in scan order, each with its new stamp and the
/// dictionary it now serves.
pub open spec fn refreshed<D>(
    old: Seq<UserDictFile<D>>,
    current: Seq<(String, FileStamp)>,
    loads: Seq<Option<D>>,
    new: Seq<UserDictFile<D>>,
) -> bool {
    &&& new.len() == current.len()
    &&& forall|i: int|
        0 <= i < current.len() ==> {
            let f = #[trigger] new[i];
            &&& f.path@ == current[i].0@
            &&& f.stamp == current[i].1
            &&& f.dict == next_dict(old, current[i].0@, current[i].1, loads[i])
        }
}

/// After a refresh, the same directory scan is no change: nothing needs
/// loading and no file is missing — a watcher re-checking an untouched
/// directory reports no change and keeps serving what it has.
pub proof fn lemma_refresh_settles<D>(
    old: Seq<UserDictFile<D>>,
    current: Seq<(String, FileStamp)>,
    loads: Seq<Option<D>>,
    new: Seq<UserDictFile<D>>,
)
    requires
        scan_distinct(current),
        refreshed(old, current, loads, new),
    ensures
        !scan_changes(new, current),
        forall|i: int| 0 <= i < current.len() ==> !#[trigger] needs_load(new, current[i].0@, current[i].1),
{
    assert forall|i: int| 0 <= i < current.len() implies !#[trigger] needs_load(new, current[i].0@, current[i].1) by {
        let f = new[i];
        assert(f.path@ == current[i].0@);
        let k = path_index(new, current[i].0@);
        assert(0 <= k < new.len() && new[k].path@ == current[i].0@);
        assert(new[k].path@ == current[k].0@);
        if k != i {
            if k < i {
                assert(current[k].0@ != current[i].0@);
            } else {
                assert(current[i].0@ != current[k].0@);
            }
        }
    }
    assert forall|k: int| 0 <= k < new.len() implies #[trigger] in_scan(current, new[k].path@) by {
        assert(new[k].path@ == current[k].0@);
    }
}

/// How long a check of the user dictionaries stays fresh, in
/// milliseconds: checks are throttled to one per interval, so a keystroke
/// costs a timestamp comparison.
pub const USER_DICT_CHECK_INTERVAL_MS: u64 = 2000;

/// Whether the user dictionaries are due for a check, given the time since
/// the last one (`None`: never checked): never checked, or at least the
/// interval ago.
pub fn check_due(since_last_check_ms: Option<u64>) -> (r: bool)
    ensures
        r == match since_last_check_ms {
            None => true,
            Some(ms) => ms >= USER_DICT_CHECK_INTERVAL_MS,
        },
{
    match since_last_check_ms {
        None => true,
        Some(ms) => ms >= USER_DICT_CHECK_INTERVAL_MS,
    }
}

/// Watches a user-dictionary directory and tracks its files, in scan
/// order, with their stamps and last good dictionaries.
pub struct UserDictWatcher<D> {
    dir: String,
    files: Vec<UserDictFile<D>>,
}

/// The index of the file with path `p` among `files`.
fn lookup<D>(files: &Vec<UserDictFile<D>>, p: &String) -> (r: Option<usize>)
    requires
        paths_distinct(files@),
    ensures
        match r {
            Some(k) => k == path_index(files@, p@) && 0 <= k < files@.len(),
            None => path_index(files@, p@) == -1,
        },
{
    let mut i: usize = 0;
    while i < files.len()
        invariant
            i <= files.len(),
            paths_distinct(files@),
            forall|k: int| 0 <= k < i ==> #[trigger] files@[k].path@ != p@,
        decreases files.len() - i,
    {
        if files[i].path == *p {
            assert(files@[i as int].path@ == p@);
            let ghost c = path_index(files@, p@);
            assert(0 <= c < files@.len() && files@[c].path@ == p@);
            assert(c == i) by {
                if c < i {
                    assert(files@[c].path@ != files@[i as int].path@);
                } else if c > i {
                    assert(files@[i as int].path@ != files@[c].path@);
                }
            }
            return Some(i);
        }
        i += 1;
    }
    None
}

/// Whether the scan has a file at path `p`.
fn scan_has(current: &Vec<(String, FileStamp)>, p: &String) -> (r: bool)
    ensures
        r == in_scan(current@, p@),
{
    let mut i: usize = 0;
    while i < current.len()
        invariant
            i <= current.len(),
            forall|k: int| 0 <= k < i ==> #[trigger] current@[k].0@ != p@,
        decreases current.len() - i,
    {
        if current[i].0 == *p {
            assert(current@[i as int].0@ == p@);
            return true;
        }
        i += 1;
    }
    false
}

impl<D> UserDictWatcher<D> {
    /// No file is tracked twice.
    #[verifier::type_invariant]
    spec fn files_distinct(self) -> bool {
        paths_sorted(self.files@)
    }

    pub closed spec fn spec_dir(self) -> Seq<char> {
        self.dir@
    }

    pub closed spec fn spec_files(self) -> Seq<UserDictFile<D>> {
        self.files@
    }

    /// A watcher of `dir` that tracks no file yet: its first refresh loads
    /// everything the directory holds.
    pub fn new(dir: String) -> (r: Self)
        ensures
            r.spec_dir() == dir@,
            r.spec_files().len() == 0,
    {
        UserDictWatcher { dir, files: Vec::new() }
    }

    /// The watched directory.
    pub fn dir(&self) -> (r: &str)
        ensures
            r@ == self.spec_dir(),
    {
        self.dir.as_str()
    }

    /// The tracked files, in path order — the order their dictionaries are
    /// merged in, so a file sorting earlier takes priority.
    pub fn files(&self) -> (r: &Vec<UserDictFile<D>>)
        ensures
            r@ == self.spec_files(),
            paths_sorted(r@),
            paths_distinct(r@),
    {
        proof {
            use_type_invariant(self);
            lemma_sorted_files_distinct(self.files@);
        }
        &self.files
    }

    /// Which files of a directory scan must be (re)loaded: those that are
    /// new or whose stamp moved.
    pub fn plan(&self, current: &Vec<(String, FileStamp)>) -> (r: Vec<bool>)
        ensures
            r@.len() == current@.len(),
            forall|i: int|
                0 <= i < current@.len() ==> #[trigger] r@[i] == needs_load(
                    self.spec_files(),
                    current@[i].0@,
                    current@[i].1,
                ),
    {
        proof {
            use_type_invariant(self);
            lemma_sorted_files_distinct(self.files@);
        }
        let mut out: Vec<bool> = Vec::new();
        let mut i: usize = 0;
        while i < current.len()
            invariant
                i <= current.len(),
                out@.len() == i,
                paths_distinct(self.files@),
                forall|j: int|
                    0 <= j < i ==> #[trigger] out@[j] == needs_load(self.files@, current@[j].0@, current@[j].1),
            decreases current.len() - i,
        {
            let need = match lookup(&self.files, &current[i].0) {
                None => true,
                Some(k) => self.files[k].stamp != current[i].1,
            };
            out.push(need);
            i += 1;
        }
        out
    }

    /// Takes in a directory scan (`current`: each regular file with its
    /// stamp, in strict path order) and, for each scanned file, the result of
    /// loading it (`None` when it was not loaded or failed to load; only
    /// the files [`Self::plan`] names are looked at). Afterwards the
    /// watcher tracks exactly the scanned files, in scan order, each with
    /// its new stamp and the dictionary it now serves. Returns whether
    /// anything changed — files added, edited, or removed — which is when
    /// the merged dictionary must be rebuilt from [`Self::files`].
    pub fn refresh(&mut self, current: Vec<(String, FileStamp)>, loads: Vec<Option<D>>) -> (changed: bool)
        requires
            scan_sorted(current@),
            loads@.len() == current@.len(),
        ensures
            changed == scan_changes(old(self).spec_files(), current@),
            paths_sorted(final(self).spec_files()),
            final(self).spec_dir() == old(self).spec_dir(),
            refreshed(old(self).spec_files(), current@, loads@, final(self).spec_files()),
    {
        proof {
            use_type_invariant(&*self);
            lemma_sorted_files_distinct(self.files@);
            lemma_sorted_scan_distinct(current@);
        }
        let ghost old_files = self.files@;
        let n = current.len();
        // Files that left the directory.
        let mut removed = false;
        let mut k: usize = 0;
        while k < self.files.len()
            invariant
                k <= self.files.len(),
                self.files@ == old_files,
                removed == exists|j: int| 0 <= j < k && !#[trigger] in_scan(current@, old_files[j].path@),
            decreases self.files.len() - k,
        {
            if !scan_has(&current, &self.files[k].path) {
                removed = true;
            }
            k += 1;
        }
        // Where each scanned file was tracked, if it was.
        let mut idx: Vec<Option<usize>> = Vec::new();
        let mut i: usize = 0;
        while i < n
            invariant
                i <= n == current@.len(),
                idx@.len() == i,
                self.files@ == old_files,
                paths_distinct(old_files),
                forall|j: int|
                    0 <= j < i ==> match #[trigger] idx@[j] {
                        Some(k) => k == path_index(old_files, current@[j].0@) && 0 <= k < old_files.len(),
                        None => path_index(old_files, current@[j].0@) == -1,
                    },
            decreases n - i,
        {
            idx.push(lookup(&self.files, &current[i].0));
            i += 1;
        }
        // Take the tracked files apart.
        let mut taken: Vec<UserDictFile<D>> = Vec::new();
        std::mem::swap(&mut taken, &mut self.files);
        let m = taken.len();
        let mut old_dicts: Vec<Option<D>> = Vec::new();
        let mut old_stamps: Vec<FileStamp> = Vec::new();
        let mut j: usize = 0;
        while taken.len() > 0
            invariant
                j + taken@.len() == old_files.len() == m,
                taken@ == old_files.skip(j as int),
                old_dicts@.len() == j,
                old_stamps@.len() == j,
                forall|q: int| 0 <= q < j ==> #[trigger] old_dicts@[q] == old_files[q].dict,
                forall|q: int| 0 <= q < j ==> #[trigger] old_stamps@[q] == old_files[q].stamp,
            decreases taken@.len(),
        {
            let f = taken.remove(0);
            old_dicts.push(f.dict);
            old_stamps.push(f.stamp);
            j += 1;
            assert(taken@ =~= old_files.skip(j as int));
        }
        // Build the new list in scan order.
        let ghost orig_loads = loads@;
        let mut loads = loads;
        let mut changed = removed;
        let mut files: Vec<UserDictFile<D>> = Vec::new();
        let mut i: usize = 0;
        while i < n
            invariant
                i <= n == current@.len() == loads@.len() == orig_loads.len(),
                idx@.len() == n,
                old_dicts@.len() == old_stamps@.len() == old_files.len(),
                scan_distinct(current@),
                scan_sorted(current@),
                paths_distinct(old_files),
                forall|q: int| 0 <= q < old_files.len() ==> #[trigger] old_stamps@[q] == old_files[q].stamp,
                forall|q: int|
                    0 <= q < n ==> match #[trigger] idx@[q] {
                        Some(k) => k == path_index(old_files, current@[q].0@) && 0 <= k < old_files.len(),
                        None => path_index(old_files, current@[q].0@) == -1,
                    },
                forall|q: int|
                    i <= q < n && (#[trigger] idx@[q]) is Some ==> old_dicts@[idx@[q].unwrap() as int]
                        == old_files[idx@[q].unwrap() as int].dict,
                forall|q: int| i <= q < n ==> #[trigger] loads@[q] == orig_loads[q],
                files@.len() == i,
                forall|q: int|
                    0 <= q < i ==> {
                        let f = #[trigger] files@[q];
                        &&& f.path@ == current@[q].0@
                        &&& f.stamp == current@[q].1
                        &&& f.dict == next_dict(old_files, current@[q].0@, current@[q].1, orig_loads[q])
                    },
                changed == (removed || exists|q: int|
                    0 <= q < i && #[trigger] needs_load(old_files, current@[q].0@, current@[q].1)),
                removed == exists|q: int|
                    0 <= q < old_files.len() && !#[trigger] in_scan(current@, old_files[q].path@),
            decreases n - i,
        {
            let mut load: Option<D> = None;
            loads.set_and_swap(i, &mut load);
            let path = current[i].0.clone();
            let stamp = current[i].1;
            let dict = match idx[i] {
                None => {
                    changed = true;
                    load
                },
                Some(k) => {
                    proof {
                        assert forall|q: int|
                            i < q < n && (#[trigger] idx@[q]) is Some implies idx@[q].unwrap() != k by {
                            let kk = idx@[q].unwrap() as int;
                            if kk == k {
                                assert(old_files[k as int].path@ == current@[i as int].0@);
                                assert(old_files[kk].path@ == current@[q].0@);
                            }
                        }
                    }
                    if old_stamps[k] == stamp {
                        let mut d: Option<D> = None;
                        old_dicts.set_and_swap(k, &mut d);
                        d
                    } else {
                        changed = true;
                        if load.is_some() {
                            load
                        } else {
                            let mut d: Option<D> = None;
                            old_dicts.set_and_swap(k, &mut d);
                            d
                        }
                    }
                },
            };
            assert(needs_load(old_files, current@[i as int].0@, current@[i as int].1) == (idx@[i as int] is None
                || old_stamps@[idx@[i as int].unwrap() as int] != stamp));
            files.push(UserDictFile { path, stamp, dict });
            i += 1;
        }
        proof {
            assert(changed == scan_changes(old_files, current@));
            assert forall|a: int, b: int|
                0 <= a < b < files@.len() implies path_lt(#[trigger] files@[a].path@, #[trigger] files@[b].path@) by {
                assert(path_lt(current@[a].0@, current@[b].0@));
            }
        }
        self.files = files;
        changed
    }
}

} // verus!
