//! Batch operations over package directories: partitioning per-directory
//! outcomes, selecting build artifacts, classifying directory listings and
//! computing set differences.

use vstd::multiset::Multiset;
use vstd::prelude::*;

verus! {

/// The exit of an external process, as the caller observed it: whether it
/// exited successfully, and its exit code when one was available.
#[derive(Clone, Copy, PartialEq, Eq, Debug)]
pub struct ProcessStatus {
    pub success: bool,
    pub code: Option<i32>,
}

/// The directories whose process succeeded, kept in input order.
pub open spec fn succeeded_paths(dirs: Seq<String>, sts: Seq<ProcessStatus>) -> Seq<String>
    recommends
        dirs.len() == sts.len(),
    decreases dirs.len(),
{
    if dirs.len() == 0 {
        Seq::empty()
    } else {
        let rest = succeeded_paths(dirs.drop_last(), sts.drop_last());
        if sts.last().success {
            rest.push(dirs.last())
        } else {
            rest
        }
    }
}

/// The directories whose process failed, paired with the exit status, in
/// input order.
pub open spec fn failed_results(dirs: Seq<String>, sts: Seq<ProcessStatus>) -> Seq<
    (String, ProcessStatus),
>
    recommends
        dirs.len() == sts.len(),
    decreases dirs.len(),
{
    if dirs.len() == 0 {
        Seq::empty()
    } else {
        let rest = failed_results(dirs.drop_last(), sts.drop_last());
        if sts.last().success {
            rest
        } else {
            rest.push((dirs.last(), sts.last()))
        }
    }
}

/// The generic heart of every batch command: partitions the directories by
/// the exit status of the external process run in each, into the succeeding
/// paths and the failing paths with their statuses, both in input order.
pub fn partition_results(dirs: Vec<String>, statuses: &Vec<ProcessStatus>) -> (r: (
    Vec<String>,
    Vec<(String, ProcessStatus)>,
))
    requires
        dirs@.len() == statuses@.len(),
    ensures
        r.0@ == succeeded_paths(dirs@, statuses@),
        r.1@ == failed_results(dirs@, statuses@),
{
    let mut success_dirs: Vec<String> = Vec::new();
    let mut failed_dirs: Vec<(String, ProcessStatus)> = Vec::new();
    let n = dirs.len();
    for i in 0..n
        invariant
            n == dirs@.len() == statuses@.len(),
            success_dirs@ == succeeded_paths(dirs@.take(i as int), statuses@.take(i as int)),
            failed_dirs@ == failed_results(dirs@.take(i as int), statuses@.take(i as int)),
    {
        proof {
            assert(dirs@.take(i + 1).drop_last() =~= dirs@.take(i as int));
            assert(statuses@.take(i + 1).drop_last() =~= statuses@.take(i as int));
        }
        if statuses[i].success {
            success_dirs.push(dirs[i].clone());
        } else {
            failed_dirs.push((dirs[i].clone(), statuses[i]));
        }
    }
    proof {
        assert(dirs@.take(n as int) =~= dirs@);
        assert(statuses@.take(n as int) =~= statuses@);
    }
    (success_dirs, failed_dirs)
}

/// Builds every package directory in order and partitions the directories by
/// the exit status of their build process: `Ok` with all directories when
/// every build succeeded, `Err` with the failing directories and their
/// statuses otherwise.  A single failure never drops the rest of the batch.
pub fn build_packages(dirs: Vec<String>, statuses: &Vec<ProcessStatus>) -> (r: Result<
    Vec<String>,
    Vec<(String, ProcessStatus)>,
>)
    requires
        dirs@.len() == statuses@.len(),
    ensures
        match r {
            Ok(succ) => failed_results(dirs@, statuses@).len() == 0 && succ@ == succeeded_paths(
                dirs@,
                statuses@,
            ),
            Err(failed) => failed@.len() > 0 && failed@ == failed_results(dirs@, statuses@),
        },
{
    let (success_dirs, failed_dirs) = partition_results(dirs, statuses);
    if failed_dirs.len() == 0 {
        Ok(success_dirs)
    } else {
        Err(failed_dirs)
    }
}

/// What one `git pull` produced: the exit status and the captured standard
/// output of the process.
#[derive(Clone, PartialEq, Eq, Debug)]
pub struct UpdateOutcome {
    pub status: ProcessStatus,
    pub stdout: String,
}

/// The message that the version-control client prints when a repository had
/// nothing to fetch.
pub open spec fn up_to_date_msg() -> Seq<char> {
    "Already up to date.\n"@
}

/// The exit statuses of a sequence of update outcomes, in order.
pub open spec fn statuses_of(outs: Seq<UpdateOutcome>) -> Seq<ProcessStatus> {
    outs.map_values(|o: UpdateOutcome| o.status)
}

/// The directories whose update succeeded and fetched something, i.e. whose
/// process exited successfully with output other than the up-to-date message.
pub open spec fn changed_paths(dirs: Seq<String>, outs: Seq<UpdateOutcome>) -> Seq<String>
    recommends
        dirs.len() == outs.len(),
    decreases dirs.len(),
{
    if dirs.len() == 0 {
        Seq::empty()
    } else {
        let rest = changed_paths(dirs.drop_last(), outs.drop_last());
        if outs.last().status.success && outs.last().stdout@ != up_to_date_msg() {
            rest.push(dirs.last())
        } else {
            rest
        }
    }
}

/// Updates every package directory in order and partitions the directories by
/// the exit status of their pull process.  `Ok` holds only the directories
/// that actually changed: a directory that was already up to date counts as a
/// success but is left out of the list.  `Err` holds the failing directories
/// with their statuses.
pub fn update_packages(dirs: Vec<String>, outcomes: &Vec<UpdateOutcome>) -> (r: Result<
    Vec<String>,
    Vec<(String, ProcessStatus)>,
>)
    requires
        dirs@.len() == outcomes@.len(),
    ensures
        match r {
            Ok(changed) => failed_results(dirs@, statuses_of(outcomes@)).len() == 0 && changed@
                == changed_paths(dirs@, outcomes@),
            Err(failed) => failed@.len() > 0 && failed@ == failed_results(
                dirs@,
                statuses_of(outcomes@),
            ),
        },
{
    let n = dirs.len();
    let mut statuses: Vec<ProcessStatus> = Vec::new();
    for i in 0..n
        invariant
            n == dirs@.len() == outcomes@.len(),
            statuses@ == statuses_of(outcomes@.take(i as int)),
    {
        statuses.push(outcomes[i].status);
        proof {
            assert(statuses_of(outcomes@.take(i + 1)) =~= statuses_of(
                outcomes@.take(i as int),
            ).push(outcomes@[i as int].status));
        }
    }
    let up_to_date = String::from_str("Already up to date.\n");
    let mut true_success_dirs: Vec<String> = Vec::new();
    for i in 0..n
        invariant
            n == dirs@.len() == outcomes@.len(),
            up_to_date@ == up_to_date_msg(),
            true_success_dirs@ == changed_paths(dirs@.take(i as int), outcomes@.take(i as int)),
    {
        proof {
            assert(dirs@.take(i + 1).drop_last() =~= dirs@.take(i as int));
            assert(outcomes@.take(i + 1).drop_last() =~= outcomes@.take(i as int));
        }
        if outcomes[i].status.success && !(outcomes[i].stdout == up_to_date) {
            true_success_dirs.push(dirs[i].clone());
        }
    }
    proof {
        assert(dirs@.take(n as int) =~= dirs@);
        assert(outcomes@.take(n as int) =~= outcomes@);
    }
    let (_success_dirs, failed_dirs) = partition_results(dirs, &statuses);
    if failed_dirs.len() == 0 {
        Ok(true_success_dirs)
    } else {
        Err(failed_dirs)
    }
}

/// One entry of a directory listing: its full path and whether it is itself
/// a directory.
#[derive(Clone, PartialEq, Eq, Debug)]
pub struct DirEntryInfo {
    pub path: String,
    pub is_dir: bool,
}

/// Why a directory listing was rejected.
#[derive(Clone, Copy, PartialEq, Eq, Debug)]
pub enum DirsError {
    /// The given root path is not a directory.
    NotADirectory,
    /// The root contains an entry that is not a directory, and checking for
    /// wrong entries was requested.
    WrongEntries,
}

impl DirsError {
    /// A printable description of the error.
    pub fn message(&self) -> (r: &'static str)
        ensures
            *self is NotADirectory ==> r@ == "Given Path is not a directory!"@,
            *self is WrongEntries ==> r@ == "AUR Path contains not only directorys, right AUR-dir?"@,
    {
        match self {
            DirsError::NotADirectory => "Given Path is not a directory!",
            DirsError::WrongEntries => "AUR Path contains not only directorys, right AUR-dir?",
        }
    }
}

/// Classifies the listing of the root directory.  The root must be a
/// directory at all; with `warn_wrong_dir` set, every entry must itself be a
/// directory, and the listing is rejected before any path is returned
/// otherwise.  On success the paths come back in listing order, files
/// included when the check is off.
pub fn get_dirs(root_is_dir: bool, entries: &Vec<DirEntryInfo>, warn_wrong_dir: bool) -> (r: Result<
    Vec<String>,
    DirsError,
>)
    ensures
        !root_is_dir ==> (r matches Err(e) && e is NotADirectory),
        root_is_dir && warn_wrong_dir && (exists|i: int|
            0 <= i < entries@.len() && !entries@[i].is_dir) ==> (r matches Err(e)
            && e is WrongEntries),
        root_is_dir && (!warn_wrong_dir || (forall|i: int|
            0 <= i < entries@.len() ==> entries@[i].is_dir)) ==> (r matches Ok(paths) && paths@
            == entries@.map_values(|e: DirEntryInfo| e.path)),
{
    if !root_is_dir {
        return Err(DirsError::NotADirectory);
    }
    let mut paths: Vec<String> = Vec::new();
    let n = entries.len();
    for i in 0..n
        invariant
            root_is_dir,
            n == entries@.len(),
            paths@ == entries@.take(i as int).map_values(|e: DirEntryInfo| e.path),
            forall|j: int| 0 <= j < i ==> warn_wrong_dir ==> entries@[j].is_dir,
    {
        if warn_wrong_dir && !entries[i].is_dir {
            return Err(DirsError::WrongEntries);
        }
        paths.push(entries[i].path.clone());
        proof {
            assert(entries@.take(i + 1).map_values(|e: DirEntryInfo| e.path) =~= entries@.take(
                i as int,
            ).map_values(|e: DirEntryInfo| e.path).push(entries@[i as int].path));
        }
    }
    proof {
        assert(entries@.take(n as int) =~= entries@);
    }
    Ok(paths)
}

/// Whether some string in `v` has the same characters as `s`.
pub fn contains_string(v: &Vec<String>, s: &String) -> (r: bool)
    ensures
        r == crate::seq_views(v@).contains(s@),
{
    let n = v.len();
    for i in 0..n
        invariant
            n == v@.len(),
            forall|j: int| 0 <= j < i ==> v@[j]@ != s@,
    {
        let vi: &String = &v[i];
        if *vi == *s {
            proof {
                assert(crate::seq_views(v@)[i as int] == s@);
            }
            return true;
        }
    }
    proof {
        assert forall|j: int| 0 <= j < v@.len() implies crate::seq_views(v@)[j] != s@ by {
            assert(crate::seq_views(v@)[j] == v@[j]@);
        }
    }
    false
}

/// Extending a prefix of `s` by its next string adds exactly that string's
/// characters to the set of views.
proof fn lemma_views_take_step(s: Seq<String>, i: int)
    requires
        0 <= i < s.len(),
    ensures
        crate::seq_views(s.take(i + 1)).to_set() =~= crate::seq_views(s.take(i)).to_set().insert(
            s[i]@,
        ),
{
    let views_i = crate::seq_views(s.take(i));
    assert(crate::seq_views(s.take(i + 1)) =~= views_i + seq![s[i]@]);
    Seq::lemma_to_set_insert_commutes(views_i, s[i]@);
}

/// The set difference between a full directory set and a known subset of it:
/// every path of `bigger_dir` that does not occur in `containing_dir`, each
/// kept once.  Only the path contents matter, not the order of either input.
pub fn get_set_diff(bigger_dir: Vec<String>, containing_dir: Vec<String>) -> (r: Vec<String>)
    ensures
        crate::seq_views(r@).to_set() =~= crate::seq_views(bigger_dir@).to_set().difference(
            crate::seq_views(containing_dir@).to_set(),
        ),
        crate::seq_views(r@).no_duplicates(),
{
    let mut diff: Vec<String> = Vec::new();
    let n = bigger_dir.len();
    for i in 0..n
        invariant
            n == bigger_dir@.len(),
            crate::seq_views(diff@).to_set() =~= crate::seq_views(
                bigger_dir@.take(i as int),
            ).to_set().difference(crate::seq_views(containing_dir@).to_set()),
            crate::seq_views(diff@).no_duplicates(),
    {
        let ghost prev = diff@;
        let in_containing = contains_string(&containing_dir, &bigger_dir[i]);
        let in_diff = contains_string(&diff, &bigger_dir[i]);
        if !in_containing && !in_diff {
            diff.push(bigger_dir[i].clone());
            proof {
                assert(crate::seq_views(diff@) =~= crate::seq_views(prev) + seq![
                    bigger_dir@[i as int]@,
                ]);
                Seq::lemma_to_set_insert_commutes(crate::seq_views(prev), bigger_dir@[i as int]@);
                assert forall|k: int|
                    0 <= k < crate::seq_views(diff@).len()
                        - 1 implies #[trigger] crate::seq_views(diff@)[k] != crate::seq_views(
                    diff@,
                ).last() by {
                    assert(crate::seq_views(prev)[k] == crate::seq_views(diff@)[k]);
                    assert(crate::seq_views(prev).contains(crate::seq_views(prev)[k]));
                }
            }
        }
        proof {
            lemma_views_take_step(bigger_dir@, i as int);
        }
    }
    proof {
        assert(bigger_dir@.take(n as int) =~= bigger_dir@);
    }
    diff
}

/// Whether two string slices hold the same characters.
pub fn str_eq(a: &str, b: &str) -> (r: bool)
    ensures
        r == (a@ == b@),
{
    let alen = a.unicode_len();
    let blen = b.unicode_len();
    if alen != blen {
        return false;
    }
    for i in 0..alen
        invariant
            alen == a@.len() == b@.len(),
            forall|j: int| 0 <= j < i ==> a@[j] == b@[j],
    {
        if a.get_char(i) != b.get_char(i) {
            return false;
        }
    }
    proof {
        assert(a@ =~= b@);
    }
    true
}

/// The part of a file name after its last dot, or the whole name when it
/// holds no dot.
pub open spec fn last_dot_segment(name: Seq<char>) -> Seq<char> {
    match name.index_of_last('.') {
        Some(i) => name.subrange(i + 1, name.len() as int),
        None => name,
    }
}

/// Whether a file name carries the suffix convention of a built package.
pub fn is_pkg_file_name(name: &str) -> (r: bool)
    ensures
        r == (last_dot_segment(name@) == "zst"@),
{
    let n = name.unicode_len();
    let mut last_dot: Option<usize> = None;
    for i in 0..n
        invariant
            n == name@.len(),
            match last_dot {
                Some(d) => d < i <= n && name@[d as int] == '.' && (forall|j: int|
                    d < j < i ==> name@[j] != '.'),
                None => forall|j: int| 0 <= j < i ==> name@[j] != '.',
            },
    {
        if name.get_char(i) == '.' {
            last_dot = Some(i);
        }
    }
    proof {
        name@.index_of_last_ensures('.');
    }
    match last_dot {
        Some(d) => {
            proof {
                assert(name@.contains('.'));
                let spec_d = name@.index_of_last('.').unwrap();
                assert(spec_d == d as int) by {
                    if spec_d < d as int {
                        assert(name@[d as int] == '.');
                    }
                }
            }
            let sub = name.substring_char(d + 1, n);
            str_eq(sub, "zst")
        },
        None => {
            proof {
                assert(!name@.contains('.')) by {
                    if name@.contains('.') {
                        let w = choose|w: int| 0 <= w < name@.len() && name@[w] == '.';
                        assert(name@[w] != '.');
                    }
                }
            }
            str_eq(name, "zst")
        },
    }
}

/// One entry of a package directory's file listing: the file's name, whether
/// it is a regular file, and its modification time in seconds.
#[derive(Clone, PartialEq, Eq, Debug)]
pub struct FileEntry {
    pub name: String,
    pub is_file: bool,
    pub modified: u64,
}

/// Whether a listing entry is a candidate build artifact: a regular file
/// whose name ends in the package suffix.
pub open spec fn is_pkg_candidate(e: FileEntry) -> bool {
    e.is_file && last_dot_segment(e.name@) == "zst"@
}

/// The candidate build artifacts of a listing, in listing order.
pub open spec fn pkg_candidates(entries: Seq<FileEntry>) -> Seq<FileEntry>
    decreases entries.len(),
{
    if entries.len() == 0 {
        Seq::empty()
    } else {
        let rest = pkg_candidates(entries.drop_last());
        if is_pkg_candidate(entries.last()) {
            rest.push(entries.last())
        } else {
            rest
        }
    }
}

/// Of two entries, the one modified later; the current one wins a tie.
pub open spec fn newer_of(cur: FileEntry, cand: FileEntry) -> FileEntry {
    if cand.modified > cur.modified {
        cand
    } else {
        cur
    }
}

/// Folds `newer_of` over the candidates in order, starting from `acc`.
pub open spec fn scan_latest(cands: Seq<FileEntry>, acc: FileEntry) -> FileEntry
    decreases cands.len(),
{
    if cands.len() == 0 {
        acc
    } else {
        newer_of(scan_latest(cands.drop_last(), acc), cands.last())
    }
}

/// The candidate the selection picks from a non-empty candidate list: the
/// scan starts from the last candidate and an earlier candidate replaces it
/// only when strictly newer.
pub open spec fn latest_pick(cands: Seq<FileEntry>) -> FileEntry
    recommends
        cands.len() > 0,
{
    scan_latest(cands.drop_last(), cands.last())
}

proof fn lemma_scan_latest_max(cands: Seq<FileEntry>, acc: FileEntry)
    ensures
        scan_latest(cands, acc) == acc || cands.contains(scan_latest(cands, acc)),
        acc.modified <= scan_latest(cands, acc).modified,
        forall|i: int| 0 <= i < cands.len() ==> cands[i].modified <= scan_latest(cands, acc).modified,
    decreases cands.len(),
{
    if cands.len() > 0 {
        lemma_scan_latest_max(cands.drop_last(), acc);
        let rest = scan_latest(cands.drop_last(), acc);
        if cands.drop_last().contains(rest) {
            let k = choose|k: int| 0 <= k < cands.drop_last().len() && cands.drop_last()[k] == rest;
            assert(cands[k] == rest);
        }
        assert forall|i: int| 0 <= i < cands.len() implies cands[i].modified <= scan_latest(
            cands,
            acc,
        ).modified by {
            if i < cands.len() - 1 {
                assert(cands.drop_last()[i] == cands[i]);
            }
        }
    }
}

/// The selected candidate is itself one of the candidates, and no candidate
/// was modified later than it.  Which of several equally new candidates wins
/// depends only on their order in the listing.
pub proof fn lemma_latest_pick_is_max(cands: Seq<FileEntry>)
    requires
        cands.len() > 0,
    ensures
        cands.contains(latest_pick(cands)),
        forall|i: int| 0 <= i < cands.len() ==> cands[i].modified <= latest_pick(cands).modified,
{
    lemma_scan_latest_max(cands.drop_last(), cands.last());
    let pick = latest_pick(cands);
    if pick == cands.last() {
        assert(cands[cands.len() - 1] == pick);
    } else {
        let k = choose|k: int| 0 <= k < cands.drop_last().len() && cands.drop_last()[k] == pick;
        assert(cands[k] == pick);
    }
    assert forall|i: int| 0 <= i < cands.len() implies cands[i].modified <= pick.modified by {
        if i < cands.len() - 1 {
            assert(cands.drop_last()[i] == cands[i]);
        }
    }
}

/// Why no build artifact came out of a directory listing.
#[derive(Clone, Copy, PartialEq, Eq, Debug)]
pub enum ArtifactError {
    /// The listing holds no candidate artifact.
    NotFound,
}

impl ArtifactError {
    /// A printable description of the error.
    pub fn message(&self) -> (r: &'static str)
        ensures
            r@ == "Couldn't find a build package-file"@,
    {
        "Couldn't find a build package-file"
    }
}

/// A path with a further component appended, with a separator where the base
/// does not already end in one.
pub open spec fn joined_path(dir: Seq<char>, name: Seq<char>) -> Seq<char> {
    if dir.len() == 0 {
        name
    } else if dir.last() == '/' {
        dir + name
    } else {
        dir + seq!['/'] + name
    }
}

/// Appends one path component to a base path.
pub fn join_path(dir: &str, name: &str) -> (r: String)
    ensures
        r@ == joined_path(dir@, name@),
{
    let dlen = dir.unicode_len();
    if dlen == 0 {
        return String::from_str(name);
    }
    let mut s = String::from_str(dir);
    if dir.get_char(dlen - 1) != '/' {
        s.append("/");
        proof {
            reveal_strlit("/");
            assert(s@ =~= dir@ + seq!['/']);
        }
    }
    s.append(name);
    s
}

/// Selects the build artifact of one package directory from its file
/// listing: the candidate file with the latest modification time, as a full
/// path under `dir`.  Fails with "not found" exactly when the listing holds
/// no candidate.  A tie between equally new candidates goes by listing
/// order, so the pick among ties carries no meaning of its own.
pub fn get_latest_build_package(dir: &str, entries: &Vec<FileEntry>) -> (r: Result<
    String,
    ArtifactError,
>)
    ensures
        pkg_candidates(entries@).len() == 0 <==> (r matches Err(e) && e is NotFound),
        pkg_candidates(entries@).len() > 0 ==> (r matches Ok(p) && p@ == joined_path(
            dir@,
            latest_pick(pkg_candidates(entries@)).name@,
        )),
{
    let mut possible_packages: Vec<FileEntry> = Vec::new();
    let n = entries.len();
    for i in 0..n
        invariant
            n == entries@.len(),
            possible_packages@ == pkg_candidates(entries@.take(i as int)),
    {
        proof {
            assert(entries@.take(i + 1).drop_last() =~= entries@.take(i as int));
        }
        if entries[i].is_file && is_pkg_file_name(entries[i].name.as_str()) {
            possible_packages.push(entries[i].clone_entry());
        }
    }
    proof {
        assert(entries@.take(n as int) =~= entries@);
    }
    let ghost cands = possible_packages@;
    match possible_packages.pop() {
        None => Err(ArtifactError::NotFound),
        Some(mut best) => {
            let m = possible_packages.len();
            proof {
                assert(possible_packages@ =~= cands.drop_last());
            }
            for i in 0..m
                invariant
                    m == possible_packages@.len(),
                    possible_packages@ == cands.drop_last(),
                    cands.len() == m + 1,
                    best == scan_latest(cands.drop_last().take(i as int), cands.last()),
            {
                proof {
                    assert(cands.drop_last().take(i + 1).drop_last() =~= cands.drop_last().take(
                        i as int,
                    ));
                }
                if possible_packages[i].modified > best.modified {
                    best = possible_packages[i].clone_entry();
                }
            }
            proof {
                assert(cands.drop_last().take(m as int) =~= cands.drop_last());
            }
            Ok(join_path(dir, best.name.as_str()))
        },
    }
}

impl FileEntry {
    /// A copy of the entry with the same name, kind and time.
    pub fn clone_entry(&self) -> (r: FileEntry)
        ensures
            r == *self,
    {
        FileEntry { name: self.name.clone(), is_file: self.is_file, modified: self.modified }
    }
}

/// An external command to run: the program and its arguments.  The library
/// only assembles the argument list; running it is the caller's business.
#[derive(Clone, PartialEq, Eq, Debug)]
pub struct CommandSpec {
    pub program: String,
    pub args: Vec<String>,
}

/// Assembles the command that removes the given directories: `rm -R -f`
/// followed by every path, in order.  Returns nothing when there is nothing
/// to remove.
pub fn remove_uninstalled_dirs(paths: Vec<String>) -> (r: Option<CommandSpec>)
    ensures
        paths@.len() == 0 <==> r is None,
        r matches Some(c) ==> c.program@ == "rm"@ && crate::seq_views(c.args@) == seq!["-R"@, "-f"@]
            + crate::seq_views(paths@),
{
    if paths.len() == 0 {
        return None;
    }
    let ghost paths_start = paths@;
    let mut args: Vec<String> = Vec::new();
    args.push(String::from_str("-R"));
    args.push(String::from_str("-f"));
    let mut paths = paths;
    args.append(&mut paths);
    proof {
        assert(crate::seq_views(args@) =~= seq!["-R"@, "-f"@] + crate::seq_views(paths_start));
    }
    Some(CommandSpec { program: String::from_str("rm"), args })
}

/// The artifact paths selected from the readable listings that hold at least
/// one candidate, one per directory, in order.
pub open spec fn selected_packages(
    dirs: Seq<String>,
    listings: Seq<Option<Vec<FileEntry>>>,
) -> Seq<Seq<char>>
    recommends
        dirs.len() == listings.len(),
    decreases dirs.len(),
{
    if dirs.len() == 0 {
        Seq::empty()
    } else {
        let rest = selected_packages(dirs.drop_last(), listings.drop_last());
        match listings.last() {
            Some(entries) => if pkg_candidates(entries@).len() > 0 {
                rest.push(
                    joined_path(dirs.last()@, latest_pick(pkg_candidates(entries@)).name@),
                )
            } else {
                rest
            },
            None => rest,
        }
    }
}

/// The directories that yield no artifact: their listing could not be read,
/// or holds no candidate file.
pub open spec fn failed_install_dirs(
    dirs: Seq<String>,
    listings: Seq<Option<Vec<FileEntry>>>,
) -> Seq<String>
    recommends
        dirs.len() == listings.len(),
    decreases dirs.len(),
{
    if dirs.len() == 0 {
        Seq::empty()
    } else {
        let rest = failed_install_dirs(dirs.drop_last(), listings.drop_last());
        match listings.last() {
            Some(entries) => if pkg_candidates(entries@).len() > 0 {
                rest
            } else {
                rest.push(dirs.last())
            },
            None => rest.push(dirs.last()),
        }
    }
}

/// Selects the newest build artifact of every directory from the given
/// listings (`None` marks a directory whose listing could not be read) and
/// assembles the privileged install command `sudo pacman -U` over the
/// selected artifact paths.  When every directory yields an artifact the
/// command comes back as `Ok`; otherwise as `Err` beside the directories
/// that yielded none.  The command covers the successful directories either
/// way.
pub fn install_packages(dirs: &Vec<String>, listings: &Vec<Option<Vec<FileEntry>>>) -> (r: Result<
    CommandSpec,
    (CommandSpec, Vec<String>),
>)
    requires
        dirs@.len() == listings@.len(),
    ensures
        match r {
            Ok(c) => failed_install_dirs(dirs@, listings@).len() == 0 && c.program@ == "sudo"@
                && crate::seq_views(c.args@) == seq!["pacman"@, "-U"@] + selected_packages(
                dirs@,
                listings@,
            ),
            Err((c, failed)) => failed@.len() > 0 && failed@ == failed_install_dirs(
                dirs@,
                listings@,
            ) && c.program@ == "sudo"@ && crate::seq_views(c.args@) == seq!["pacman"@, "-U"@]
                + selected_packages(dirs@, listings@),
        },
{
    let mut packages: Vec<String> = Vec::new();
    let mut failed_packges: Vec<String> = Vec::new();
    let n = dirs.len();
    for i in 0..n
        invariant
            n == dirs@.len() == listings@.len(),
            crate::seq_views(packages@) == selected_packages(
                dirs@.take(i as int),
                listings@.take(i as int),
            ),
            failed_packges@ == failed_install_dirs(dirs@.take(i as int), listings@.take(i as int)),
    {
        proof {
            assert(dirs@.take(i + 1).drop_last() =~= dirs@.take(i as int));
            assert(listings@.take(i + 1).drop_last() =~= listings@.take(i as int));
        }
        let ghost packages_prev = packages@;
        match &listings[i] {
            Some(entries) => {
                match get_latest_build_package(dirs[i].as_str(), entries) {
                    Ok(path_buf) => {
                        packages.push(path_buf);
                        proof {
                            assert(crate::seq_views(packages@) =~= crate::seq_views(
                                packages_prev,
                            ).push(packages@.last()@));
                        }
                    },
                    Err(_) => {
                        failed_packges.push(dirs[i].clone());
                    },
                }
            },
            None => {
                failed_packges.push(dirs[i].clone());
            },
        }
    }
    proof {
        assert(dirs@.take(n as int) =~= dirs@);
        assert(listings@.take(n as int) =~= listings@);
    }
    let ghost selected = crate::seq_views(packages@);
    let mut inst_args: Vec<String> = Vec::new();
    inst_args.push(String::from_str("pacman"));
    inst_args.push(String::from_str("-U"));
    inst_args.append(&mut packages);
    proof {
        assert(crate::seq_views(inst_args@) =~= seq!["pacman"@, "-U"@] + selected);
    }
    let inst_cmd = CommandSpec { program: String::from_str("sudo"), args: inst_args };
    if failed_packges.len() == 0 {
        Ok(inst_cmd)
    } else {
        Err((inst_cmd, failed_packges))
    }
}

/// What one `git clone` attempt produced: the process could not be started
/// at all, or it exited with the given status.
#[derive(Clone, Copy, PartialEq, Eq, Debug)]
pub enum CloneOutcome {
    LaunchFailed,
    Exited(ProcessStatus),
}

/// The package name a clone link maps to: the part of the link after its
/// last slash, cut before its first dot.
pub open spec fn pkg_name_of_link(link: Seq<char>) -> Seq<char> {
    let seg = match link.index_of_last('/') {
        Some(i) => link.subrange(i + 1, link.len() as int),
        None => link,
    };
    match seg.index_of_first('.') {
        Some(j) => seg.subrange(0, j),
        None => seg,
    }
}

/// The index of the last occurrence of `c` in `s`, if any.
pub fn find_last_char(s: &str, c: char) -> (r: Option<usize>)
    ensures
        r is Some <==> s@.contains(c),
        match r {
            Some(d) => d < s@.len() && s@.index_of_last(c) == Some(d as int),
            None => s@.index_of_last(c) is None,
        },
{
    let n = s.unicode_len();
    let mut last_found: Option<usize> = None;
    for i in 0..n
        invariant
            n == s@.len(),
            match last_found {
                Some(d) => d < i <= n && s@[d as int] == c && (forall|j: int|
                    d < j < i ==> s@[j] != c),
                None => forall|j: int| 0 <= j < i ==> s@[j] != c,
            },
    {
        if s.get_char(i) == c {
            last_found = Some(i);
        }
    }
    proof {
        s@.index_of_last_ensures(c);
        match last_found {
            Some(d) => {
                assert(s@.contains(c));
                let spec_d = s@.index_of_last(c).unwrap();
                assert(spec_d == d as int) by {
                    if spec_d < d as int {
                        assert(s@[d as int] == c);
                    }
                }
            },
            None => {
                assert(!s@.contains(c)) by {
                    if s@.contains(c) {
                        let w = choose|w: int| 0 <= w < s@.len() && s@[w] == c;
                        assert(s@[w] != c);
                    }
                }
            },
        }
    }
    last_found
}

/// The index of the first occurrence of `c` in `s`, if any.
pub fn find_first_char(s: &str, c: char) -> (r: Option<usize>)
    ensures
        r is Some <==> s@.contains(c),
        match r {
            Some(d) => d < s@.len() && s@.index_of_first(c) == Some(d as int),
            None => s@.index_of_first(c) is None,
        },
{
    let n = s.unicode_len();
    for i in 0..n
        invariant
            n == s@.len(),
            forall|j: int| 0 <= j < i ==> s@[j] != c,
    {
        if s.get_char(i) == c {
            proof {
                s@.index_of_first_ensures(c);
                assert(s@.contains(c)) by {
                    assert(s@[i as int] == c);
                }
                let spec_d = s@.index_of_first(c).unwrap();
                assert(spec_d == i as int) by {
                    if spec_d > i as int {
                        assert(s@[i as int] == c);
                    }
                }
            }
            return Some(i);
        }
    }
    proof {
        s@.index_of_first_ensures(c);
        assert(!s@.contains(c)) by {
            if s@.contains(c) {
                let w = choose|w: int| 0 <= w < s@.len() && s@[w] == c;
                assert(s@[w] != c);
            }
        }
    }
    None
}

/// Derives the package name from a clone link.
pub fn pkg_name_from_link(link: &str) -> (r: String)
    ensures
        r@ == pkg_name_of_link(link@),
{
    let n = link.unicode_len();
    let seg: &str = match find_last_char(link, '/') {
        Some(d) => link.substring_char(d + 1, n),
        None => link,
    };
    match find_first_char(seg, '.') {
        Some(j) => String::from_str(seg.substring_char(0, j)),
        None => String::from_str(seg),
    }
}

/// The paths of the successfully cloned repositories: for every link whose
/// clone process ran and exited successfully, the link's package name under
/// the root, in order.
pub open spec fn cloned_paths(
    root: Seq<char>,
    links: Seq<String>,
    outs: Seq<CloneOutcome>,
) -> Seq<Seq<char>>
    recommends
        links.len() == outs.len(),
    decreases links.len(),
{
    if links.len() == 0 {
        Seq::empty()
    } else {
        let rest = cloned_paths(root, links.drop_last(), outs.drop_last());
        match outs.last() {
            CloneOutcome::Exited(st) => if st.success {
                rest.push(joined_path(root, pkg_name_of_link(links.last()@)))
            } else {
                rest
            },
            CloneOutcome::LaunchFailed => rest,
        }
    }
}

/// The links whose clone process could not be started, in order.
pub open spec fn failed_clone_links(links: Seq<String>, outs: Seq<CloneOutcome>) -> Seq<String>
    recommends
        links.len() == outs.len(),
    decreases links.len(),
{
    if links.len() == 0 {
        Seq::empty()
    } else {
        let rest = failed_clone_links(links.drop_last(), outs.drop_last());
        match outs.last() {
            CloneOutcome::LaunchFailed => rest.push(links.last()),
            CloneOutcome::Exited(_) => rest,
        }
    }
}

/// Collects the directories cloned under `current_path` from the per-link
/// clone outcomes: each link whose process exited successfully contributes
/// the path of its package under the root; a link whose process could not be
/// started goes to the failure list; a clone that ran and failed is dropped
/// silently.  `Ok` when no launch failed, `Err` with both lists otherwise.
pub fn download_packages_from_git(
    current_path: &str,
    git_links: Vec<String>,
    outcomes: &Vec<CloneOutcome>,
) -> (r: Result<Vec<String>, (Vec<String>, Vec<String>)>)
    requires
        git_links@.len() == outcomes@.len(),
    ensures
        match r {
            Ok(cloned) => failed_clone_links(git_links@, outcomes@).len() == 0 && crate::seq_views(
                cloned@,
            ) == cloned_paths(current_path@, git_links@, outcomes@),
            Err((cloned, failed)) => failed@.len() > 0 && failed@ == failed_clone_links(
                git_links@,
                outcomes@,
            ) && crate::seq_views(cloned@) == cloned_paths(current_path@, git_links@, outcomes@),
        },
{
    let mut cloned_pkgs: Vec<String> = Vec::new();
    let mut failed_cloned_pkgs: Vec<String> = Vec::new();
    let n = git_links.len();
    for i in 0..n
        invariant
            n == git_links@.len() == outcomes@.len(),
            crate::seq_views(cloned_pkgs@) == cloned_paths(
                current_path@,
                git_links@.take(i as int),
                outcomes@.take(i as int),
            ),
            failed_cloned_pkgs@ == failed_clone_links(
                git_links@.take(i as int),
                outcomes@.take(i as int),
            ),
    {
        proof {
            assert(git_links@.take(i + 1).drop_last() =~= git_links@.take(i as int));
            assert(outcomes@.take(i + 1).drop_last() =~= outcomes@.take(i as int));
        }
        let ghost cloned_prev = cloned_pkgs@;
        match outcomes[i] {
            CloneOutcome::LaunchFailed => {
                failed_cloned_pkgs.push(git_links[i].clone());
            },
            CloneOutcome::Exited(st) => {
                if st.success {
                    let pkg_name = pkg_name_from_link(git_links[i].as_str());
                    cloned_pkgs.push(join_path(current_path, pkg_name.as_str()));
                    proof {
                        assert(crate::seq_views(cloned_pkgs@) =~= crate::seq_views(
                            cloned_prev,
                        ).push(cloned_pkgs@.last()@));
                    }
                }
            },
        }
    }
    proof {
        assert(git_links@.take(n as int) =~= git_links@);
        assert(outcomes@.take(n as int) =~= outcomes@);
    }
    if failed_cloned_pkgs.len() == 0 {
        Ok(cloned_pkgs)
    } else {
        Err((cloned_pkgs, failed_cloned_pkgs))
    }
}

/// The paths whose flag is set, in order.
pub open spec fn kept_paths(paths: Seq<String>, flags: Seq<bool>) -> Seq<String>
    recommends
        paths.len() == flags.len(),
    decreases paths.len(),
{
    if paths.len() == 0 {
        Seq::empty()
    } else {
        let rest = kept_paths(paths.drop_last(), flags.drop_last());
        if flags.last() {
            rest.push(paths.last())
        } else {
            rest
        }
    }
}

/// Keeps the directories whose package the system package manager reported
/// as installed, in order.  The caller queries the manager once per
/// directory and hands the answers in as flags.
pub fn check_installed(paths: Vec<String>, installed: &Vec<bool>) -> (r: Vec<String>)
    requires
        paths@.len() == installed@.len(),
    ensures
        r@ == kept_paths(paths@, installed@),
{
    let mut found_pgks: Vec<String> = Vec::new();
    let n = paths.len();
    for i in 0..n
        invariant
            n == paths@.len() == installed@.len(),
            found_pgks@ == kept_paths(paths@.take(i as int), installed@.take(i as int)),
    {
        proof {
            assert(paths@.take(i + 1).drop_last() =~= paths@.take(i as int));
            assert(installed@.take(i + 1).drop_last() =~= installed@.take(i as int));
        }
        if installed[i] {
            found_pgks.push(paths[i].clone());
        }
    }
    proof {
        assert(paths@.take(n as int) =~= paths@);
        assert(installed@.take(n as int) =~= installed@);
    }
    found_pgks
}

/// Partitioning a batch by exit status is a disjoint cover of the input:
/// the two lists together are exactly as long as the input, and the paths
/// they hold, counted with multiplicity, are exactly the input paths.
pub proof fn lemma_partition_is_cover(dirs: Seq<String>, sts: Seq<ProcessStatus>)
    requires
        dirs.len() == sts.len(),
    ensures
        succeeded_paths(dirs, sts).len() + failed_results(dirs, sts).len() == dirs.len(),
        succeeded_paths(dirs, sts).to_multiset().add(
            failed_results(dirs, sts).map_values(|p: (String, ProcessStatus)| p.0).to_multiset(),
        ) =~= dirs.to_multiset(),
    decreases dirs.len(),
{
    broadcast use vstd::seq_lib::group_to_multiset_ensures;
    broadcast use vstd::multiset::group_multiset_axioms;

    let succ = succeeded_paths(dirs, sts);
    let fail = failed_results(dirs, sts);
    let fst = |p: (String, ProcessStatus)| p.0;
    if dirs.len() == 0 {
        assert(succ.to_multiset() =~= Multiset::empty());
        assert(fail.map_values(fst) =~= Seq::<String>::empty());
        assert(fail.map_values(fst).to_multiset() =~= Multiset::empty());
    } else {
        lemma_partition_is_cover(dirs.drop_last(), sts.drop_last());
        let succ_rest = succeeded_paths(dirs.drop_last(), sts.drop_last());
        let fail_rest = failed_results(dirs.drop_last(), sts.drop_last());
        assert(dirs =~= dirs.drop_last().push(dirs.last()));
        assert(dirs.drop_last().push(dirs.last()).to_multiset() =~= dirs.drop_last().to_multiset()
            .insert(dirs.last()));
        if sts.last().success {
            assert(succ =~= succ_rest.push(dirs.last()));
            assert(succ_rest.push(dirs.last()).to_multiset() =~= succ_rest.to_multiset().insert(
                dirs.last(),
            ));
            assert(fail =~= fail_rest);
        } else {
            assert(succ =~= succ_rest);
            assert(fail =~= fail_rest.push((dirs.last(), sts.last())));
            assert(fail.map_values(fst) =~= fail_rest.map_values(fst).push(dirs.last()));
            assert(fail_rest.map_values(fst).push(dirs.last()).to_multiset() =~= fail_rest
                .map_values(fst).to_multiset().insert(dirs.last()));
        }
    }
}

/// The set difference of a set against a subset of it is exactly the
/// complement: together they give the whole set back, and they share
/// nothing.
pub proof fn lemma_set_diff_is_complement(
    bigger_dir: Seq<String>,
    containing_dir: Seq<String>,
    diff: Seq<String>,
)
    requires
        crate::seq_views(containing_dir).to_set() <= crate::seq_views(bigger_dir).to_set(),
        crate::seq_views(diff).to_set() == crate::seq_views(bigger_dir).to_set().difference(
            crate::seq_views(containing_dir).to_set(),
        ),
    ensures
        crate::seq_views(diff).to_set() + crate::seq_views(containing_dir).to_set()
            =~= crate::seq_views(bigger_dir).to_set(),
        crate::seq_views(diff).to_set().disjoint(crate::seq_views(containing_dir).to_set()),
{
}

/// The set difference depends only on which paths occur in either input,
/// never on the order or multiplicity they occur with.
pub proof fn lemma_set_diff_order_independent(
    bigger_a: Seq<String>,
    containing_a: Seq<String>,
    diff_a: Seq<String>,
    bigger_b: Seq<String>,
    containing_b: Seq<String>,
    diff_b: Seq<String>,
)
    requires
        crate::seq_views(bigger_a).to_set() == crate::seq_views(bigger_b).to_set(),
        crate::seq_views(containing_a).to_set() == crate::seq_views(containing_b).to_set(),
        crate::seq_views(diff_a).to_set() == crate::seq_views(bigger_a).to_set().difference(
            crate::seq_views(containing_a).to_set(),
        ),
        crate::seq_views(diff_b).to_set() == crate::seq_views(bigger_b).to_set().difference(
            crate::seq_views(containing_b).to_set(),
        ),
    ensures
        crate::seq_views(diff_a).to_set() =~= crate::seq_views(diff_b).to_set(),
{
}

} // verus!
