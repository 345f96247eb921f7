//! The commit builder: it gathers what one commit does to the tree of a
//! branch and renders it as an import stream, without a working tree.

use vstd::prelude::*;
use vstd::string::*;
use crate::text::{
    bytes_of, compare_text, contains_text, decimal_text, lemma_lex_order_antisymmetric,
    lemma_lex_order_transitive, lemma_text_order_zero, octal_text, push_decimal, push_octal,
    same_text, sanitize_identity_part, sanitized, text_contains, text_order,
};

verus! {

/// The name under which commits are made where nothing else is configured.
pub const DEFAULT_AUTHOR_NAME: &'static str = "versite[bot]";

/// The address under which commits are made where nothing else is configured.
pub const DEFAULT_AUTHOR_EMAIL: &'static str = "versite[bot]@users.noreply.github.io";

/// The mode of an ordinary file.
pub const REGULAR_FILE_MODE: u32 = 0o100644;

/// A name, an address and a time.
pub type IdentityText = (Seq<char>, Seq<char>, Seq<char>);

/// The texts of an identity.
pub open spec fn identity_text(t: (String, String, String)) -> IdentityText {
    (t.0@, t.1@, t.2@)
}

/// The texts of an optional identity.
pub open spec fn opt_identity_text(t: Option<(String, String, String)>) -> Option<IdentityText> {
    match t {
        Some(t) => Some(identity_text(t)),
        None => None,
    }
}

/// The text of an optional string.
pub open spec fn opt_str(t: Option<String>) -> Option<Seq<char>> {
    match t {
        Some(s) => Some(s@),
        None => None,
    }
}

/// What the surroundings say of who commits and when: the values of the
/// author and committer settings, as found, and the time in seconds since the
/// epoch.
#[derive(Debug)]
pub struct IdentityEnv {
    pub author_name: Option<String>,
    pub author_email: Option<String>,
    pub author_date: Option<String>,
    pub committer_name: Option<String>,
    pub committer_email: Option<String>,
    pub committer_date: Option<String>,
    pub now_secs: u64,
}

/// A file of the commit.
#[derive(Debug, Clone)]
pub struct FileEntry {
    pub path: String,
    pub mode: u32,
    pub data: Vec<u8>,
}

/// What a file of the commit holds.
pub struct FileView {
    pub path: Seq<char>,
    pub mode: u32,
    pub data: Seq<u8>,
}

impl View for FileEntry {
    type V = FileView;

    open spec fn view(&self) -> FileView {
        FileView { path: self.path@, mode: self.mode, data: self.data@ }
    }
}

/// What a commit under construction holds.
pub struct CommitView {
    pub repo_dir: Seq<char>,
    pub refname: Seq<char>,
    pub author: Option<IdentityText>,
    pub committer: Option<IdentityText>,
    pub message: Seq<char>,
    pub from: Option<Seq<char>>,
    pub delete_all: bool,
    /// The paths to delete, in ascending order.
    pub deletes: Seq<Seq<char>>,
    /// The files to add, in ascending order of their paths.
    pub files: Seq<FileView>,
}

/// The paths of the files.
pub open spec fn paths_of(files: Seq<FileView>) -> Seq<Seq<char>> {
    Seq::new(files.len(), |i: int| files[i].path)
}

/// Whether the paths ascend strictly, so that none occurs twice.
pub open spec fn ascending(paths: Seq<Seq<char>>) -> bool {
    forall|i: int, j: int| 0 <= i < j < paths.len() ==> text_order(paths[i], paths[j]) < 0
}

/// How many of the paths, from the first on, come before `path`.
pub open spec fn slot(paths: Seq<Seq<char>>, path: Seq<char>) -> nat
    decreases paths.len(),
{
    if paths.len() > 0 && text_order(paths[0], path) < 0 {
        1 + slot(paths.skip(1), path)
    } else {
        0
    }
}

/// The paths with `path` among them, at its place in the order.
pub open spec fn with_path(paths: Seq<Seq<char>>, path: Seq<char>) -> Seq<Seq<char>> {
    let at = slot(paths, path) as int;
    if at < paths.len() && paths[at] == path {
        paths
    } else {
        paths.insert(at, path)
    }
}

/// The files with `file` among them, at the place of its path in the order;
/// it takes the place of a file with the same path.
pub open spec fn with_file(files: Seq<FileView>, file: FileView) -> Seq<FileView> {
    let at = slot(paths_of(files), file.path) as int;
    if at < files.len() && files[at].path == file.path {
        files.update(at, file)
    } else {
        files.insert(at, file)
    }
}

/// The commit with one more file to add.
pub open spec fn added(c: CommitView, path: Seq<char>, mode: u32, data: Seq<u8>) -> CommitView {
    CommitView { files: with_file(c.files, FileView { path: path, mode: mode, data: data }), ..c }
}

/// The message of a file that could not be read: it names the file and
/// gives the cause.
pub open spec fn unreadable_text(src_name: Seq<char>, cause: Seq<char>) -> Seq<char> {
    "failed to read file for fast-import: "@ + src_name + ": "@ + cause
}

/// What reading a file gave: its bytes, or the cause of the failure.
pub open spec fn read_view(read: Result<Vec<u8>, String>) -> Result<Seq<u8>, Seq<char>> {
    match read {
        Ok(bytes) => Ok(bytes@),
        Err(cause) => Err(cause@),
    }
}

/// The commit with the file `src_name` added under `dest` as an ordinary
/// file, where it was read; else the message of the failure.
pub open spec fn file_added(
    c: CommitView,
    dest: Seq<char>,
    src_name: Seq<char>,
    read: Result<Seq<u8>, Seq<char>>,
) -> Result<CommitView, Seq<char>> {
    match read {
        Ok(bytes) => Ok(added(c, dest, REGULAR_FILE_MODE, bytes)),
        Err(cause) => Err(unreadable_text(src_name, cause)),
    }
}

/// The first `slot` paths come before `path`, and the next one does not.
pub proof fn lemma_slot(paths: Seq<Seq<char>>, path: Seq<char>)
    ensures
        slot(paths, path) <= paths.len(),
        forall|i: int| 0 <= i < slot(paths, path) ==> text_order(#[trigger] paths[i], path) < 0,
        slot(paths, path) < paths.len() ==> text_order(paths[slot(paths, path) as int], path) >= 0,
    decreases paths.len(),
{
    if paths.len() > 0 && text_order(paths[0], path) < 0 {
        let rest = paths.skip(1);
        lemma_slot(rest, path);
        assert forall|i: int| 0 <= i < slot(paths, path) implies text_order(
            #[trigger] paths[i],
            path,
        ) < 0 by {
            if i > 0 {
                assert(paths[i] == rest[i - 1]);
            }
        }
        if slot(paths, path) < paths.len() {
            assert(paths[slot(paths, path) as int] == rest[slot(rest, path) as int]);
        }
    }
}

/// Putting a path at its slot keeps ascending paths ascending.
pub proof fn lemma_insert_ascending(paths: Seq<Seq<char>>, path: Seq<char>)
    requires
        ascending(paths),
    ensures
        ascending(with_path(paths, path)),
{
    lemma_slot(paths, path);
    let at = slot(paths, path) as int;
    if !(at < paths.len() && paths[at] == path) {
        let next = paths.insert(at, path);
        assert forall|i: int, j: int| 0 <= i < j < next.len() implies text_order(next[i], next[j])
            < 0 by {
            if j < at {
                assert(next[i] == paths[i] && next[j] == paths[j]);
            } else if j == at {
                assert(next[i] == paths[i]);
            } else {
                assert(next[j] == paths[j - 1]);
                lemma_text_order_zero(paths[at], path);
                lemma_lex_order_antisymmetric(bytes_of(paths[at]), bytes_of(path));
                if i == at {
                    if j - 1 > at {
                        assert(text_order(paths[at], paths[j - 1]) < 0);
                        lemma_lex_order_transitive(
                            bytes_of(path),
                            bytes_of(paths[at]),
                            bytes_of(paths[j - 1]),
                        );
                    }
                } else if i < at {
                    assert(next[i] == paths[i]);
                    assert(text_order(paths[i], paths[j - 1]) < 0);
                } else {
                    assert(next[i] == paths[i - 1]);
                    assert(text_order(paths[i - 1], paths[j - 1]) < 0);
                }
            }
        }
    }
}

/// After a file is added to files in ascending order, the files are the new
/// file and, of the earlier ones, those with another path: whatever was
/// added in whatever order, the last file added under a path is the one held.
pub proof fn lemma_with_file_members(files: Seq<FileView>, file: FileView)
    requires
        ascending(paths_of(files)),
    ensures
        ascending(paths_of(with_file(files, file))),
        forall|x: FileView| #[trigger]
            with_file(files, file).contains(x) <==> (x == file || (files.contains(x) && x.path
                != file.path)),
{
    let paths = paths_of(files);
    let at = slot(paths, file.path) as int;
    let next = with_file(files, file);
    lemma_slot(paths, file.path);
    lemma_insert_ascending(paths, file.path);
    assert(paths_of(next) =~= with_path(paths, file.path));
    assert forall|i: int| 0 <= i < files.len() && files[i].path == file.path implies i == at by {
        lemma_text_order_zero(files[i].path, file.path);
        assert(paths[i] == files[i].path);
        if i > at {
            assert(text_order(paths[at], paths[i]) < 0);
        }
    }
    assert forall|x: FileView| #[trigger]
        next.contains(x) <==> (x == file || (files.contains(x) && x.path != file.path)) by {
        let replaced = at < files.len() && files[at].path == file.path;
        if next.contains(x) {
            let j = choose|j: int| 0 <= j < next.len() && next[j] == x;
            if j != at {
                let k = if replaced || j < at {
                    j
                } else {
                    j - 1
                };
                assert(files[k] == x);
            }
        }
        if x == file {
            assert(next[at] == file);
        }
        if files.contains(x) && x.path != file.path {
            let k = choose|k: int| 0 <= k < files.len() && files[k] == x;
            let j = if replaced || k < at {
                k
            } else {
                k + 1
            };
            assert(next[j] == x);
        }
    }
}

/// The name as it stands in an identity line: followed by a space, or nothing
/// where the name is empty.
pub open spec fn name_text(name: Seq<char>) -> Seq<char> {
    if name.len() == 0 {
        name
    } else {
        name + " "@
    }
}

/// The time of a commit made `secs` seconds after the epoch, in UTC.
pub open spec fn when_text(secs: u64) -> Seq<char> {
    decimal_text(secs as nat) + " +0000"@
}

/// A setting as it is used: sanitised where it is set, else the fallback.
pub open spec fn setting_or(value: Option<Seq<char>>, fallback: Seq<char>) -> Seq<char> {
    match value {
        Some(v) => sanitized(v),
        None => fallback,
    }
}

/// What the surroundings say, as texts.
pub struct IdentityEnvView {
    pub author_name: Option<Seq<char>>,
    pub author_email: Option<Seq<char>>,
    pub author_date: Option<Seq<char>>,
    pub committer_name: Option<Seq<char>>,
    pub committer_email: Option<Seq<char>>,
    pub committer_date: Option<Seq<char>>,
    pub now_secs: u64,
}

impl View for IdentityEnv {
    type V = IdentityEnvView;

    open spec fn view(&self) -> IdentityEnvView {
        IdentityEnvView {
            author_name: opt_str(self.author_name),
            author_email: opt_str(self.author_email),
            author_date: opt_str(self.author_date),
            committer_name: opt_str(self.committer_name),
            committer_email: opt_str(self.committer_email),
            committer_date: opt_str(self.committer_date),
            now_secs: self.now_secs,
        }
    }
}

/// The author of a commit: the one set on it; else, field by field, the
/// author setting of the surroundings, or the default identity and the
/// current time.
pub open spec fn author_of(c: CommitView, env: IdentityEnvView) -> IdentityText {
    match c.author {
        Some(t) => t,
        None => (
            setting_or(env.author_name, DEFAULT_AUTHOR_NAME@),
            setting_or(env.author_email, DEFAULT_AUTHOR_EMAIL@),
            setting_or(env.author_date, when_text(env.now_secs)),
        ),
    }
}

/// The committer of a commit, given what to fall back on: the one set on it;
/// else, field by field, the committer setting of the surroundings, or the
/// fallback's field.
pub open spec fn committer_with(
    c: CommitView,
    env: IdentityEnvView,
    fallback: IdentityText,
) -> IdentityText {
    match c.committer {
        Some(t) => t,
        None => (
            setting_or(env.committer_name, fallback.0),
            setting_or(env.committer_email, fallback.1),
            setting_or(env.committer_date, fallback.2),
        ),
    }
}

/// The committer of a commit: as set or configured, falling back on the author.
pub open spec fn committer_of(c: CommitView, env: IdentityEnvView) -> IdentityText {
    committer_with(c, env, author_of(c, env))
}

/// The deletion lines of the given paths.
pub open spec fn delete_lines(paths: Seq<Seq<char>>) -> Seq<char>
    decreases paths.len(),
{
    if paths.len() == 0 {
        Seq::empty()
    } else {
        delete_lines(paths.drop_last()) + "D "@ + paths.last() + "\n"@
    }
}

/// The file mode as six octal digits, or more where it needs them.
pub open spec fn mode_text(mode: u32) -> Seq<char> {
    let digits = octal_text(mode as nat);
    if digits.len() < 6 {
        Seq::new((6 - digits.len()) as nat, |i: int| '0') + digits
    } else {
        digits
    }
}

/// What the commit removes from the tree before it adds its files: the whole
/// tree where it clears all, and then no single path is named; else the paths
/// to delete.
pub open spec fn clearing_text(c: CommitView) -> Seq<char> {
    if c.delete_all {
        "deleteall\n"@
    } else {
        delete_lines(c.deletes)
    }
}

/// The stream up to the files: the commit line, the identities, the message,
/// the parent, and either the clearing of the tree or the deletions.
pub open spec fn head_text(c: CommitView, env: IdentityEnvView) -> Seq<char> {
    let author = author_of(c, env);
    let committer = committer_of(c, env);
    "commit "@ + c.refname + "\n"@ + "author "@ + name_text(author.0) + "<"@ + author.1 + "> "@
        + author.2 + "\n"@ + "committer "@ + name_text(committer.0) + "<"@ + committer.1 + "> "@
        + committer.2 + "\n"@ + "data "@ + decimal_text(bytes_of(c.message).len()) + "\n"@
        + c.message + "\n"@ + (match c.from {
        Some(parent) => "from "@ + parent + "\n"@,
        None => Seq::empty(),
    }) + clearing_text(c)
}

/// The two lines that announce a file: its mode and path, and the length of
/// its content.
pub open spec fn file_head_text(f: FileView) -> Seq<char> {
    "M "@ + mode_text(f.mode) + " inline "@ + f.path + "\n"@ + "data "@ + decimal_text(
        f.data.len(),
    ) + "\n"@
}

/// The stream's part for the given files: each announced, then its content
/// and a line end.
pub open spec fn files_bytes(files: Seq<FileView>) -> Seq<u8>
    decreases files.len(),
{
    if files.len() == 0 {
        Seq::empty()
    } else {
        files_bytes(files.drop_last()) + bytes_of(file_head_text(files.last()))
            + files.last().data + seq![10u8]
    }
}

/// The import stream of a commit.
pub open spec fn rendered(c: CommitView, env: IdentityEnvView) -> Seq<u8> {
    bytes_of(head_text(c, env)) + files_bytes(c.files) + bytes_of("done\n"@)
}

/// Whether the diagnostics of the import tool say that it refused to move the
/// branch because the new commit does not descend from the branch's tip.
pub open spec fn is_non_fast_forward(diagnostics: Seq<char>) -> bool {
    text_contains(diagnostics, "Not updating"@) && (text_contains(
        diagnostics,
        "does not contain"@,
    ) || text_contains(diagnostics, "non-fast-forward"@))
}

/// The message of a refused update.
pub open spec fn non_fast_forward_text(refname: Seq<char>, diagnostics: Seq<char>) -> Seq<char> {
    "git fast-import refused to update "@ + refname
        + " (non-fast-forward). The new commit must descend from the current branch tip. Hint: base the import on the tip (set a parent) or recreate/reset the branch.\nFull error: "@
        + diagnostics
}

/// The message of any other failure.
pub open spec fn failed_text(diagnostics: Seq<char>) -> Seq<char> {
    "git fast-import failed: "@ + diagnostics
}

/// Why a commit could not be made.
#[derive(Debug)]
pub enum CommitError {
    /// A file to add could not be read.
    Io(String),
    /// The import tool could not be started.
    Spawn(String),
    /// The branch was not moved: the new commit does not descend from its tip.
    NonFastForward(String),
    /// The import tool failed otherwise.
    ExecutionFailed(String),
}

impl CommitError {
    /// The message of the error.
    pub fn to_string(&self) -> (r: String)
        ensures
            r@ == match *self {
                CommitError::Io(m) => m@,
                CommitError::Spawn(m) => m@,
                CommitError::NonFastForward(m) => m@,
                CommitError::ExecutionFailed(m) => m@,
            },
    {
        match self {
            CommitError::Io(m) => m.clone(),
            CommitError::Spawn(m) => m.clone(),
            CommitError::NonFastForward(m) => m.clone(),
            CommitError::ExecutionFailed(m) => m.clone(),
        }
    }
}

/// Says what went wrong when the import tool failed on the branch `refname`
/// with the given diagnostics.
pub fn classify_failure(refname: &str, diagnostics: &str) -> (e: CommitError)
    ensures
        is_non_fast_forward(diagnostics@) ==> (e matches CommitError::NonFastForward(m) && m@
            == non_fast_forward_text(refname@, diagnostics@)),
        !is_non_fast_forward(diagnostics@) ==> (e matches CommitError::ExecutionFailed(m) && m@
            == failed_text(diagnostics@)),
{
    if contains_text(diagnostics, "Not updating") && (contains_text(diagnostics, "does not contain")
        || contains_text(diagnostics, "non-fast-forward")) {
        let mut m: String = String::from_str("git fast-import refused to update ");
        m.append(refname);
        m.append(
            " (non-fast-forward). The new commit must descend from the current branch tip. Hint: base the import on the tip (set a parent) or recreate/reset the branch.\nFull error: ",
        );
        m.append(diagnostics);
        CommitError::NonFastForward(m)
    } else {
        let mut m: String = String::from_str("git fast-import failed: ");
        m.append(diagnostics);
        CommitError::ExecutionFailed(m)
    }
}

/// The outcome of a run of the import tool: success where it exited with
/// success, else the failure that its diagnostics show.
pub fn import_outcome(refname: &str, success: bool, diagnostics: &str) -> (r: Result<
    (),
    CommitError,
>)
    ensures
        r is Ok <==> success,
        r matches Err(e) ==> {
            &&& is_non_fast_forward(diagnostics@) ==> (e matches CommitError::NonFastForward(m)
                && m@ == non_fast_forward_text(refname@, diagnostics@))
            &&& !is_non_fast_forward(diagnostics@) ==> (e matches CommitError::ExecutionFailed(m)
                && m@ == failed_text(diagnostics@))
        },
{
    if success {
        Ok(())
    } else {
        Err(classify_failure(refname, diagnostics))
    }
}

/// The name as it stands in an identity line.
pub fn name_field(name: &str) -> (r: String)
    ensures
        r@ == name_text(name@),
{
    let mut out: String = String::from_str(name);
    if name.unicode_len() != 0 {
        out.append(" ");
    }
    out
}

/// A setting as it is used: sanitised where it is set, else the fallback.
pub fn get_env_value(value: &Option<String>, fallback: &str) -> (r: String)
    ensures
        r@ == setting_or(opt_str(*value), fallback@),
{
    match value {
        Some(v) => sanitize_identity_part(v.as_str()),
        None => String::from_str(fallback),
    }
}

/// The file mode as six octal digits, or more where it needs them.
pub fn mode_field(mode: u32) -> (r: String)
    ensures
        r@ == mode_text(mode),
{
    let mut digits: String = String::new();
    push_octal(&mut digits, mode as u64);
    let n: usize = digits.as_str().unicode_len();
    let mut out: String = String::new();
    let mut k: usize = 0;
    while n < 6 && k < 6 - n
        invariant
            n == digits@.len(),
            n < 6 ==> k <= 6 - n,
            n >= 6 ==> k == 0,
            out@ == Seq::new(k as nat, |i: int| '0'),
        decreases 6 - k,
    {
        out.push('0');
        proof {
            assert(out@ =~= Seq::new((k + 1) as nat, |i: int| '0'));
        }
        k += 1;
    }
    out.append(digits.as_str());
    proof {
        assert(digits@ =~= octal_text(mode as nat));
        if n >= 6 {
            assert(out@ =~= digits@);
        }
    }
    out
}

/// Appends the bytes of a string.
pub fn push_str(out: &mut Vec<u8>, s: &str)
    ensures
        final(out)@ == old(out)@ + bytes_of(s@),
{
    push_bytes(out, s.as_bytes());
}

/// Appends bytes.
pub fn push_bytes(out: &mut Vec<u8>, bytes: &[u8])
    ensures
        final(out)@ == old(out)@ + bytes@,
{
    let mut i: usize = 0;
    while i < bytes.len()
        invariant
            i <= bytes.len(),
            out@ == old(out)@ + bytes@.take(i as int),
        decreases bytes.len() - i,
    {
        out.push(bytes[i]);
        proof {
            assert(out@ =~= old(out)@ + bytes@.take(i as int + 1));
        }
        i += 1;
    }
    proof {
        assert(bytes@.take(i as int) =~= bytes@);
    }
}

/// One commit under construction: where it goes, what it says, and what it
/// does to the tree.
#[derive(Debug, Clone)]
pub struct Commit {
    repo_dir: String,
    refname: String,
    author: Option<(String, String, String)>,
    committer: Option<(String, String, String)>,
    message: String,
    from: Option<String>,
    delete_all: bool,
    deletes: Vec<String>,
    files: Vec<FileEntry>,
}

impl View for Commit {
    type V = CommitView;

    closed spec fn view(&self) -> CommitView {
        CommitView {
            repo_dir: self.repo_dir@,
            refname: self.refname@,
            author: opt_identity_text(self.author),
            committer: opt_identity_text(self.committer),
            message: self.message@,
            from: opt_str(self.from),
            delete_all: self.delete_all,
            deletes: self.deletes@.map_values(|p: String| p@),
            files: self.files@.map_values(|f: FileEntry| f@),
        }
    }
}

fn path_slot(paths: &Vec<String>, path: &str) -> (at: usize)
    ensures
        at == slot(paths@.map_values(|p: String| p@), path@),
        at <= paths.len(),
{
    let ghost all = paths@.map_values(|p: String| p@);
    let mut j: usize = 0;
    proof {
        assert(all.skip(0) =~= all);
    }
    while j < paths.len()
        invariant
            j <= paths.len(),
            all == paths@.map_values(|p: String| p@),
            slot(all, path@) == j + slot(all.skip(j as int), path@),
        decreases paths.len() - j,
    {
        proof {
            assert(all.skip(j as int).skip(1) =~= all.skip(j as int + 1));
            assert(all.skip(j as int)[0] == paths@[j as int]@);
        }
        if compare_text(paths[j].as_str(), path) >= 0 {
            return j;
        }
        j += 1;
    }
    j
}

fn file_slot(files: &Vec<FileEntry>, path: &str) -> (at: usize)
    ensures
        at == slot(paths_of(files@.map_values(|f: FileEntry| f@)), path@),
        at <= files.len(),
{
    let ghost all = paths_of(files@.map_values(|f: FileEntry| f@));
    let mut j: usize = 0;
    proof {
        assert(all.skip(0) =~= all);
    }
    while j < files.len()
        invariant
            j <= files.len(),
            all == paths_of(files@.map_values(|f: FileEntry| f@)),
            slot(all, path@) == j + slot(all.skip(j as int), path@),
        decreases files.len() - j,
    {
        proof {
            assert(all.skip(j as int).skip(1) =~= all.skip(j as int + 1));
            assert(all.skip(j as int)[0] == files@[j as int].path@);
        }
        if compare_text(files[j].path.as_str(), path) >= 0 {
            return j;
        }
        j += 1;
    }
    j
}

fn clone_identity(t: &Option<(String, String, String)>) -> (r: Option<(String, String, String)>)
    ensures
        opt_identity_text(r) == opt_identity_text(*t),
{
    match t {
        Some(t) => Some((t.0.clone(), t.1.clone(), t.2.clone())),
        None => None,
    }
}

impl Commit {
    /// The deletions and the files stand in ascending order of their paths.
    pub open spec fn wf(&self) -> bool {
        ascending(self@.deletes) && ascending(paths_of(self@.files))
    }

    /// A commit to the branch `refname` of the repository at `repo_dir`, with
    /// an empty message, no parent, and nothing deleted or added.
    pub fn new(repo_dir: &str, refname: &str) -> (r: Commit)
        ensures
            r.wf(),
            r@ == (CommitView {
                repo_dir: repo_dir@,
                refname: refname@,
                author: None,
                committer: None,
                message: Seq::empty(),
                from: None,
                delete_all: false,
                deletes: Seq::empty(),
                files: Seq::empty(),
            }),
    {
        let r = Commit {
            repo_dir: String::from_str(repo_dir),
            refname: String::from_str(refname),
            author: None,
            committer: None,
            message: String::new(),
            from: None,
            delete_all: false,
            deletes: Vec::new(),
            files: Vec::new(),
        };
        proof {
            assert(r@.deletes =~= Seq::empty());
            assert(r@.files =~= Seq::empty());
        }
        r
    }

    /// Where the repository is.
    pub fn repo_dir(&self) -> (r: &str)
        ensures
            r@ == self@.repo_dir,
    {
        self.repo_dir.as_str()
    }

    /// The branch that the commit goes to.
    pub fn refname(&self) -> (r: &str)
        ensures
            r@ == self@.refname,
    {
        self.refname.as_str()
    }

    /// Sets the message.
    pub fn message(self, message: &str) -> (r: Commit)
        ensures
            r@ == (CommitView { message: message@, ..self@ }),
    {
        let mut r = self;
        r.message = String::from_str(message);
        r
    }

    /// Sets the author, overriding what the surroundings say.
    pub fn author(self, name: &str, email: &str, when: &str) -> (r: Commit)
        ensures
            r@ == (CommitView { author: Some((name@, email@, when@)), ..self@ }),
    {
        let mut r = self;
        r.author = Some((String::from_str(name), String::from_str(email), String::from_str(when)));
        r
    }

    /// Sets the committer, overriding what the surroundings say.
    pub fn committer(self, name: &str, email: &str, when: &str) -> (r: Commit)
        ensures
            r@ == (CommitView { committer: Some((name@, email@, when@)), ..self@ }),
    {
        let mut r = self;
        r.committer = Some(
            (String::from_str(name), String::from_str(email), String::from_str(when)),
        );
        r
    }

    /// The time of a commit made `secs` seconds after the epoch, in UTC.
    pub fn now_when(secs: u64) -> (r: String)
        ensures
            r@ == when_text(secs),
    {
        let mut out: String = String::new();
        push_decimal(&mut out, secs);
        out.append(" +0000");
        proof {
            assert(out@ =~= when_text(secs));
        }
        out
    }

    /// Sets the parent: the commit, or the branch, that the new commit follows.
    pub fn parent(self, commit: &str) -> (r: Commit)
        ensures
            r@ == (CommitView { from: Some(commit@), ..self@ }),
    {
        let mut r = self;
        r.from = Some(String::from_str(commit));
        r
    }

    /// Has the commit clear the whole tree before it adds anything. The
    /// stream then says so in place of the single deletions.
    pub fn delete_all(self) -> (r: Commit)
        ensures
            r@ == (CommitView { delete_all: true, ..self@ }),
    {
        let mut r = self;
        r.delete_all = true;
        r
    }

    /// Has the commit delete the path. Deleting a path twice is deleting it once.
    pub fn delete_path(self, path: &str) -> (r: Commit)
        ensures
            r@ == (CommitView { deletes: with_path(self@.deletes, path@), ..self@ }),
            self.wf() ==> r.wf(),
    {
        let mut r = self;
        let at: usize = path_slot(&r.deletes, path);
        let present: bool = at < r.deletes.len() && same_text(r.deletes[at].as_str(), path);
        if !present {
            r.deletes.insert(at, String::from_str(path));
        }
        proof {
            assert(r@.deletes =~= with_path(self@.deletes, path@));
            if self.wf() {
                lemma_insert_ascending(self@.deletes, path@);
            }
        }
        r
    }

    /// Has the commit add a file with the given content. A file added before
    /// under the same path is replaced.
    pub fn add_bytes(self, path: &str, mode: u32, bytes: Vec<u8>) -> (r: Commit)
        ensures
            r@ == added(self@, path@, mode, bytes@),
            self.wf() ==> r.wf(),
    {
        let mut r = self;
        let at: usize = file_slot(&r.files, path);
        let entry = FileEntry { path: String::from_str(path), mode: mode, data: bytes };
        let present: bool = at < r.files.len() && same_text(r.files[at].path.as_str(), path);
        if present {
            r.files.set(at, entry);
        } else {
            r.files.insert(at, entry);
        }
        proof {
            let file = FileView { path: path@, mode: mode, data: bytes@ };
            assert(r@.files =~= with_file(self@.files, file));
            if self.wf() {
                lemma_insert_ascending(paths_of(self@.files), path@);
                assert(paths_of(r@.files) =~= with_path(paths_of(self@.files), path@));
            }
        }
        r
    }

    /// Has the commit add the file `src_name` under `dest_path` as an
    /// ordinary file, given what reading it gave: its content, or the cause of
    /// the failure, which is then the commit's failure.
    pub fn add_file(self, dest_path: &str, src_name: &str, read: Result<Vec<u8>, String>) -> (r:
        Result<Commit, CommitError>)
        ensures
            match file_added(self@, dest_path@, src_name@, read_view(read)) {
                Ok(v) => r matches Ok(c) && c@ == v && (self.wf() ==> c.wf()),
                Err(m) => r matches Err(CommitError::Io(t)) && t@ == m,
            },
    {
        match read {
            Ok(bytes) => Ok(self.add_bytes(dest_path, REGULAR_FILE_MODE, bytes)),
            Err(cause) => {
                let mut m: String = String::from_str("failed to read file for fast-import: ");
                m.append(src_name);
                m.append(": ");
                m.append(cause.as_str());
                Err(CommitError::Io(m))
            },
        }
    }

    /// The author of the commit.
    pub fn resolve_author(&self, env: &IdentityEnv) -> (r: (String, String, String))
        ensures
            identity_text(r) == author_of(self@, env@),
    {
        match &self.author {
            Some(t) => (t.0.clone(), t.1.clone(), t.2.clone()),
            None => {
                let name = get_env_value(&env.author_name, DEFAULT_AUTHOR_NAME);
                let email = get_env_value(&env.author_email, DEFAULT_AUTHOR_EMAIL);
                let now = Commit::now_when(env.now_secs);
                let when = get_env_value(&env.author_date, now.as_str());
                (name, email, when)
            },
        }
    }

    /// The committer of the commit, given what to fall back on.
    pub fn resolve_committer(
        &self,
        env: &IdentityEnv,
        default_name: &str,
        default_email: &str,
        default_when: &str,
    ) -> (r: (String, String, String))
        ensures
            identity_text(r) == committer_with(
                self@,
                env@,
                (default_name@, default_email@, default_when@),
            ),
    {
        match &self.committer {
            Some(t) => (t.0.clone(), t.1.clone(), t.2.clone()),
            None => {
                let name = get_env_value(&env.committer_name, default_name);
                let email = get_env_value(&env.committer_email, default_email);
                let when = get_env_value(&env.committer_date, default_when);
                (name, email, when)
            },
        }
    }

    /// What the commit removes from the tree before it adds its files.
    fn clearing(&self) -> (r: String)
        ensures
            r@ == clearing_text(self@),
    {
        if self.delete_all {
            return String::from_str("deleteall\n");
        }
        let mut out: String = String::new();
        let mut i: usize = 0;
        while i < self.deletes.len()
            invariant
                i <= self.deletes.len(),
                out@ == delete_lines(self@.deletes.take(i as int)),
            decreases self.deletes.len() - i,
        {
            proof {
                assert(self@.deletes.take(i as int + 1).drop_last() =~= self@.deletes.take(
                    i as int,
                ));
                assert(self@.deletes.take(i as int + 1).last() == self.deletes@[i as int]@);
            }
            out.append("D ");
            out.append(self.deletes[i].as_str());
            out.append("\n");
            i += 1;
        }
        proof {
            assert(self@.deletes.take(i as int) =~= self@.deletes);
        }
        out
    }

    /// The stream up to the files.
    fn head(&self, env: &IdentityEnv) -> (r: String)
        ensures
            r@ == head_text(self@, env@),
    {
        let author = self.resolve_author(env);
        let committer = self.resolve_committer(
            env,
            author.0.as_str(),
            author.1.as_str(),
            author.2.as_str(),
        );
        let mut out: String = String::from_str("commit ");
        out.append(self.refname.as_str());
        out.append("\n");
        out.append("author ");
        out.append(name_field(author.0.as_str()).as_str());
        out.append("<");
        out.append(author.1.as_str());
        out.append("> ");
        out.append(author.2.as_str());
        out.append("\n");
        out.append("committer ");
        out.append(name_field(committer.0.as_str()).as_str());
        out.append("<");
        out.append(committer.1.as_str());
        out.append("> ");
        out.append(committer.2.as_str());
        out.append("\n");
        out.append("data ");
        push_decimal(&mut out, self.message.as_str().as_bytes().len() as u64);
        out.append("\n");
        out.append(self.message.as_str());
        out.append("\n");
        let ghost fixed = out@;
        match &self.from {
            Some(parent) => {
                out.append("from ");
                out.append(parent.as_str());
                out.append("\n");
            },
            None => {},
        }
        let ghost with_parent = out@;
        proof {
            assert(with_parent =~= fixed + (match self@.from {
                Some(parent) => "from "@ + parent + "\n"@,
                None => Seq::empty(),
            }));
        }
        let clearing: String = self.clearing();
        out.append(clearing.as_str());
        proof {
            assert(out@ == with_parent + clearing_text(self@));
            assert(out@ =~= head_text(self@, env@));
        }
        out
    }

    /// Renders the commit as an import stream and appends it to `w`.
    pub fn write_to(&self, env: &IdentityEnv, w: &mut Vec<u8>)
        ensures
            final(w)@ == old(w)@ + rendered(self@, env@),
    {
        let head: String = self.head(env);
        push_str(w, head.as_str());
        let ghost start = w@;
        let mut i: usize = 0;
        while i < self.files.len()
            invariant
                i <= self.files.len(),
                start == old(w)@ + bytes_of(head_text(self@, env@)),
                w@ == start + files_bytes(self@.files.take(i as int)),
            decreases self.files.len() - i,
        {
            let file: &FileEntry = &self.files[i];
            let ghost before = w@;
            proof {
                assert(self@.files.take(i as int + 1).drop_last() =~= self@.files.take(i as int));
                assert(self@.files.take(i as int + 1).last() == file@);
            }
            let mut line: String = String::from_str("M ");
            line.append(mode_field(file.mode).as_str());
            line.append(" inline ");
            line.append(file.path.as_str());
            line.append("\n");
            line.append("data ");
            push_decimal(&mut line, file.data.len() as u64);
            line.append("\n");
            push_str(w, line.as_str());
            push_bytes(w, file.data.as_slice());
            w.push(10u8);
            proof {
                assert(w@ =~= start + files_bytes(self@.files.take(i as int + 1)));
            }
            i += 1;
        }
        proof {
            assert(self@.files.take(i as int) =~= self@.files);
        }
        push_str(w, "done\n");
        proof {
            assert(w@ =~= old(w)@ + rendered(self@, env@));
        }
    }

    /// The commit as an import stream.
    pub fn render(&self, env: &IdentityEnv) -> (r: Vec<u8>)
        ensures
            r@ == rendered(self@, env@),
    {
        let mut out: Vec<u8> = Vec::new();
        self.write_to(env, &mut out);
        proof {
            assert(out@ =~= rendered(self@, env@));
        }
        out
    }
}

} // verus!
