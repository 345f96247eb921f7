//! What the two commands decide: how a deployment becomes a commit, and how
//! the registry is listed.

use vstd::prelude::*;
use vstd::string::*;
use vstd::slice::slice_to_vec;
use crate::git::{
    added, file_added, read_view, with_path, Commit, CommitError, CommitView, REGULAR_FILE_MODE,
};
use crate::text::bytes_of;
use crate::versions::{
    aliases_of, is_listing_order, joined, opt_text, redirect_lines, texts, upserted, Version,
    Versions, VERSIONS_FILE, clone_opt,
};

verus! {

/// The name of this tool, as it signs its commit messages.
pub const TOOL_NAME: &'static str = "versite";

/// The version of this tool, as it signs its commit messages.
pub const TOOL_VERSION: &'static str = "0.1.0";

/// The alias whose version is served from the site root.
pub const DEFAULT_ALIAS: &'static str = "latest";

/// The options that every command takes.
#[derive(Debug)]
pub struct GitArgs {
    /// The remote to publish to.
    pub remote: String,
    /// The branch to publish to.
    pub branch: String,
    /// The commit message, where the default is not wanted.
    pub message: Option<String>,
    /// Whether to push the commit once it is made.
    pub push: bool,
    /// The directory of the branch under which the versions are placed.
    pub deploy_prefix: Option<String>,
}

impl GitArgs {
    /// The remote branch, as the repository names it.
    pub fn remote_rev(&self) -> (r: String)
        ensures
            r@ == self.remote@ + "/"@ + self.branch@,
    {
        let mut out: String = self.remote.clone();
        out.append("/");
        out.append(self.branch.as_str());
        out
    }

    /// The full name of the branch that a deployment commits to.
    pub fn target_ref(&self) -> (r: String)
        ensures
            r@ == "refs/heads/"@ + self.branch@,
    {
        let mut out: String = String::from_str("refs/heads/");
        out.append(self.branch.as_str());
        out
    }
}

/// A deployment: the built site at `path` becomes the version `version`.
#[derive(Debug)]
pub struct DeployArgs {
    /// The directory that holds the built site.
    pub path: String,
    /// The tag of the version.
    pub version: String,
    /// The aliases that shall point to the version.
    pub aliases: Vec<String>,
    /// The title of the version.
    pub title: Option<String>,
}

/// The message of a deployment's commit where none was given.
pub open spec fn default_message(
    commit_sha: Seq<char>,
    version: Seq<char>,
    prefix: Option<Seq<char>>,
) -> Seq<char> {
    "Deployed "@ + commit_sha + " to "@ + version + (match prefix {
        Some(p) => "in "@ + p,
        None => Seq::empty(),
    }) + " with "@ + TOOL_NAME@ + " "@ + TOOL_VERSION@
}

/// A file of the built site: where it goes in the branch, where it was
/// found, and what reading it gave.
#[derive(Debug)]
pub struct SourceFile {
    /// The path in the branch.
    pub dest: String,
    /// The path it was read from.
    pub source: String,
    /// Its content, or the cause for which it could not be read.
    pub read: Result<Vec<u8>, String>,
}

/// The commit with each of the files added, first file first; or the message
/// of the first file that could not be read.
pub open spec fn with_site(c: CommitView, files: Seq<SourceFile>) -> Result<CommitView, Seq<char>>
    decreases files.len(),
{
    if files.len() == 0 {
        Ok(c)
    } else {
        match with_site(c, files.drop_last()) {
            Ok(prev) => file_added(
                prev,
                files.last().dest@,
                files.last().source@,
                read_view(files.last().read),
            ),
            Err(m) => Err(m),
        }
    }
}

/// Where some of the first files cannot be read, the rest does not matter.
pub proof fn lemma_with_site_fails(c: CommitView, files: Seq<SourceFile>, k: int)
    requires
        0 <= k <= files.len(),
        with_site(c, files.take(k)) is Err,
    ensures
        with_site(c, files) == with_site(c, files.take(k)),
    decreases files.len(),
{
    if k == files.len() {
        assert(files.take(k) =~= files);
    } else {
        assert(files.drop_last().take(k) =~= files.take(k));
        lemma_with_site_fails(c, files.drop_last(), k);
    }
}

/// What a deployment finds in the repository and in the source directory.
#[derive(Debug)]
pub struct DeployInput {
    /// The commit that the branch is at, if the branch exists.
    pub parent: Option<String>,
    /// The registry's document, as it shall be written.
    pub versions_json: Vec<u8>,
    /// What reading the ignore file of the working directory gave, if there
    /// is such a file.
    pub gitignore: Option<Result<Vec<u8>, String>>,
    /// Whether the branch has the marker that switches site generation off.
    pub has_nojekyll: bool,
    /// The directory of the branch that the version goes to.
    pub version_path: String,
    /// The files of the built site.
    pub files: Vec<SourceFile>,
}

/// The commit of a deployment before the ignore file is carried over.
pub open spec fn deploy_start(
    refname: Seq<char>,
    message: Seq<char>,
    aliases: Seq<(Seq<char>, Seq<char>)>,
    input: DeployInput,
) -> CommitView {
    let start = CommitView {
        repo_dir: "."@,
        refname: refname,
        author: None,
        committer: None,
        message: message,
        from: opt_text(input.parent),
        delete_all: false,
        deletes: Seq::empty(),
        files: Seq::empty(),
    };
    let with_registry = added(start, VERSIONS_FILE@, REGULAR_FILE_MODE, input.versions_json@);
    added(
        with_registry,
        "_redirects"@,
        REGULAR_FILE_MODE,
        bytes_of(joined(redirect_lines(aliases, DEFAULT_ALIAS@))),
    )
}

/// The commit with the marker set where the branch lacks it, and the
/// version's directory cleared.
pub open spec fn deploy_cleared(c: CommitView, input: DeployInput) -> CommitView {
    let with_marker = if input.has_nojekyll {
        c
    } else {
        added(c, ".nojekyll"@, REGULAR_FILE_MODE, Seq::empty())
    };
    CommitView { deletes: with_path(with_marker.deletes, input.version_path@), ..with_marker }
}

/// The commit of a deployment before the site's files are added; or the
/// message of the failure where the ignore file could not be read.
pub open spec fn deploy_base(
    refname: Seq<char>,
    message: Seq<char>,
    aliases: Seq<(Seq<char>, Seq<char>)>,
    input: DeployInput,
) -> Result<CommitView, Seq<char>> {
    let start = deploy_start(refname, message, aliases, input);
    match input.gitignore {
        Some(read) => match file_added(start, ".gitignore"@, ".gitignore"@, read_view(read)) {
            Ok(c) => Ok(deploy_cleared(c, input)),
            Err(m) => Err(m),
        },
        None => Ok(deploy_cleared(start, input)),
    }
}

/// The commit of a deployment; or the message of the first file that could
/// not be read.
pub open spec fn deployed(
    refname: Seq<char>,
    message: Seq<char>,
    aliases: Seq<(Seq<char>, Seq<char>)>,
    input: DeployInput,
) -> Result<CommitView, Seq<char>> {
    match deploy_base(refname, message, aliases, input) {
        Ok(base) => with_site(base, input.files@),
        Err(m) => Err(m),
    }
}

/// What reading a file gave, once more.
fn copy_read(read: &Result<Vec<u8>, String>) -> (r: Result<Vec<u8>, String>)
    ensures
        read_view(r) == read_view(*read),
{
    match read {
        Ok(bytes) => Ok(slice_to_vec(bytes.as_slice())),
        Err(cause) => Err(cause.clone()),
    }
}

impl DeployArgs {
    /// The message of the deployment's commit: the one given, or else one that
    /// names the deployed commit, the version and this tool.
    pub fn message(&self, git_args: &GitArgs, commit_sha: &str) -> (r: String)
        ensures
            r@ == match git_args.message {
                Some(m) => m@,
                None => default_message(commit_sha@, self.version@, opt_text(git_args.deploy_prefix)),
            },
    {
        match &git_args.message {
            Some(m) => m.clone(),
            None => {
                let mut out: String = String::from_str("Deployed ");
                out.append(commit_sha);
                out.append(" to ");
                out.append(self.version.as_str());
                match &git_args.deploy_prefix {
                    Some(p) => {
                        out.append("in ");
                        out.append(p.as_str());
                    },
                    None => {},
                }
                let ghost named = out@;
                out.append(" with ");
                out.append(TOOL_NAME);
                out.append(" ");
                out.append(TOOL_VERSION);
                proof {
                    assert(named =~= "Deployed "@ + commit_sha@ + " to "@ + self.version@ + (
                    match opt_text(git_args.deploy_prefix) {
                        Some(p) => "in "@ + p,
                        None => Seq::empty(),
                    }));
                }
                out
            },
        }
    }

    /// Registers the deployment's version, with its title and aliases.
    pub fn register(&self, registry: &mut Versions)
        requires
            old(registry).wf(),
        ensures
            final(registry).wf(),
            final(registry)@ == upserted(
                old(registry)@,
                self.version@,
                opt_text(self.title),
                texts(self.aliases@),
            ),
    {
        let mut aliases: Vec<String> = Vec::new();
        let mut i: usize = 0;
        while i < self.aliases.len()
            invariant
                i <= self.aliases.len(),
                aliases@ == self.aliases@.take(i as int),
            decreases self.aliases.len() - i,
        {
            aliases.push(self.aliases[i].clone());
            proof {
                assert(aliases@ =~= self.aliases@.take(i as int + 1));
            }
            i += 1;
        }
        proof {
            assert(self.aliases@.take(i as int) =~= self.aliases@);
        }
        let _ = registry.add(self.version.clone(), clone_opt(&self.title), aliases);
    }

    /// The commit of the deployment: on the branch's tip where it has one, it
    /// writes the registry's document and the redirect document, carries the
    /// ignore file over, sets the marker where the branch lacks it, clears the
    /// version's directory and adds the site's files. It fails with the first
    /// file that could not be read.
    pub fn commit(
        &self,
        git_args: &GitArgs,
        message: &str,
        registry: &Versions,
        input: &DeployInput,
    ) -> (r: Result<Commit, CommitError>)
        requires
            registry.wf(),
        ensures
            match deployed("refs/heads/"@ + git_args.branch@, message@, registry@.aliases, *input) {
                Ok(v) => r matches Ok(c) && c.wf() && c@ == v,
                Err(m) => r matches Err(CommitError::Io(t)) && t@ == m,
            },
    {
        let refname: String = git_args.target_ref();
        let mut commit: Commit = Commit::new(".", refname.as_str()).message(message);
        match &input.parent {
            Some(parent) => {
                commit = commit.parent(parent.as_str());
            },
            None => {},
        }
        commit = commit.add_bytes(
            VERSIONS_FILE,
            REGULAR_FILE_MODE,
            slice_to_vec(input.versions_json.as_slice()),
        );
        let rewrites: String = registry.netlify_rewrites(String::from_str(DEFAULT_ALIAS));
        commit = commit.add_bytes(
            "_redirects",
            REGULAR_FILE_MODE,
            slice_to_vec(rewrites.as_str().as_bytes()),
        );
        proof {
            assert(commit@ == deploy_start(
                "refs/heads/"@ + git_args.branch@,
                message@,
                registry@.aliases,
                *input,
            ));
        }
        match &input.gitignore {
            Some(read) => {
                match commit.add_file(".gitignore", ".gitignore", copy_read(read)) {
                    Ok(c) => {
                        commit = c;
                    },
                    Err(e) => {
                        return Err(e);
                    },
                }
            },
            None => {},
        }
        if !input.has_nojekyll {
            commit = commit.add_bytes(".nojekyll", REGULAR_FILE_MODE, Vec::new());
        }
        commit = commit.delete_path(input.version_path.as_str());
        let ghost base = commit@;
        proof {
            assert(deploy_base(
                "refs/heads/"@ + git_args.branch@,
                message@,
                registry@.aliases,
                *input,
            ) == Ok::<CommitView, Seq<char>>(base));
            assert(input.files@.take(0) =~= Seq::<SourceFile>::empty());
        }
        let mut i: usize = 0;
        while i < input.files.len()
            invariant
                i <= input.files.len(),
                commit.wf(),
                deploy_base(
                    "refs/heads/"@ + git_args.branch@,
                    message@,
                    registry@.aliases,
                    *input,
                ) == Ok::<CommitView, Seq<char>>(base),
                with_site(base, input.files@.take(i as int)) == Ok::<CommitView, Seq<char>>(
                    commit@,
                ),
            decreases input.files.len() - i,
        {
            let file: &SourceFile = &input.files[i];
            proof {
                assert(input.files@.take(i as int + 1).drop_last() =~= input.files@.take(i as int));
                assert(input.files@.take(i as int + 1).last() == *file);
            }
            match commit.add_file(file.dest.as_str(), file.source.as_str(), copy_read(&file.read)) {
                Ok(c) => {
                    commit = c;
                },
                Err(e) => {
                    proof {
                        assert(with_site(base, input.files@.take(i as int + 1)) is Err);
                        lemma_with_site_fails(base, input.files@, i as int + 1);
                    }
                    return Err(e);
                },
            }
            i += 1;
        }
        proof {
            assert(input.files@.take(i as int) =~= input.files@);
        }
        Ok(commit)
    }
}

/// A listing of the registry.
#[derive(Debug)]
pub struct ListArgs {
    /// The tags and aliases to list.
    pub identifiers: Vec<String>,
    /// Whether to give the registry's document instead of a listing.
    pub json: bool,
}

/// One line of a listing, in its parts.
#[derive(Debug)]
pub struct ListLine {
    pub tag: String,
    pub title: Option<String>,
    /// The aliases, separated by commas; none where no alias points to the version.
    pub aliases: Option<String>,
}

/// The texts, separated by a comma and a space.
pub open spec fn comma_joined(items: Seq<Seq<char>>) -> Seq<char>
    decreases items.len(),
{
    if items.len() == 0 {
        Seq::empty()
    } else if items.len() == 1 {
        items[0]
    } else {
        comma_joined(items.drop_last()) + ", "@ + items.last()
    }
}

/// What a line of a listing holds.
pub struct ListLineView {
    pub tag: Seq<char>,
    pub title: Option<Seq<char>>,
    pub aliases: Option<Seq<char>>,
}

impl View for ListLine {
    type V = ListLineView;

    open spec fn view(&self) -> ListLineView {
        ListLineView {
            tag: self.tag@,
            title: opt_text(self.title),
            aliases: opt_text(self.aliases),
        }
    }
}

/// The line of a version to which the given aliases point.
pub open spec fn line_of(version: (Seq<char>, Option<Seq<char>>), aliases: Seq<Seq<char>>) -> ListLineView {
    ListLineView {
        tag: version.0,
        title: version.1,
        aliases: if aliases.len() == 0 {
            None
        } else {
            Some(comma_joined(aliases))
        },
    }
}

/// The line as it is printed: the tag, the title in parentheses, the aliases
/// in square brackets.
pub open spec fn line_text(line: ListLineView) -> Seq<char> {
    line.tag + (match line.title {
        Some(t) => " ("@ + t + ")"@,
        None => Seq::empty(),
    }) + (match line.aliases {
        Some(a) => " ["@ + a + "]"@,
        None => Seq::empty(),
    })
}

impl ListLine {
    /// The line as it is printed, without colours.
    pub fn to_string(&self) -> (r: String)
        ensures
            r@ == line_text(self@),
    {
        let mut out: String = self.tag.clone();
        match &self.title {
            Some(t) => {
                out.append(" (");
                out.append(t.as_str());
                out.append(")");
            },
            None => {},
        }
        let ghost titled = out@;
        proof {
            assert(titled =~= self.tag@ + (match opt_text(self.title) {
                Some(t) => " ("@ + t + ")"@,
                None => Seq::empty(),
            }));
        }
        match &self.aliases {
            Some(a) => {
                out.append(" [");
                out.append(a.as_str());
                out.append("]");
            },
            None => {},
        }
        proof {
            assert(out@ =~= line_text(self@));
        }
        out
    }
}

impl ListArgs {
    /// The line of a version to which the given aliases point.
    pub fn line(version: &Version, aliases: &Vec<String>) -> (r: ListLine)
        ensures
            r@ == line_of(version@, texts(aliases@)),
    {
        let mut all: String = String::new();
        let mut i: usize = 0;
        while i < aliases.len()
            invariant
                i <= aliases.len(),
                all@ == comma_joined(texts(aliases@).take(i as int)),
            decreases aliases.len() - i,
        {
            proof {
                assert(texts(aliases@).take(i as int + 1).drop_last() =~= texts(aliases@).take(
                    i as int,
                ));
            }
            if i > 0 {
                all.append(", ");
            }
            all.append(aliases[i].as_str());
            proof {
                assert(all@ =~= comma_joined(texts(aliases@).take(i as int + 1)));
            }
            i += 1;
        }
        proof {
            assert(texts(aliases@).take(i as int) =~= texts(aliases@));
        }
        ListLine {
            tag: version.tag.clone(),
            title: clone_opt(&version.title),
            aliases: if aliases.len() == 0 {
                None
            } else {
                Some(all)
            },
        }
    }

    /// The lines of the listing: one for each version, in listing order.
    pub fn lines(&self, registry: &Versions) -> (r: Vec<ListLine>)
        ensures
            exists|order: Seq<usize>|
                {
                    &&& is_listing_order(order, registry@.versions)
                    &&& r@.len() == order.len()
                    &&& forall|i: int|
                        0 <= i < r@.len() ==> (#[trigger] r@[i])@ == line_of(
                            registry@.versions[order[i] as int],
                            aliases_of(registry@.aliases, registry@.versions[order[i] as int].0),
                        )
                },
    {
        let order: Vec<usize> = registry.listing_order();
        let mut out: Vec<ListLine> = Vec::new();
        let mut i: usize = 0;
        while i < order.len()
            invariant
                i <= order.len(),
                is_listing_order(order@, registry@.versions),
                out@.len() == i,
                forall|m: int|
                    0 <= m < i ==> (#[trigger] out@[m])@ == line_of(
                        registry@.versions[order@[m] as int],
                        aliases_of(registry@.aliases, registry@.versions[order@[m] as int].0),
                    ),
            decreases order.len() - i,
        {
            let version: &Version = &registry.versions[order[i]];
            let aliases: Vec<String> = registry.aliases_for(version.tag.as_str());
            out.push(ListArgs::line(version, &aliases));
            i += 1;
        }
        proof {
            assert(is_listing_order(order@, registry@.versions));
        }
        out
    }
}

/// The commands of the tool.
#[derive(Debug)]
pub enum Command {
    Deploy(DeployArgs),
    List(ListArgs),
}

} // verus!
