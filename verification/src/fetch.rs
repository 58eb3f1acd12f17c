//! Where package files and package sources come from: the plans for finding a
//! package file and for fetching and unpacking a package's sources.
use vstd::prelude::*;
use crate::actions::{
    action_views, lit, push_action, push_string, strings2, Action, ActionView, CommandSpec,
    CommandView,
};
use crate::package::{Package, PackageView};
use crate::text::{chars_of, concat2, concat3, concat4, copy_string, range_is, split_by, split_ranges, text_of, views, Sep, sep_pred, range_texts};

verus! {

/// Whether `s` ends with `suffix`.
pub open spec fn ends_with(s: Seq<char>, suffix: Seq<char>) -> bool {
    s.len() >= suffix.len() && s.subrange(s.len() - suffix.len(), s.len() as int) == suffix
}

/// Whether `t` occurs in `s`.
pub open spec fn contains_text(s: Seq<char>, t: Seq<char>) -> bool {
    exists|i: int| 0 <= i && i + t.len() <= s.len() && #[trigger] s.subrange(i, i + t.len()) == t
}

/// Whether a source is a git repository: it ends in `.git`, or it is on
/// github.com and is no tarball.
pub open spec fn is_git_source(source: Seq<char>) -> bool {
    ends_with(source, ".git"@) || (contains_text(source, "github.com"@) && !contains_text(
        source,
        ".tar"@,
    ))
}

/// The file name of a downloaded archive: the last `/`-separated piece of its URL.
pub open spec fn archive_name(source: Seq<char>) -> Seq<char> {
    split_by(source, |c: char| c == '/').last()
}

/// The directory in which the sources of package `name` are unpacked.
pub open spec fn spec_work_dir(name: Seq<char>) -> Seq<char> {
    "/tmp/rad/build/"@ + name
}

/// A command run in the caller's directory, without extra environment.
pub open spec fn here(program: Seq<char>, args: Seq<Seq<char>>) -> CommandView {
    CommandView { program, args, dir: None, env: Seq::empty() }
}

/// Where the sources end up once the steps have run.
#[derive(Debug, PartialEq, Eq)]
pub enum SourceDir {
    /// In this directory.
    At(String),
    /// In the first of these directories that exists, or else in the first
    /// subdirectory of `within`.
    Search { candidates: Vec<String>, within: String },
}

/// The model of a `SourceDir`.
pub enum SourceDirView {
    At(Seq<char>),
    Search { candidates: Seq<Seq<char>>, within: Seq<char> },
}

impl View for SourceDir {
    type V = SourceDirView;

    open spec fn view(&self) -> SourceDirView {
        match self {
            SourceDir::At(d) => SourceDirView::At(d@),
            SourceDir::Search { candidates, within } => SourceDirView::Search {
                candidates: views(candidates@),
                within: within@,
            },
        }
    }
}

/// How the sources of a package are fetched and unpacked.
#[derive(Debug, PartialEq, Eq)]
pub struct SourcePlan {
    pub steps: Vec<Action>,
    pub source_dir: SourceDir,
}

/// The steps of fetching the sources of `pkg`.
pub open spec fn spec_source_steps(pkg: PackageView) -> Seq<ActionView> {
    let work_dir = spec_work_dir(pkg.name);
    let make = ActionView::MakeDir { path: work_dir, failure: "cannot create build dir: "@ };
    if is_git_source(pkg.source) {
        seq![
            make,
            ActionView::Say("[rad] git detected. Cloning "@ + pkg.source + "..."@),
            ActionView::Step {
                command: here("git"@, seq!["clone"@, "--recursive"@, pkg.source, work_dir]),
                start_failure: "git clone failed: "@,
                failure: "git clone failed"@,
            },
        ]
    } else {
        let name = archive_name(pkg.source);
        let path = work_dir + "/"@ + name;
        seq![
            make,
            ActionView::Say("[rad] downloading "@ + pkg.source + "..."@),
            ActionView::Step {
                command: here("wget"@, seq!["-c"@, pkg.source, "-O"@, path]),
                start_failure: "download failed: "@,
                failure: "download failed"@,
            },
            ActionView::Say("[rad] extracting "@ + name + "..."@),
            ActionView::Step {
                command: if ends_with(path, ".zip"@) {
                    here("unzip"@, seq![path, "-d"@, work_dir])
                } else {
                    here("tar"@, seq!["-xf"@, path, "-C"@, work_dir])
                },
                start_failure: "extraction failed: "@,
                failure: "extraction failed"@,
            },
        ]
    }
}

/// Where the sources of `pkg` end up: the clone itself, or the unpacked
/// `name-version` or `name` directory, or else the first directory unpacked.
pub open spec fn spec_source_dir(pkg: PackageView) -> SourceDirView {
    let work_dir = spec_work_dir(pkg.name);
    if is_git_source(pkg.source) {
        SourceDirView::At(work_dir)
    } else {
        SourceDirView::Search {
            candidates: seq![
                work_dir + "/"@ + pkg.name + "-"@ + pkg.version,
                work_dir + "/"@ + pkg.name,
            ],
            within: work_dir,
        }
    }
}

/// Whether `s` ends with `suffix`.
pub fn text_ends_with(s: &str, suffix: &str) -> (r: bool)
    ensures
        r == ends_with(s@, suffix@),
{
    let v = chars_of(s);
    let n = suffix.unicode_len();
    if n > v.len() {
        return false;
    }
    range_is(&v, v.len() - n, v.len(), suffix)
}

/// Whether `t` occurs in `s`.
pub fn text_contains(s: &str, t: &str) -> (r: bool)
    ensures
        r == contains_text(s@, t@),
{
    let v = chars_of(s);
    let n = t.unicode_len();
    if n > v.len() {
        proof {
            if contains_text(s@, t@) {
                let i = choose|i: int| 0 <= i && i + t@.len() <= s@.len() && #[trigger] s@.subrange(i, i + t@.len()) == t@;
            }
        }
        return false;
    }
    let last = v.len() - n;
    let mut i: usize = 0;
    loop
        invariant
            v@ == s@,
            n == t@.len(),
            n <= v@.len(),
            last == v@.len() - n,
            last + n == v.len(),
            i <= last,
            forall|j: int| 0 <= j < i ==> #[trigger] s@.subrange(j, j + n) != t@,
        decreases last - i,
    {
        if range_is(&v, i, i + n, t) {
            return true;
        }
        if i == last {
            proof {
                if contains_text(s@, t@) {
                    let j = choose|j: int|
                        0 <= j && j + t@.len() <= s@.len() && #[trigger] s@.subrange(j, j + t@.len())
                            == t@;
                    assert(s@.subrange(j, j + n) != t@);
                }
            }
            return false;
        }
        i = i + 1;
    }
}

/// Whether `source` names a git repository rather than an archive.
pub fn is_git(source: &str) -> (r: bool)
    ensures
        r == is_git_source(source@),
{
    text_ends_with(source, ".git") || (text_contains(source, "github.com") && !text_contains(
        source,
        ".tar",
    ))
}

/// The file name of the archive at `source`: what follows its last `/`.
pub fn archive_file_name(source: &str) -> (r: String)
    ensures
        r@ == archive_name(source@),
{
    let v = chars_of(source);
    let rs = split_ranges(&v, 0, v.len(), Sep::Char('/'));
    assert(v@.subrange(0, v@.len() as int) =~= v@);
    assert(sep_pred(Sep::Char('/')) =~= (|c: char| c == '/'));
    proof {
        crate::text::lemma_split_by_nonempty(source@, |c: char| c == '/');
    }
    let (a, b) = rs[rs.len() - 1];
    assert(range_texts(v@, rs@)[rs@.len() - 1] == v@.subrange(a as int, b as int));
    text_of(source, a, b)
}

fn here_cmd(program: &str, args: Vec<String>) -> (r: CommandSpec)
    ensures
        r@ == here(program@, views(args@)),
{
    let r = CommandSpec { program: lit(program), args, dir: None, env: Vec::new() };
    assert(crate::actions::env_views(r.env@) =~= Seq::<(Seq<char>, Seq<char>)>::empty());
    r
}

/// Plans fetching and unpacking the sources of `pkg`: a git clone, or a
/// download and an extraction with `unzip` or `tar`.
pub fn download_and_extract(pkg: &Package) -> (r: SourcePlan)
    ensures
        action_views(r.steps@) == spec_source_steps(pkg@),
        r.source_dir@ == spec_source_dir(pkg@),
{
    let work_dir = concat2("/tmp/rad/build/", pkg.name.as_str());
    let mut steps: Vec<Action> = Vec::new();
    push_action(
        &mut steps,
        Action::MakeDir { path: copy_string(&work_dir), failure: lit("cannot create build dir: ") },
    );
    if is_git(pkg.source.as_str()) {
        push_action(
            &mut steps,
            Action::Say(concat3("[rad] git detected. Cloning ", pkg.source.as_str(), "...")),
        );
        let mut args = strings2(lit("clone"), lit("--recursive"));
        push_string(&mut args, copy_string(&pkg.source));
        push_string(&mut args, copy_string(&work_dir));
        assert(views(args@) =~= seq!["clone"@, "--recursive"@, pkg.source@, work_dir@]);
        push_action(
            &mut steps,
            Action::Step {
                command: here_cmd("git", args),
                start_failure: lit("git clone failed: "),
                failure: lit("git clone failed"),
            },
        );
        assert(action_views(steps@) =~= spec_source_steps(pkg@));
        SourcePlan { steps, source_dir: SourceDir::At(work_dir) }
    } else {
        let name = archive_file_name(pkg.source.as_str());
        let path = concat3(work_dir.as_str(), "/", name.as_str());
        push_action(
            &mut steps,
            Action::Say(concat3("[rad] downloading ", pkg.source.as_str(), "...")),
        );
        let mut args = strings2(lit("-c"), copy_string(&pkg.source));
        push_string(&mut args, lit("-O"));
        push_string(&mut args, copy_string(&path));
        assert(views(args@) =~= seq!["-c"@, pkg.source@, "-O"@, path@]);
        push_action(
            &mut steps,
            Action::Step {
                command: here_cmd("wget", args),
                start_failure: lit("download failed: "),
                failure: lit("download failed"),
            },
        );
        push_action(&mut steps, Action::Say(concat3("[rad] extracting ", name.as_str(), "...")));
        let extract = if text_ends_with(path.as_str(), ".zip") {
            let mut a = strings2(copy_string(&path), lit("-d"));
            push_string(&mut a, copy_string(&work_dir));
            assert(views(a@) =~= seq![path@, "-d"@, work_dir@]);
            here_cmd("unzip", a)
        } else {
            let mut a = strings2(lit("-xf"), copy_string(&path));
            push_string(&mut a, lit("-C"));
            push_string(&mut a, copy_string(&work_dir));
            assert(views(a@) =~= seq!["-xf"@, path@, "-C"@, work_dir@]);
            here_cmd("tar", a)
        };
        push_action(
            &mut steps,
            Action::Step {
                command: extract,
                start_failure: lit("extraction failed: "),
                failure: lit("extraction failed"),
            },
        );
        assert(action_views(steps@) =~= spec_source_steps(pkg@));
        let versioned = concat4(work_dir.as_str(), "/", pkg.name.as_str(), "-");
        let mut versioned = versioned;
        versioned.append(pkg.version.as_str());
        let candidates = strings2(versioned, concat3(work_dir.as_str(), "/", pkg.name.as_str()));
        SourcePlan { steps, source_dir: SourceDir::Search { candidates, within: work_dir } }
    }
}

/// Where a package file is looked for, and how it is fetched when it is not.
#[derive(Debug, PartialEq, Eq)]
pub struct FetchPlan {
    /// The package file in the current directory, used when it exists.
    pub local_path: String,
    /// The notice printed when the local file is used.
    pub local_notice: String,
    /// The steps that download the package file from the repository.
    pub steps: Vec<Action>,
    /// Where the downloaded package file lands.
    pub dest: String,
}

/// The steps that download the package file of `name` from `repo_url`.
pub open spec fn spec_fetch_steps(name: Seq<char>, repo_url: Seq<char>) -> Seq<ActionView> {
    let url = repo_url + "/"@ + name + ".toml"@;
    seq![
        ActionView::CreateDir("/tmp/rad/tomls"@),
        ActionView::Say("[rad] fetching toml from "@ + url + " repository..."@),
        ActionView::Step {
            command: here("wget"@, seq!["-q"@, "-O"@, "/tmp/rad/tomls/"@ + name + ".toml"@, url]),
            start_failure: "wget failed: "@,
            failure: "couldn't find package '"@ + name + "' locally or in remote repo."@,
        },
    ]
}

/// Plans finding the package file of `pkg_name`: `./<name>.toml` if it is
/// there, else a download from `<repo_url>/<name>.toml`.
pub fn fetch_package(pkg_name: &str, repo_url: &str) -> (r: FetchPlan)
    ensures
        r.local_path@ == pkg_name@ + ".toml"@,
        r.local_notice@ == "[rad] using local "@ + pkg_name@ + ".toml"@,
        r.dest@ == "/tmp/rad/tomls/"@ + pkg_name@ + ".toml"@,
        action_views(r.steps@) == spec_fetch_steps(pkg_name@, repo_url@),
{
    let local_path = concat2(pkg_name, ".toml");
    let local_notice = concat2("[rad] using local ", local_path.as_str());
    let url = concat4(repo_url, "/", pkg_name, ".toml");
    let dest = concat3("/tmp/rad/tomls/", pkg_name, ".toml");
    let mut steps: Vec<Action> = Vec::new();
    push_action(&mut steps, Action::CreateDir(lit("/tmp/rad/tomls")));
    push_action(
        &mut steps,
        Action::Say(concat3("[rad] fetching toml from ", url.as_str(), " repository...")),
    );
    let mut args = strings2(lit("-q"), lit("-O"));
    push_string(&mut args, copy_string(&dest));
    push_string(&mut args, url);
    assert(views(args@) =~= seq!["-q"@, "-O"@, dest@, url@]);
    push_action(
        &mut steps,
        Action::Step {
            command: here_cmd("wget", args),
            start_failure: lit("wget failed: "),
            failure: concat3("couldn't find package '", pkg_name, "' locally or in remote repo."),
        },
    );
    assert(action_views(steps@) =~= spec_fetch_steps(pkg_name@, repo_url@));
    FetchPlan { local_path, local_notice, steps, dest }
}

/// The first of `candidates`, from index `i` on, that `exists` marks as existing.
pub open spec fn first_existing(candidates: Seq<Seq<char>>, exists: Seq<bool>, i: int) -> Option<Seq<char>>
    decreases candidates.len() - i,
{
    if i < 0 || i >= candidates.len() {
        None
    } else if i < exists.len() && exists[i] {
        Some(candidates[i])
    } else {
        first_existing(candidates, exists, i + 1)
    }
}

/// Where the sources are, given whether each candidate exists and what
/// listing the work directory gave (its first directory, or why it could not
/// be listed): the clone itself; else the first candidate that exists; else
/// the first directory unpacked; else an error.
pub open spec fn spec_found_source_dir(
    dir: SourceDirView,
    exists: Seq<bool>,
    listing: Result<Option<Seq<char>>, Seq<char>>,
) -> Result<Seq<char>, Seq<char>> {
    match dir {
        SourceDirView::At(d) => Ok(d),
        SourceDirView::Search { candidates, .. } => match first_existing(candidates, exists, 0) {
            Some(d) => Ok(d),
            None => match listing {
                Ok(Some(d)) => Ok(d),
                Ok(None) => Err("could not find extracted source directory"@),
                Err(e) => Err(e),
            },
        },
    }
}

/// Chooses where the sources are, from whether each candidate of `dir`
/// exists (in order) and what listing the work directory gave.
pub fn choose_source_dir(
    dir: &SourceDir,
    exists: &Vec<bool>,
    listing: Result<Option<String>, String>,
) -> (r: Result<String, String>)
    ensures
        match r {
            Ok(d) => spec_found_source_dir(dir@, exists@, listing_view(listing)) == Ok::<
                Seq<char>,
                Seq<char>,
            >(d@),
            Err(e) => spec_found_source_dir(dir@, exists@, listing_view(listing)) == Err::<
                Seq<char>,
                Seq<char>,
            >(e@),
        },
{
    match dir {
        SourceDir::At(d) => Ok(copy_string(d)),
        SourceDir::Search { candidates, .. } => {
            let ghost cs = views(candidates@);
            let mut i: usize = 0;
            while i < candidates.len()
                invariant
                    i <= candidates@.len(),
                    cs == views(candidates@),
                    dir@ is Search,
                    dir@->Search_candidates == cs,
                    first_existing(cs, exists@, 0) == first_existing(cs, exists@, i as int),
                decreases candidates@.len() - i,
            {
                if i < exists.len() && exists[i] {
                    assert(cs[i as int] == candidates@[i as int]@);
                    assert(first_existing(cs, exists@, i as int) == Some(candidates@[i as int]@));
                    return Ok(copy_string(&candidates[i]));
                }
                i = i + 1;
            }
            assert(first_existing(cs, exists@, i as int) is None);
            match listing {
                Ok(Some(d)) => Ok(d),
                Ok(None) => Err(lit("could not find extracted source directory")),
                Err(e) => Err(e),
            }
        },
    }
}

/// The model of a listing of the work directory.
pub open spec fn listing_view(listing: Result<Option<String>, String>) -> Result<Option<Seq<char>>, Seq<char>> {
    match listing {
        Ok(Some(d)) => Ok(Some(d@)),
        Ok(None) => Ok(None),
        Err(e) => Err(e@),
    }
}

/// Where the package file of `name` is read from: the local file when it
/// exists, else where the download lands.
pub open spec fn spec_package_file(name: Seq<char>, local_exists: bool) -> Seq<char> {
    if local_exists {
        name + ".toml"@
    } else {
        "/tmp/rad/tomls/"@ + name + ".toml"@
    }
}

/// What finding the package file of `name` does: a notice when the local file
/// is used, else the download from `repo_url`.
pub open spec fn spec_package_file_steps(name: Seq<char>, repo_url: Seq<char>, local_exists: bool) -> Seq<
    ActionView,
> {
    if local_exists {
        seq![ActionView::Say("[rad] using local "@ + name + ".toml"@)]
    } else {
        spec_fetch_steps(name, repo_url)
    }
}

/// Chooses the package file of `pkg_name`, given whether `./<name>.toml`
/// exists: the path to read, and the steps to carry out before reading it.
pub fn choose_package_file(pkg_name: &str, repo_url: &str, local_exists: bool) -> (r: (
    String,
    Vec<Action>,
))
    ensures
        r.0@ == spec_package_file(pkg_name@, local_exists),
        action_views(r.1@) == spec_package_file_steps(pkg_name@, repo_url@, local_exists),
{
    let plan = fetch_package(pkg_name, repo_url);
    if local_exists {
        let mut steps: Vec<Action> = Vec::new();
        push_action(&mut steps, Action::Say(plan.local_notice));
        assert(action_views(steps@) =~= spec_package_file_steps(pkg_name@, repo_url@, local_exists));
        (plan.local_path, steps)
    } else {
        (plan.dest, plan.steps)
    }
}

/// Law: a source whose URL holds `.tar` and does not end in `.git` is a
/// tarball, never a git repository, wherever it is hosted: its sources are
/// downloaded with `wget -c` and then unpacked with `tar` or `unzip`, and
/// the unpacked tree is searched for.
pub proof fn lemma_tarball_is_downloaded(pkg: PackageView)
    requires
        exists|i: int| 0 <= i && i + 4 <= pkg.source.len() && #[trigger] pkg.source.subrange(i, i + 4) == ".tar"@,
        !(pkg.source.len() >= 4 && pkg.source.subrange(pkg.source.len() - 4, pkg.source.len() as int)
            == ".git"@),
    ensures
        !is_git_source(pkg.source),
        ({
            let steps = spec_source_steps(pkg);
            &&& steps.len() == 5
            &&& steps[2] matches ActionView::Step { command, .. }
                && command.program == "wget"@ && command.args[0] == "-c"@ && command.args[1] == pkg.source
            &&& steps[4] matches ActionView::Step { command, .. }
                && (command.program == "tar"@ || command.program == "unzip"@)
        }),
        spec_source_dir(pkg) is Search,
{
    reveal_strlit(".tar");
    reveal_strlit(".git");
    assert(".tar"@.len() == 4);
    assert(".git"@.len() == 4);
    let i = choose|i: int| 0 <= i && i + 4 <= pkg.source.len() && #[trigger] pkg.source.subrange(i, i + 4) == ".tar"@;
    assert(pkg.source.subrange(i, i + ".tar"@.len()) == ".tar"@);
    assert(contains_text(pkg.source, ".tar"@));
}

} // verus!
