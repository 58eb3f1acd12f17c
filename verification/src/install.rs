//! Installing a package with its dependencies, as a state machine: the machine
//! decides, the caller performs each request on the system and hands back the
//! reply. Dependencies are installed depth first before the package itself;
//! a package met again while it is being installed is a circular dependency.
use vstd::prelude::*;
use crate::actions::{action_views, lit, push_action, Action, ActionView};
use crate::build_plan::{build_and_install, spec_build_plan};
use crate::db::{manifest_path, spec_manifest_path};
use crate::fetch::{
    choose_package_file, download_and_extract, spec_package_file,
    spec_package_file_steps, spec_fetch_steps, spec_source_dir, spec_source_steps,
    SourceDir, SourceDirView,
};
use crate::package::{parse_package, read_error, spec_parse_package, spec_read_error, Package, PackageView};
use crate::text::{concat2, concat3, concat4, copy_string, text_eq, views};

verus! {

/// What the frame of a package waits for.
#[derive(Debug, Clone, Copy, PartialEq, Eq, Structural)]
pub enum Stage {
    /// Whether the package is installed already.
    CheckInstalled,
    /// The configuration, read as the work on the package begins: the
    /// repository to fetch from and whether 32-bit flavours are wanted.
    Configuring,
    /// Whether its package file is in the current directory.
    CheckLocal,
    /// The outcome of finding its package file.
    Fetching,
    /// The content of its package file.
    Reading,
    /// Whether the current dependency is installed.
    CheckDep,
    /// The notice that the current dependency is resolved next.
    Resolving,
    /// The end of the installation of the current dependency.
    AwaitChild,
    /// The outcome of fetching and unpacking its sources.
    Downloading,
    /// Where its sources were unpacked.
    Locating,
    /// The outcome of the build; of the 32-bit flavour when the flag is set.
    Building(bool),
    /// The outcome of recording the installed files.
    Registering(bool),
    /// The warning that recording the files failed.
    Warned(bool),
    /// The outcome of merging the staged files into the system.
    Merging(bool),
    /// The last notice; then the frame is done.
    Leaving,
}

/// The installation of one package in progress.
pub struct Frame {
    name: String,
    stage: Stage,
    path: String,
    pkg: Option<Package>,
    dep: usize,
    src_dir: String,
    repo_url: String,
    multilib: bool,
}

/// The model of a `Frame`: the package name asked for, the stage, the path of
/// its package file, the package once read, the index of the dependency being
/// resolved, the directory of its sources, and the configuration read for it:
/// the repository URL and whether 32-bit flavours are wanted.
pub struct FrameView {
    pub name: Seq<char>,
    pub stage: Stage,
    pub path: Seq<char>,
    pub pkg: Option<PackageView>,
    pub dep: nat,
    pub src_dir: Seq<char>,
    pub repo_url: Seq<char>,
    pub multilib: bool,
}

impl View for Frame {
    type V = FrameView;

    closed spec fn view(&self) -> FrameView {
        FrameView {
            name: self.name@,
            stage: self.stage,
            path: self.path@,
            pkg: match self.pkg {
                Some(p) => Some(p@),
                None => None,
            },
            dep: self.dep as nat,
            src_dir: self.src_dir@,
            repo_url: self.repo_url@,
            multilib: self.multilib,
        }
    }
}

/// The views of a stack of frames.
pub open spec fn frame_views(v: Seq<Frame>) -> Seq<FrameView> {
    v.map_values(|f: Frame| f@)
}

/// An installation with its dependencies.
pub struct Installer {
    stack: Vec<Frame>,
    processing: Vec<String>,
    prefix: String,
}

/// The model of an `Installer`: the stack of installations in progress, the
/// names of the packages being processed, and the installation prefix.
pub struct InstallerView {
    pub stack: Seq<FrameView>,
    pub processing: Seq<Seq<char>>,
    pub prefix: Seq<char>,
}

impl View for Installer {
    type V = InstallerView;

    closed spec fn view(&self) -> InstallerView {
        InstallerView {
            stack: frame_views(self.stack@),
            processing: views(self.processing@),
            prefix: self.prefix@,
        }
    }
}

/// What the machine asks the caller to do.
#[derive(Debug, PartialEq, Eq)]
pub enum Request {
    /// Carry out these actions in order, stopping at the first failure;
    /// reply `Performed`.
    Perform(Vec<Action>),
    /// Tell whether this path exists; reply `Exists`.
    Exists(String),
    /// Read this file; reply `Content`.
    Read(String),
    /// Read the configuration; reply `Config`.
    Config,
    /// Find where the sources ended up; reply `Found`.
    FindSourceDir(SourceDir),
    /// Record the files staged in `dest_dir` as installed by package `name`;
    /// reply `Performed`.
    Register { name: String, dest_dir: String },
    /// Copy the files staged in this directory into the system; reply `Performed`.
    Merge(String),
    /// The installation has ended.
    Done,
}

/// The model of a `Request`.
pub enum RequestView {
    Perform(Seq<ActionView>),
    Exists(Seq<char>),
    Read(Seq<char>),
    Config,
    FindSourceDir(SourceDirView),
    Register { name: Seq<char>, dest_dir: Seq<char> },
    Merge(Seq<char>),
    Done,
}

impl View for Request {
    type V = RequestView;

    open spec fn view(&self) -> RequestView {
        match self {
            Request::Perform(a) => RequestView::Perform(action_views(a@)),
            Request::Exists(p) => RequestView::Exists(p@),
            Request::Read(p) => RequestView::Read(p@),
            Request::Config => RequestView::Config,
            Request::FindSourceDir(d) => RequestView::FindSourceDir(d@),
            Request::Register { name, dest_dir } => RequestView::Register {
                name: name@,
                dest_dir: dest_dir@,
            },
            Request::Merge(d) => RequestView::Merge(d@),
            Request::Done => RequestView::Done,
        }
    }
}

/// What the caller hands back after a request.
#[derive(Debug, PartialEq, Eq)]
pub enum Reply {
    /// The actions ran through, or the first one failed for this reason.
    Performed(Result<(), String>),
    /// Whether the path exists.
    Exists(bool),
    /// The content of the file, or why it could not be read.
    Content(Result<String, String>),
    /// The configuration: the repository URL, and whether 32-bit flavours are
    /// wanted (an empty URL and no when it cannot be read).
    Config { repo_url: String, multilib: bool },
    /// The directory of the sources, or why none was found.
    Found(Result<String, String>),
}

/// The model of a `Reply`.
pub enum ReplyView {
    Performed(Result<(), Seq<char>>),
    Exists(bool),
    Content(Result<Seq<char>, Seq<char>>),
    Config { repo_url: Seq<char>, multilib: bool },
    Found(Result<Seq<char>, Seq<char>>),
}

impl View for Reply {
    type V = ReplyView;

    open spec fn view(&self) -> ReplyView {
        match self {
            Reply::Performed(r) => ReplyView::Performed(
                match r {
                    Ok(()) => Ok(()),
                    Err(e) => Err(e@),
                },
            ),
            Reply::Exists(b) => ReplyView::Exists(*b),
            Reply::Content(r) => ReplyView::Content(
                match r {
                    Ok(c) => Ok(c@),
                    Err(e) => Err(e@),
                },
            ),
            Reply::Config { repo_url, multilib } => ReplyView::Config {
                repo_url: repo_url@,
                multilib: *multilib,
            },
            Reply::Found(r) => ReplyView::Found(
                match r {
                    Ok(c) => Ok(c@),
                    Err(e) => Err(e@),
                },
            ),
        }
    }
}

/// Whether a frame at this stage has the package name in the processing set.
pub open spec fn active(stage: Stage) -> bool {
    stage != Stage::CheckInstalled && stage != Stage::Leaving
}

/// Whether a frame at this stage has read its package.
pub open spec fn has_package(stage: Stage) -> bool {
    match stage {
        Stage::CheckDep | Stage::Resolving | Stage::AwaitChild | Stage::Downloading
        | Stage::Locating | Stage::Building(_) | Stage::Registering(_) | Stage::Warned(_)
        | Stage::Merging(_) => true,
        _ => false,
    }
}

/// Whether a frame at this stage is resolving a dependency.
pub open spec fn resolving(stage: Stage) -> bool {
    stage == Stage::CheckDep || stage == Stage::Resolving || stage == Stage::AwaitChild
}

/// The names of the packages of the frames that hold them in processing, bottom up.
pub open spec fn active_names(stack: Seq<FrameView>) -> Seq<Seq<char>>
    decreases stack.len(),
{
    if stack.len() == 0 {
        Seq::empty()
    } else {
        let r = active_names(stack.drop_last());
        if active(stack.last().stage) {
            r.push(stack.last().name)
        } else {
            r
        }
    }
}

/// Whether a frame at this stage is done with its dependencies and works on
/// the package itself: fetching its sources, building, recording or merging.
pub open spec fn past_dependencies(stage: Stage) -> bool {
    match stage {
        Stage::Downloading | Stage::Locating | Stage::Building(_) | Stage::Registering(_)
        | Stage::Warned(_) | Stage::Merging(_) => true,
        _ => false,
    }
}

/// What a frame holds at its stage.
pub open spec fn frame_ok(f: FrameView) -> bool {
    &&& has_package(f.stage) ==> f.pkg is Some
    &&& has_package(f.stage) ==> f.dep <= f.pkg->0.depends.len()
    &&& resolving(f.stage) ==> f.dep < f.pkg->0.depends.len()
    &&& past_dependencies(f.stage) ==> f.dep == f.pkg->0.depends.len()
}

/// The reply kind that a frame at this stage waits for.
pub open spec fn fits(stage: Stage, reply: ReplyView) -> bool {
    match stage {
        Stage::CheckInstalled | Stage::CheckLocal | Stage::CheckDep => reply is Exists,
        Stage::Reading => reply is Content,
        Stage::Configuring => reply is Config,
        Stage::Locating => reply is Found,
        _ => reply is Performed,
    }
}

/// A fresh frame for package `name` at `stage`.
pub open spec fn new_frame(name: Seq<char>, stage: Stage) -> FrameView {
    FrameView {
        name,
        stage,
        path: Seq::empty(),
        pkg: None,
        dep: 0,
        src_dir: Seq::empty(),
        repo_url: Seq::empty(),
        multilib: false,
    }
}

/// The staging directory of package `name`, or of its 32-bit flavour.
pub open spec fn image_dir(name: Seq<char>, m32: bool) -> Seq<char> {
    if m32 {
        "/tmp/rad/image/"@ + name + "-m32"@
    } else {
        "/tmp/rad/image/"@ + name
    }
}

/// The name under which the files of package `name`, or of its 32-bit flavour, are recorded.
pub open spec fn registered_name(name: Seq<char>, m32: bool) -> Seq<char> {
    if m32 {
        name + "-m32"@
    } else {
        name
    }
}

impl InstallerView {
    /// The invariant of the machine. Below the top every frame waits for its
    /// child; the processing set is the list of names of the frames that hold
    /// it, each name once; a frame about to check its package holds a name
    /// that is not in processing.
    pub open spec fn wf(self) -> bool {
        &&& forall|i: int| 0 <= i < self.stack.len() - 1 ==> #[trigger] self.stack[i].stage == Stage::AwaitChild
        &&& self.stack.len() > 0 ==> self.stack.last().stage != Stage::AwaitChild
        &&& forall|i: int| 0 <= i < self.stack.len() ==> frame_ok(#[trigger] self.stack[i])
        &&& self.processing == active_names(self.stack)
        &&& self.processing.no_duplicates()
        &&& self.stack.len() > 0 && self.stack.last().stage == Stage::CheckInstalled
            ==> !self.processing.contains(self.stack.last().name)
    }

    /// Whether the installation has ended.
    pub open spec fn finished(self) -> bool {
        self.stack.len() == 0
    }

    /// The frame on top.
    pub open spec fn top(self) -> FrameView {
        self.stack.last()
    }

    /// This state with the top frame replaced.
    pub open spec fn with_top(self, f: FrameView) -> InstallerView {
        InstallerView { stack: self.stack.update(self.stack.len() - 1, f), ..self }
    }

    /// This state with another processing list.
    pub open spec fn with_processing(self, p: Seq<Seq<char>>) -> InstallerView {
        InstallerView { processing: p, ..self }
    }
}

/// A frame at another stage.
pub open spec fn at(f: FrameView, stage: Stage) -> FrameView {
    FrameView { stage, ..f }
}

/// Start installing package `name` on top of the stack: a circular dependency
/// if it is being processed already, else a check whether it is installed.
pub open spec fn spec_start(s: InstallerView, name: Seq<char>) -> (InstallerView, RequestView) {
    if s.processing.contains(name) {
        (
            InstallerView { stack: s.stack.push(new_frame(name, Stage::Leaving)), ..s },
            RequestView::Perform(
                seq![
                    ActionView::Complain {
                        label: "error:"@,
                        message: "circular dependency detected: "@ + name + "!"@,
                    },
                ],
            ),
        )
    } else {
        (
            InstallerView { stack: s.stack.push(new_frame(name, Stage::CheckInstalled)), ..s },
            RequestView::Exists(spec_manifest_path(name)),
        )
    }
}

/// Give up the package on top: report the error, release its name.
pub open spec fn spec_leave(s: InstallerView, label: Seq<char>, message: Seq<char>) -> (
    InstallerView,
    RequestView,
) {
    (
        s.with_top(at(s.top(), Stage::Leaving)).with_processing(s.processing.drop_last()),
        RequestView::Perform(seq![ActionView::Complain { label, message }]),
    )
}

/// The notices before the sources of `p` are fetched.
pub open spec fn package_notices(p: PackageView) -> Seq<ActionView> {
    seq![
        ActionView::Say("[rad] package: "@ + p.name + " "@ + p.version),
        ActionView::Say("[rad] info: "@ + p.description),
        ActionView::Say("[rad] source: "@ + p.source),
    ]
}

/// Go on with the dependencies of the package on top, from the current one:
/// check the next one, or when none is left fetch the sources.
pub open spec fn spec_advance(s: InstallerView) -> (InstallerView, RequestView) {
    let f = s.top();
    let p = f.pkg->0;
    if f.dep < p.depends.len() {
        (
            s.with_top(at(f, Stage::CheckDep)),
            RequestView::Exists(spec_manifest_path(p.depends[f.dep as int])),
        )
    } else {
        (
            s.with_top(at(f, Stage::Downloading)),
            RequestView::Perform(package_notices(p) + spec_source_steps(p)),
        )
    }
}

/// The frame that was on top is gone: end when none is left, else let its
/// parent go on with its next dependency.
pub open spec fn spec_resume(s: InstallerView) -> (InstallerView, RequestView) {
    if s.stack.len() == 0 {
        (s, RequestView::Done)
    } else {
        let parent = s.top();
        spec_advance(s.with_top(FrameView { dep: parent.dep + 1, ..parent }))
    }
}

/// The frame on top is done.
pub open spec fn spec_finish(s: InstallerView) -> (InstallerView, RequestView) {
    spec_resume(InstallerView { stack: s.stack.drop_last(), ..s })
}

/// The actions of building package `p`, asked for as `name`, from `src_dir`.
pub open spec fn build_actions(
    s: InstallerView,
    name: Seq<char>,
    p: PackageView,
    src_dir: Seq<char>,
    m32: bool,
) -> Seq<ActionView> {
    let dest = image_dir(name, m32);
    (if m32 {
        seq![ActionView::Say("[rad] multilib enabled, building 32-bit flavor of "@ + name + "..."@)]
    } else {
        Seq::empty()
    }) + seq![ActionView::RemoveDir(dest), ActionView::CreateDir(dest)] + spec_build_plan(
        p,
        src_dir,
        s.prefix,
        dest,
        m32,
    ) + seq![
        ActionView::Say(
            if m32 {
                "[rad] indexing 32-bit files for "@ + name + "-m32..."@
            } else {
                "[rad] indexing files for "@ + name + "..."@
            },
        ),
    ]
}

/// The actions that end a successful installation of `name`.
pub open spec fn closing_actions(name: Seq<char>, m32: bool) -> Seq<ActionView> {
    seq![
        ActionView::RemoveDir(image_dir(name, m32)),
        ActionView::RemoveDir("/tmp/rad/build/"@ + name),
        ActionView::Say("[rad] installation of '"@ + name + "' finished successfully."@),
    ]
}

/// One move of the machine: the reply to the last request changes the frame
/// on top and gives the next request.
pub open spec fn spec_step(s: InstallerView, reply: ReplyView) -> (InstallerView, RequestView) {
    let f = s.top();
    let name = f.name;
    let p = f.pkg->0;
    match f.stage {
        Stage::Leaving | Stage::AwaitChild => spec_finish(s),
        Stage::CheckInstalled => if reply == ReplyView::Exists(true) {
            (
                s.with_top(at(f, Stage::Leaving)),
                RequestView::Perform(
                    seq![ActionView::Say("[rad] "@ + name + " is already installed, skipping."@)],
                ),
            )
        } else {
            (
                s.with_top(at(f, Stage::Configuring)).with_processing(s.processing.push(name)),
                RequestView::Config,
            )
        },
        Stage::Configuring => {
            let g = match reply {
                ReplyView::Config { repo_url, multilib } => FrameView {
                    stage: Stage::CheckLocal,
                    repo_url,
                    multilib,
                    ..f
                },
                _ => FrameView {
                    stage: Stage::CheckLocal,
                    repo_url: Seq::empty(),
                    multilib: false,
                    ..f
                },
            };
            (s.with_top(g), RequestView::Exists(name + ".toml"@))
        },
        Stage::CheckLocal => {
            let local = reply == ReplyView::Exists(true);
            (
                s.with_top(
                    FrameView { stage: Stage::Fetching, path: spec_package_file(name, local), ..f },
                ),
                RequestView::Perform(spec_package_file_steps(name, f.repo_url, local)),
            )
        },
        Stage::Fetching => match reply {
            ReplyView::Performed(Err(e)) => spec_leave(s, "error:"@, e),
            _ => (s.with_top(at(f, Stage::Reading)), RequestView::Read(f.path)),
        },
        Stage::Reading => match reply {
            ReplyView::Content(Ok(c)) => match spec_parse_package(c) {
                Ok(pkg) => spec_advance(
                    s.with_top(FrameView { pkg: Some(pkg), dep: 0, ..f }),
                ),
                Err(e) => spec_leave(s, "parse error:"@, e),
            },
            ReplyView::Content(Err(e)) => spec_leave(
                s,
                "parse error:"@,
                spec_read_error(f.path, e),
            ),
            _ => spec_leave(s, "parse error:"@, Seq::empty()),
        },
        Stage::CheckDep => if reply == ReplyView::Exists(true) {
            spec_advance(s.with_top(FrameView { dep: f.dep + 1, ..f }))
        } else {
            (
                s.with_top(at(f, Stage::Resolving)),
                RequestView::Perform(
                    seq![
                        ActionView::Say(
                            "[rad] resolving dependency: "@ + p.depends[f.dep as int],
                        ),
                    ],
                ),
            )
        },
        Stage::Resolving => spec_start(
            s.with_top(at(f, Stage::AwaitChild)),
            p.depends[f.dep as int],
        ),
        Stage::Downloading => match reply {
            ReplyView::Performed(Err(e)) => spec_leave(s, "error:"@, e),
            _ => (s.with_top(at(f, Stage::Locating)), RequestView::FindSourceDir(spec_source_dir(p))),
        },
        Stage::Locating => match reply {
            ReplyView::Found(Ok(d)) => (
                s.with_top(FrameView { stage: Stage::Building(false), src_dir: d, ..f }),
                RequestView::Perform(build_actions(s, name, p, d, false)),
            ),
            ReplyView::Found(Err(e)) => spec_leave(s, "error:"@, e),
            _ => spec_leave(s, "error:"@, Seq::empty()),
        },
        Stage::Building(m32) => match reply {
            ReplyView::Performed(Err(e)) => spec_leave(
                s,
                if m32 {
                    "multilib build error:"@
                } else {
                    "build error:"@
                },
                e,
            ),
            _ => (
                s.with_top(at(f, Stage::Registering(m32))),
                RequestView::Register {
                    name: registered_name(name, m32),
                    dest_dir: image_dir(name, m32),
                },
            ),
        },
        Stage::Registering(m32) => match reply {
            ReplyView::Performed(Err(e)) => (
                s.with_top(at(f, Stage::Warned(m32))),
                RequestView::Perform(
                    seq![
                        ActionView::Warn(
                            (if m32 {
                                "[rad] registration error (m32): "@
                            } else {
                                "[rad] registration error: "@
                            }) + e,
                        ),
                    ],
                ),
            ),
            _ => (s.with_top(at(f, Stage::Merging(m32))), RequestView::Merge(image_dir(name, m32))),
        },
        Stage::Warned(m32) => (
            s.with_top(at(f, Stage::Merging(m32))),
            RequestView::Merge(image_dir(name, m32)),
        ),
        Stage::Merging(m32) => match reply {
            ReplyView::Performed(Err(e)) => spec_leave(
                s,
                if m32 {
                    "m32 merge error:"@
                } else {
                    "merge error:"@
                },
                "merge failed: "@ + e,
            ),
            _ => if !m32 && f.multilib && p.multilib_support {
                (
                    s.with_top(at(f, Stage::Building(true))),
                    RequestView::Perform(
                        seq![ActionView::RemoveDir(image_dir(name, false))] + build_actions(
                            s,
                            name,
                            p,
                            f.src_dir,
                            true,
                        ),
                    ),
                )
            } else {
                (
                    s.with_top(at(f, Stage::Leaving)).with_processing(s.processing.drop_last()),
                    RequestView::Perform(closing_actions(name, m32)),
                )
            },
        },
    }
}

/// The names held by a stack whose top frame is replaced.
pub proof fn lemma_active_names_top(st: Seq<FrameView>, f: FrameView)
    requires
        st.len() > 0,
    ensures
        st.update(st.len() - 1, f).drop_last() == st.drop_last(),
        active_names(st.update(st.len() - 1, f)) == if active(f.stage) {
            active_names(st.drop_last()).push(f.name)
        } else {
            active_names(st.drop_last())
        },
{
    assert(st.update(st.len() - 1, f).drop_last() =~= st.drop_last());
}

/// The names held by a stack with one more frame.
pub proof fn lemma_active_names_push(st: Seq<FrameView>, f: FrameView)
    ensures
        st.push(f).drop_last() == st,
        active_names(st.push(f)) == if active(f.stage) {
            active_names(st).push(f.name)
        } else {
            active_names(st)
        },
{
    assert(st.push(f).drop_last() =~= st);
}

impl Frame {
    fn fresh(name: String, stage: Stage) -> (f: Frame)
        ensures
            f@ == new_frame(name@, stage),
    {
        Frame {
            name,
            stage,
            path: String::new(),
            pkg: None,
            dep: 0,
            src_dir: String::new(),
            repo_url: String::new(),
            multilib: false,
        }
    }
}

fn say(s: String) -> (r: Vec<Action>)
    ensures
        action_views(r@) == seq![ActionView::Say(s@)],
{
    let mut r: Vec<Action> = Vec::new();
    push_action(&mut r, Action::Say(s));
    assert(action_views(r@) =~= seq![ActionView::Say(s@)]);
    r
}

fn append_actions(a: &mut Vec<Action>, b: Vec<Action>)
    ensures
        action_views(final(a)@) == action_views(old(a)@) + action_views(b@),
{
    let mut b = b;
    let ghost va = action_views(a@);
    let ghost vb = action_views(b@);
    a.append(&mut b);
    assert(action_views(a@) =~= va + vb);
}

impl Installer {
    /// The machine that installs package `pkg_name` under `prefix`, and its
    /// first request.
    pub fn new(pkg_name: &str, prefix: &str) -> (r: (
        Installer,
        Request,
    ))
        ensures
            r.0@.wf(),
            !r.0@.finished(),
            (r.0@, r.1@) == spec_start(
                InstallerView {
                    stack: Seq::empty(),
                    processing: Seq::empty(),
                    prefix: prefix@,
                },
                pkg_name@,
            ),
    {
        let mut m = Installer {
            stack: Vec::new(),
            processing: Vec::new(),
            prefix: lit(prefix),
        };
        assert(m@.stack =~= Seq::<FrameView>::empty());
        assert(m@.processing =~= Seq::<Seq<char>>::empty());
        let req = m.start(lit(pkg_name));
        proof {
            lemma_active_names_push(Seq::<FrameView>::empty(), new_frame(pkg_name@, Stage::CheckInstalled));
        }
        (m, req)
    }

    /// Whether the installation has ended.
    pub fn is_finished(&self) -> (r: bool)
        ensures
            r == self@.finished(),
    {
        self.stack.len() == 0
    }

    fn take_top(&mut self) -> (f: Frame)
        requires
            old(self)@.stack.len() > 0,
        ensures
            f@ == old(self)@.top(),
            final(self)@ == (InstallerView { stack: old(self)@.stack.drop_last(), ..old(self)@ }),
    {
        let ghost before = self.stack@;
        let f = self.stack.pop().unwrap();
        assert(frame_views(self.stack@) =~= frame_views(before).drop_last());
        f
    }

    fn put_top(&mut self, f: Frame)
        ensures
            final(self)@ == (InstallerView { stack: old(self)@.stack.push(f@), ..old(self)@ }),
    {
        let ghost before = self.stack@;
        self.stack.push(f);
        assert(frame_views(self.stack@) =~= frame_views(before).push(f@));
    }

    fn holds(&self, name: &str) -> (r: bool)
        ensures
            r == self@.processing.contains(name@),
    {
        let mut i: usize = 0;
        while i < self.processing.len()
            invariant
                i <= self.processing@.len(),
                forall|j: int| 0 <= j < i ==> #[trigger] self@.processing[j] != name@,
            decreases self.processing@.len() - i,
        {
            if text_eq(self.processing[i].as_str(), name) {
                assert(self@.processing[i as int] == name@);
                return true;
            }
            i = i + 1;
        }
        false
    }

    fn hold(&mut self, name: String)
        ensures
            final(self)@ == old(self)@.with_processing(old(self)@.processing.push(name@)),
    {
        let ghost before = self.processing@;
        self.processing.push(name);
        assert(views(self.processing@) =~= views(before).push(name@));
    }

    fn release(&mut self)
        requires
            old(self)@.processing.len() > 0,
        ensures
            final(self)@ == old(self)@.with_processing(old(self)@.processing.drop_last()),
    {
        let ghost before = self.processing@;
        self.processing.pop();
        assert(views(self.processing@) =~= views(before).drop_last());
    }

    fn start(&mut self, name: String) -> (r: Request)
        ensures
            (final(self)@, r@) == spec_start(old(self)@, name@),
    {
        if self.holds(name.as_str()) {
            let mut acts: Vec<Action> = Vec::new();
            push_action(
                &mut acts,
                Action::Complain {
                    label: lit("error:"),
                    message: concat3("circular dependency detected: ", name.as_str(), "!"),
                },
            );
            assert(action_views(acts@) =~= seq![
                ActionView::Complain {
                    label: "error:"@,
                    message: "circular dependency detected: "@ + name@ + "!"@,
                },
            ]);
            self.put_top(Frame::fresh(name, Stage::Leaving));
            Request::Perform(acts)
        } else {
            let path = manifest_path(name.as_str());
            self.put_top(Frame::fresh(name, Stage::CheckInstalled));
            Request::Exists(path)
        }
    }

    fn leave(&mut self, label: String, message: String) -> (r: Request)
        requires
            old(self)@.stack.len() > 0,
            old(self)@.processing.len() > 0,
        ensures
            (final(self)@, r@) == spec_leave(old(self)@, label@, message@),
    {
        let ghost s = self@;
        let mut f = self.take_top();
        f.stage = Stage::Leaving;
        self.put_top(f);
        assert(self@.stack =~= s.stack.update(s.stack.len() - 1, at(s.top(), Stage::Leaving)));
        self.release();
        let mut acts: Vec<Action> = Vec::new();
        push_action(&mut acts, Action::Complain { label, message });
        assert(action_views(acts@) =~= seq![ActionView::Complain { label: label@, message: message@ }]);
        Request::Perform(acts)
    }

    fn advance(&mut self) -> (r: Request)
        requires
            old(self)@.stack.len() > 0,
            old(self)@.top().pkg is Some,
        ensures
            (final(self)@, r@) == spec_advance(old(self)@),
    {
        let ghost s = self@;
        let mut f = self.take_top();
        let req = match &f.pkg {
            Some(p) => {
                if f.dep < p.depends.len() {
                    let path = manifest_path(p.depends[f.dep].as_str());
                    f.stage = Stage::CheckDep;
                    Request::Exists(path)
                } else {
                    let mut acts = say(concat4("[rad] package: ", p.name.as_str(), " ", p.version.as_str()));
                    append_actions(&mut acts, say(concat2("[rad] info: ", p.description.as_str())));
                    append_actions(&mut acts, say(concat2("[rad] source: ", p.source.as_str())));
                    assert(action_views(acts@) =~= package_notices(p@));
                    let plan = download_and_extract(p);
                    append_actions(&mut acts, plan.steps);
                    f.stage = Stage::Downloading;
                    Request::Perform(acts)
                }
            },
            None => Request::Done,
        };
        self.put_top(f);
        proof {
            let fv = s.top();
            if fv.dep < fv.pkg->0.depends.len() {
                assert(self@.stack =~= s.stack.update(s.stack.len() - 1, at(fv, Stage::CheckDep)));
            } else {
                assert(self@.stack =~= s.stack.update(s.stack.len() - 1, at(fv, Stage::Downloading)));
            }
        }
        req
    }

    fn resume(&mut self) -> (r: Request)
        requires
            old(self)@.stack.len() > 0 ==> old(self)@.top().pkg is Some && old(self)@.top().dep
                < old(self)@.top().pkg->0.depends.len(),
        ensures
            (final(self)@, r@) == spec_resume(old(self)@),
    {
        if self.stack.len() == 0 {
            return Request::Done;
        }
        let ghost s = self@;
        let mut parent = self.take_top();
        let n = match &parent.pkg {
            Some(p) => p.depends.len(),
            None => 0,
        };
        assert(parent.dep < n);
        parent.dep = parent.dep + 1;
        self.put_top(parent);
        assert(self@.stack =~= s.stack.update(s.stack.len() - 1, FrameView { dep: s.top().dep + 1, ..s.top() }));
        self.advance()
    }
}

fn pkg_of(f: &Frame) -> (p: &Package)
    requires
        f@.pkg is Some,
    ensures
        f@.pkg == Some(p@),
{
    match &f.pkg {
        Some(p) => p,
        None => vstd::pervasive::unreached(),
    }
}

fn image_dir_of(name: &str, m32: bool) -> (r: String)
    ensures
        r@ == image_dir(name@, m32),
{
    if m32 {
        concat3("/tmp/rad/image/", name, "-m32")
    } else {
        concat2("/tmp/rad/image/", name)
    }
}

fn closing(name: &str, m32: bool) -> (r: Vec<Action>)
    ensures
        action_views(r@) == closing_actions(name@, m32),
{
    let mut acts: Vec<Action> = Vec::new();
    push_action(&mut acts, Action::RemoveDir(image_dir_of(name, m32)));
    push_action(&mut acts, Action::RemoveDir(concat2("/tmp/rad/build/", name)));
    push_action(
        &mut acts,
        Action::Say(concat3("[rad] installation of '", name, "' finished successfully.")),
    );
    assert(action_views(acts@) =~= closing_actions(name@, m32));
    acts
}

impl Installer {
    fn build_steps(&self, name: &str, p: &Package, src_dir: &str, m32: bool) -> (r: Vec<Action>)
        ensures
            action_views(r@) == build_actions(self@, name@, p@, src_dir@, m32),
    {
        let dest = image_dir_of(name, m32);
        let mut acts: Vec<Action> = Vec::new();
        if m32 {
            push_action(
                &mut acts,
                Action::Say(concat3("[rad] multilib enabled, building 32-bit flavor of ", name, "...")),
            );
        }
        push_action(&mut acts, Action::RemoveDir(copy_string(&dest)));
        push_action(&mut acts, Action::CreateDir(copy_string(&dest)));
        append_actions(&mut acts, build_and_install(p, src_dir, self.prefix.as_str(), dest.as_str(), m32));
        let notice = if m32 {
            concat3("[rad] indexing 32-bit files for ", name, "-m32...")
        } else {
            concat3("[rad] indexing files for ", name, "...")
        };
        push_action(&mut acts, Action::Say(notice));
        assert(action_views(acts@) =~= build_actions(self@, name@, p@, src_dir@, m32));
        acts
    }

    fn step_leaving(&mut self) -> (r: Request)
        requires
            old(self)@.stack.len() > 0,
            old(self)@.stack.len() > 1 ==> frame_ok(old(self)@.stack[old(self)@.stack.len() - 2])
                && resolving(old(self)@.stack[old(self)@.stack.len() - 2].stage),
        ensures
            (final(self)@, r@) == spec_finish(old(self)@),
    {
        let ghost s = self@;
        let _f = self.take_top();
        proof {
            if self@.stack.len() > 0 {
                assert(self@.stack.last() == s.stack[s.stack.len() - 2]);
            }
        }
        self.resume()
    }

    fn step_check_installed(&mut self, reply: Reply) -> (r: Request)
        requires
            old(self)@.stack.len() > 0,
            old(self)@.top().stage == Stage::CheckInstalled,
        ensures
            (final(self)@, r@) == spec_step(old(self)@, reply@),
    {
        let ghost s = self@;
        let mut f = self.take_top();
        let ghost fv = f@;
        match reply {
            Reply::Exists(true) => {
                let msg = concat3("[rad] ", f.name.as_str(), " is already installed, skipping.");
                f.stage = Stage::Leaving;
                self.put_top(f);
                assert(self@.stack =~= s.stack.update(s.stack.len() - 1, at(fv, Stage::Leaving)));
                Request::Perform(say(msg))
            },
            _ => {
                let held = copy_string(&f.name);
                f.stage = Stage::Configuring;
                self.put_top(f);
                assert(self@.stack =~= s.stack.update(s.stack.len() - 1, at(fv, Stage::Configuring)));
                self.hold(held);
                Request::Config
            },
        }
    }

    fn step_configuring(&mut self, reply: Reply) -> (r: Request)
        requires
            old(self)@.stack.len() > 0,
            old(self)@.top().stage == Stage::Configuring,
        ensures
            (final(self)@, r@) == spec_step(old(self)@, reply@),
    {
        let ghost s = self@;
        let mut f = self.take_top();
        let ghost fv = f@;
        let (url, multilib) = match reply {
            Reply::Config { repo_url, multilib } => (repo_url, multilib),
            _ => (String::new(), false),
        };
        let local = concat2(f.name.as_str(), ".toml");
        f.repo_url = url;
        f.multilib = multilib;
        f.stage = Stage::CheckLocal;
        self.put_top(f);
        assert(self@.stack =~= s.stack.update(
            s.stack.len() - 1,
            FrameView { stage: Stage::CheckLocal, repo_url: url@, multilib, ..fv },
        ));
        Request::Exists(local)
    }

    fn step_check_local(&mut self, reply: Reply) -> (r: Request)
        requires
            old(self)@.stack.len() > 0,
            old(self)@.top().stage == Stage::CheckLocal,
        ensures
            (final(self)@, r@) == spec_step(old(self)@, reply@),
    {
        let ghost s = self@;
        let mut f = self.take_top();
        let ghost fv = f@;
        let local = match reply {
            Reply::Exists(true) => true,
            _ => false,
        };
        assert(local == (reply@ == ReplyView::Exists(true)));
        let (path, steps) = choose_package_file(f.name.as_str(), f.repo_url.as_str(), local);
        f.path = path;
        f.stage = Stage::Fetching;
        self.put_top(f);
        assert(self@.stack =~= s.stack.update(
            s.stack.len() - 1,
            FrameView { stage: Stage::Fetching, path: spec_package_file(fv.name, local), ..fv },
        ));
        Request::Perform(steps)
    }

    fn step_fetching(&mut self, reply: Reply) -> (r: Request)
        requires
            old(self)@.stack.len() > 0,
            old(self)@.processing.len() > 0,
            old(self)@.top().stage == Stage::Fetching,
        ensures
            (final(self)@, r@) == spec_step(old(self)@, reply@),
    {
        let ghost s = self@;
        match reply {
            Reply::Performed(Err(e)) => self.leave(lit("error:"), e),
            _ => {
                let mut f = self.take_top();
                let ghost fv = f@;
                let path = copy_string(&f.path);
                f.stage = Stage::Reading;
                self.put_top(f);
                assert(self@.stack =~= s.stack.update(s.stack.len() - 1, at(fv, Stage::Reading)));
                Request::Read(path)
            },
        }
    }

    fn step_reading(&mut self, reply: Reply) -> (r: Request)
        requires
            old(self)@.stack.len() > 0,
            old(self)@.processing.len() > 0,
            old(self)@.top().stage == Stage::Reading,
        ensures
            (final(self)@, r@) == spec_step(old(self)@, reply@),
    {
        let ghost s = self@;
        match reply {
            Reply::Content(Ok(c)) => match parse_package(c.as_str()) {
                Ok(pkg) => {
                    let mut f = self.take_top();
                    let ghost fv = f@;
                    f.pkg = Some(pkg);
                    f.dep = 0;
                    self.put_top(f);
                    assert(self@.stack =~= s.stack.update(
                        s.stack.len() - 1,
                        FrameView { pkg: Some(pkg@), dep: 0, ..fv },
                    ));
                    self.advance()
                },
                Err(e) => self.leave(lit("parse error:"), e),
            },
            Reply::Content(Err(e)) => {
                let msg = read_error(self.stack[self.stack.len() - 1].path.as_str(), e.as_str());
                self.leave(lit("parse error:"), msg)
            },
            _ => self.leave(lit("parse error:"), String::new()),
        }
    }

    fn step_check_dep(&mut self, reply: Reply) -> (r: Request)
        requires
            old(self)@.stack.len() > 0,
            old(self)@.top().stage == Stage::CheckDep,
            frame_ok(old(self)@.top()),
        ensures
            (final(self)@, r@) == spec_step(old(self)@, reply@),
    {
        let ghost s = self@;
        let mut f = self.take_top();
        let ghost fv = f@;
        match reply {
            Reply::Exists(true) => {
                let n = pkg_of(&f).depends.len();
                f.dep = f.dep + 1;
                self.put_top(f);
                assert(self@.stack =~= s.stack.update(
                    s.stack.len() - 1,
                    FrameView { dep: fv.dep + 1, ..fv },
                ));
                self.advance()
            },
            _ => {
                let msg = {
                    let p = pkg_of(&f);
                    concat2("[rad] resolving dependency: ", p.depends[f.dep].as_str())
                };
                f.stage = Stage::Resolving;
                self.put_top(f);
                assert(self@.stack =~= s.stack.update(s.stack.len() - 1, at(fv, Stage::Resolving)));
                Request::Perform(say(msg))
            },
        }
    }

    fn step_resolving(&mut self) -> (r: Request)
        requires
            old(self)@.stack.len() > 0,
            old(self)@.top().stage == Stage::Resolving,
            frame_ok(old(self)@.top()),
        ensures
            (final(self)@, r@) == spec_step(old(self)@, ReplyView::Performed(Ok(()))),
    {
        let ghost s = self@;
        let mut f = self.take_top();
        let ghost fv = f@;
        let dep_name = {
            let p = pkg_of(&f);
            copy_string(&p.depends[f.dep])
        };
        f.stage = Stage::AwaitChild;
        self.put_top(f);
        assert(self@.stack =~= s.stack.update(s.stack.len() - 1, at(fv, Stage::AwaitChild)));
        self.start(dep_name)
    }

    fn step_downloading(&mut self, reply: Reply) -> (r: Request)
        requires
            old(self)@.stack.len() > 0,
            old(self)@.processing.len() > 0,
            old(self)@.top().stage == Stage::Downloading,
            frame_ok(old(self)@.top()),
        ensures
            (final(self)@, r@) == spec_step(old(self)@, reply@),
    {
        let ghost s = self@;
        match reply {
            Reply::Performed(Err(e)) => self.leave(lit("error:"), e),
            _ => {
                let mut f = self.take_top();
                let ghost fv = f@;
                let plan = download_and_extract(pkg_of(&f));
                f.stage = Stage::Locating;
                self.put_top(f);
                assert(self@.stack =~= s.stack.update(s.stack.len() - 1, at(fv, Stage::Locating)));
                Request::FindSourceDir(plan.source_dir)
            },
        }
    }

    fn step_locating(&mut self, reply: Reply) -> (r: Request)
        requires
            old(self)@.stack.len() > 0,
            old(self)@.processing.len() > 0,
            old(self)@.top().stage == Stage::Locating,
            frame_ok(old(self)@.top()),
        ensures
            (final(self)@, r@) == spec_step(old(self)@, reply@),
    {
        let ghost s = self@;
        match reply {
            Reply::Found(Ok(d)) => {
                let mut f = self.take_top();
                let ghost fv = f@;
                let acts = self.build_steps(f.name.as_str(), pkg_of(&f), d.as_str(), false);
                assert(self@.prefix == s.prefix);
                f.src_dir = d;
                f.stage = Stage::Building(false);
                self.put_top(f);
                assert(self@.stack =~= s.stack.update(
                    s.stack.len() - 1,
                    FrameView { stage: Stage::Building(false), src_dir: d@, ..fv },
                ));
                Request::Perform(acts)
            },
            Reply::Found(Err(e)) => self.leave(lit("error:"), e),
            _ => self.leave(lit("error:"), String::new()),
        }
    }

    fn step_building(&mut self, reply: Reply, m32: bool) -> (r: Request)
        requires
            old(self)@.stack.len() > 0,
            old(self)@.processing.len() > 0,
            old(self)@.top().stage == Stage::Building(m32),
        ensures
            (final(self)@, r@) == spec_step(old(self)@, reply@),
    {
        let ghost s = self@;
        match reply {
            Reply::Performed(Err(e)) => self.leave(
                lit(
                    if m32 {
                        "multilib build error:"
                    } else {
                        "build error:"
                    },
                ),
                e,
            ),
            _ => {
                let mut f = self.take_top();
                let ghost fv = f@;
                let name = if m32 {
                    concat2(f.name.as_str(), "-m32")
                } else {
                    copy_string(&f.name)
                };
                let dest_dir = image_dir_of(f.name.as_str(), m32);
                f.stage = Stage::Registering(m32);
                self.put_top(f);
                assert(self@.stack =~= s.stack.update(s.stack.len() - 1, at(fv, Stage::Registering(m32))));
                Request::Register { name, dest_dir }
            },
        }
    }

    fn step_registering(&mut self, reply: Reply, m32: bool) -> (r: Request)
        requires
            old(self)@.stack.len() > 0,
            old(self)@.top().stage == Stage::Registering(m32),
        ensures
            (final(self)@, r@) == spec_step(old(self)@, reply@),
    {
        let ghost s = self@;
        let mut f = self.take_top();
        let ghost fv = f@;
        match reply {
            Reply::Performed(Err(e)) => {
                let msg = if m32 {
                    concat2("[rad] registration error (m32): ", e.as_str())
                } else {
                    concat2("[rad] registration error: ", e.as_str())
                };
                let mut acts: Vec<Action> = Vec::new();
                push_action(&mut acts, Action::Warn(msg));
                f.stage = Stage::Warned(m32);
                self.put_top(f);
                assert(self@.stack =~= s.stack.update(s.stack.len() - 1, at(fv, Stage::Warned(m32))));
                assert(action_views(acts@) =~= seq![ActionView::Warn(msg@)]);
                Request::Perform(acts)
            },
            _ => {
                let dir = image_dir_of(f.name.as_str(), m32);
                f.stage = Stage::Merging(m32);
                self.put_top(f);
                assert(self@.stack =~= s.stack.update(s.stack.len() - 1, at(fv, Stage::Merging(m32))));
                Request::Merge(dir)
            },
        }
    }

    fn step_warned(&mut self, m32: bool) -> (r: Request)
        requires
            old(self)@.stack.len() > 0,
            old(self)@.top().stage == Stage::Warned(m32),
        ensures
            (final(self)@, r@) == spec_step(old(self)@, ReplyView::Performed(Ok(()))),
    {
        let ghost s = self@;
        let mut f = self.take_top();
        let ghost fv = f@;
        let dir = image_dir_of(f.name.as_str(), m32);
        f.stage = Stage::Merging(m32);
        self.put_top(f);
        assert(self@.stack =~= s.stack.update(s.stack.len() - 1, at(fv, Stage::Merging(m32))));
        Request::Merge(dir)
    }

    fn step_merging(&mut self, reply: Reply, m32: bool) -> (r: Request)
        requires
            old(self)@.stack.len() > 0,
            old(self)@.processing.len() > 0,
            old(self)@.top().stage == Stage::Merging(m32),
            frame_ok(old(self)@.top()),
        ensures
            (final(self)@, r@) == spec_step(old(self)@, reply@),
    {
        let ghost s = self@;
        match reply {
            Reply::Performed(Err(e)) => {
                let msg = concat2("merge failed: ", e.as_str());
                self.leave(
                    lit(
                        if m32 {
                            "m32 merge error:"
                        } else {
                            "merge error:"
                        },
                    ),
                    msg,
                )
            },
            _ => {
                let mut f = self.take_top();
                let ghost fv = f@;
                let again = !m32 && f.multilib && pkg_of(&f).multilib_support;
                if again {
                    let mut acts: Vec<Action> = Vec::new();
                    push_action(&mut acts, Action::RemoveDir(image_dir_of(f.name.as_str(), false)));
                    assert(action_views(acts@) =~= seq![ActionView::RemoveDir(image_dir(fv.name, false))]);
                    let more = self.build_steps(f.name.as_str(), pkg_of(&f), f.src_dir.as_str(), true);
                    assert(self@.prefix == s.prefix);
                    append_actions(&mut acts, more);
                    f.stage = Stage::Building(true);
                    self.put_top(f);
                    assert(self@.stack =~= s.stack.update(s.stack.len() - 1, at(fv, Stage::Building(true))));
                    assert(action_views(acts@) == seq![ActionView::RemoveDir(image_dir(fv.name, false))] + build_actions(s, fv.name, fv.pkg->0, fv.src_dir, true));
                    assert(fv.multilib && fv.pkg->0.multilib_support && !m32);
                    Request::Perform(acts)
                } else {
                    let acts = closing(f.name.as_str(), m32);
                    f.stage = Stage::Leaving;
                    self.put_top(f);
                    assert(self@.stack =~= s.stack.update(s.stack.len() - 1, at(fv, Stage::Leaving)));
                    self.release();
                    assert(!(!m32 && fv.multilib && fv.pkg->0.multilib_support));
                    Request::Perform(acts)
                }
            },
        }
    }

    /// Hands the machine the reply to its last request and takes its next
    /// request. The caller performs each request and replies with the kind of
    /// reply that the request asks for, until the request is `Done`.
    pub fn step(&mut self, reply: Reply) -> (r: Request)
        requires
            old(self)@.wf(),
            !old(self)@.finished(),
            fits(old(self)@.top().stage, reply@),
        ensures
            (final(self)@, r@) == spec_step(old(self)@, reply@),
            final(self)@.wf(),
            r is Done <==> final(self)@.finished(),
    {
        proof {
            lemma_step_keeps_wf(self@, reply@);
            let st = self@.stack;
            assert(frame_ok(st[st.len() - 1]));
            if st.len() > 1 {
                assert(st[st.len() - 2].stage == Stage::AwaitChild);
                assert(frame_ok(st[st.len() - 2]));
            }
            if active(st.last().stage) {
                assert(active_names(st).len() > 0);
            }
        }
        let stage = self.stack[self.stack.len() - 1].stage;
        match stage {
            Stage::Leaving | Stage::AwaitChild => self.step_leaving(),
            Stage::CheckInstalled => self.step_check_installed(reply),
            Stage::Configuring => self.step_configuring(reply),
            Stage::CheckLocal => self.step_check_local(reply),
            Stage::Fetching => self.step_fetching(reply),
            Stage::Reading => self.step_reading(reply),
            Stage::CheckDep => self.step_check_dep(reply),
            Stage::Resolving => self.step_resolving(),
            Stage::Downloading => self.step_downloading(reply),
            Stage::Locating => self.step_locating(reply),
            Stage::Building(m32) => self.step_building(reply, m32),
            Stage::Registering(m32) => self.step_registering(reply, m32),
            Stage::Warned(m32) => self.step_warned(m32),
            Stage::Merging(m32) => self.step_merging(reply, m32),
        }
    }
}

/// The invariant of a state whose top frame is `g` and processing list `p`,
/// from what holds of the frames below.
proof fn lemma_wf_with_top(base: InstallerView, g: FrameView, p: Seq<Seq<char>>)
    requires
        base.stack.len() > 0,
        forall|i: int| 0 <= i < base.stack.len() - 1 ==> #[trigger] base.stack[i].stage == Stage::AwaitChild,
        forall|i: int| 0 <= i < base.stack.len() - 1 ==> frame_ok(#[trigger] base.stack[i]),
        p == (if active(g.stage) {
            active_names(base.stack.drop_last()).push(g.name)
        } else {
            active_names(base.stack.drop_last())
        }),
        p.no_duplicates(),
        g.stage != Stage::AwaitChild,
        frame_ok(g),
        g.stage == Stage::CheckInstalled ==> !p.contains(g.name),
    ensures
        base.with_top(g).with_processing(p).wf(),
        !base.with_top(g).with_processing(p).finished(),
{
    lemma_active_names_top(base.stack, g);
    let t = base.with_top(g).with_processing(p);
    assert forall|i: int| 0 <= i < t.stack.len() - 1 implies #[trigger] t.stack[i].stage
        == Stage::AwaitChild by {
        assert(t.stack[i] == base.stack[i]);
    }
    assert forall|i: int| 0 <= i < t.stack.len() implies frame_ok(#[trigger] t.stack[i]) by {
        if i < t.stack.len() - 1 {
            assert(t.stack[i] == base.stack[i]);
        }
    }
}

/// What an invariant state gives of its frames below the top and of its processing list.
proof fn lemma_wf_parts(s: InstallerView)
    requires
        s.wf(),
        s.stack.len() > 0,
    ensures
        forall|i: int| 0 <= i < s.stack.len() - 1 ==> #[trigger] s.stack[i].stage == Stage::AwaitChild,
        forall|i: int| 0 <= i < s.stack.len() - 1 ==> frame_ok(#[trigger] s.stack[i]),
        frame_ok(s.top()),
        s.processing == (if active(s.top().stage) {
            active_names(s.stack.drop_last()).push(s.top().name)
        } else {
            active_names(s.stack.drop_last())
        }),
{
    assert(frame_ok(s.stack[s.stack.len() - 1]));
}

/// Replacing the top frame by one with the same name and the same hold on
/// processing keeps the invariant.
proof fn lemma_same_hold(s: InstallerView, g: FrameView)
    requires
        s.wf(),
        s.stack.len() > 0,
        g.name == s.top().name,
        active(g.stage) == active(s.top().stage),
        g.stage != Stage::AwaitChild,
        g.stage != Stage::CheckInstalled,
        frame_ok(g),
    ensures
        s.with_top(g).wf(),
        !s.with_top(g).finished(),
{
    lemma_wf_parts(s);
    lemma_wf_with_top(s, g, s.processing);
    assert(s.with_top(g).with_processing(s.processing) == s.with_top(g));
}

/// Giving up the package on top keeps the invariant.
proof fn lemma_leave_wf(s: InstallerView, label: Seq<char>, message: Seq<char>)
    requires
        s.wf(),
        s.stack.len() > 0,
        active(s.top().stage),
    ensures
        spec_leave(s, label, message).0.wf(),
        !spec_leave(s, label, message).0.finished(),
{
    lemma_wf_parts(s);
    let p = s.processing.drop_last();
    assert(p =~= active_names(s.stack.drop_last()));
    assert forall|i: int, j: int| 0 <= i < p.len() && 0 <= j < p.len() && i != j implies p[i] != p[j] by {
        assert(p[i] == s.processing[i] && p[j] == s.processing[j]);
    }
    lemma_wf_with_top(s, at(s.top(), Stage::Leaving), p);
}

/// Going on with the dependencies keeps the invariant, for a top frame with a
/// package that holds its name.
proof fn lemma_advance_wf(base: InstallerView, f: FrameView)
    requires
        base.stack.len() > 0,
        forall|i: int| 0 <= i < base.stack.len() - 1 ==> #[trigger] base.stack[i].stage == Stage::AwaitChild,
        forall|i: int| 0 <= i < base.stack.len() - 1 ==> frame_ok(#[trigger] base.stack[i]),
        base.processing == active_names(base.stack.drop_last()).push(f.name),
        base.processing.no_duplicates(),
        f.pkg is Some,
        f.dep <= f.pkg->0.depends.len(),
    ensures
        spec_advance(base.with_top(f)).0.wf(),
        !spec_advance(base.with_top(f)).0.finished(),
        !(spec_advance(base.with_top(f)).1 is Done),
{
    let s = base.with_top(f);
    let p = f.pkg->0;
    let g = if f.dep < p.depends.len() {
        at(f, Stage::CheckDep)
    } else {
        at(f, Stage::Downloading)
    };
    assert(s.with_top(g) == base.with_top(g).with_processing(base.processing)) by {
        assert(s.with_top(g).stack =~= base.with_top(g).stack);
    }
    lemma_wf_with_top(base, g, base.processing);
}

/// The machine's invariant holds after every move, and the machine reports
/// `Done` exactly when no installation is left in progress.
pub proof fn lemma_step_keeps_wf(s: InstallerView, reply: ReplyView)
    requires
        s.wf(),
        !s.finished(),
    ensures
        spec_step(s, reply).0.wf(),
        spec_step(s, reply).1 is Done <==> spec_step(s, reply).0.finished(),
{
    lemma_wf_parts(s);
    let f = s.top();
    let below = active_names(s.stack.drop_last());
    match f.stage {
        Stage::Leaving | Stage::AwaitChild => {
            let rest = InstallerView { stack: s.stack.drop_last(), ..s };
            if rest.stack.len() > 0 {
                let parent = rest.top();
                assert(parent == s.stack[s.stack.len() - 2]);
                assert(rest.stack.drop_last() =~= s.stack.drop_last().drop_last());
                assert(active_names(rest.stack) == active_names(rest.stack.drop_last()).push(parent.name));
                assert forall|i: int| 0 <= i < rest.stack.len() - 1 implies #[trigger] rest.stack[i].stage == Stage::AwaitChild && frame_ok(rest.stack[i]) by {
                    assert(rest.stack[i] == s.stack[i]);
                }
                lemma_advance_wf(rest, FrameView { dep: parent.dep + 1, ..parent });
            } else {
                assert(s.processing.len() == 0);
            }
        },
        Stage::CheckInstalled => {
            if reply == ReplyView::Exists(true) {
                lemma_wf_with_top(s, at(f, Stage::Leaving), s.processing);
            } else {
                lemma_wf_with_top(s, at(f, Stage::Configuring), s.processing.push(f.name));
            }
        },
        Stage::Configuring => {
            match reply {
                ReplyView::Config { repo_url, multilib } => {
                    lemma_same_hold(s, FrameView { stage: Stage::CheckLocal, repo_url, multilib, ..f });
                },
                _ => {
                    lemma_same_hold(
                        s,
                        FrameView { stage: Stage::CheckLocal, repo_url: Seq::empty(), multilib: false, ..f },
                    );
                },
            }
        },
        Stage::CheckLocal => {
            let local = reply == ReplyView::Exists(true);
            lemma_wf_with_top(
                s,
                FrameView { stage: Stage::Fetching, path: spec_package_file(f.name, local), ..f },
                s.processing,
            );
        },
        Stage::Resolving => {
            let parent = at(f, Stage::AwaitChild);
            let s1 = s.with_top(parent);
            let name = f.pkg->0.depends[f.dep as int];
            lemma_active_names_top(s.stack, parent);
            let child = if s.processing.contains(name) {
                new_frame(name, Stage::Leaving)
            } else {
                new_frame(name, Stage::CheckInstalled)
            };
            let t = InstallerView { stack: s1.stack.push(child), ..s1 };
            lemma_active_names_push(s1.stack, child);
            assert(t.stack.drop_last() == s1.stack);
            assert forall|i: int| 0 <= i < t.stack.len() - 1 implies #[trigger] t.stack[i].stage == Stage::AwaitChild && frame_ok(t.stack[i]) by {
                assert(t.stack[i] == s1.stack[i]);
                if i < s.stack.len() - 1 {
                    assert(s1.stack[i] == s.stack[i]);
                }
            }
            lemma_wf_with_top(t, child, s.processing);
            assert(t.with_top(child).with_processing(s.processing) == t) by {
                assert(t.with_top(child).stack =~= t.stack);
            }
        },
        Stage::Fetching | Stage::Downloading | Stage::Building(_) => {
            let next = match f.stage {
                Stage::Fetching => Stage::Reading,
                Stage::Downloading => Stage::Locating,
                Stage::Building(m32) => Stage::Registering(m32),
                _ => f.stage,
            };
            match reply {
                ReplyView::Performed(Err(e)) => {
                    lemma_leave_wf(s, if f.stage == Stage::Fetching || f.stage == Stage::Downloading { "error:"@ } else if f.stage == Stage::Building(true) { "multilib build error:"@ } else { "build error:"@ }, e);
                },
                _ => {
                    lemma_same_hold(s, at(f, next));
                },
            }
        },
        Stage::Reading => {
            lemma_wf_parts(s);
            match reply {
                ReplyView::Content(Ok(c)) => match spec_parse_package(c) {
                    Ok(pkg) => {
                        lemma_advance_wf(s, FrameView { pkg: Some(pkg), dep: 0, ..f });
                    },
                    Err(e) => {
                        lemma_leave_wf(s, "parse error:"@, e);
                    },
                },
                ReplyView::Content(Err(e)) => {
                    lemma_leave_wf(s, "parse error:"@, spec_read_error(f.path, e));
                },
                _ => {
                    lemma_leave_wf(s, "parse error:"@, Seq::empty());
                },
            }
        },
        Stage::CheckDep => {
            if reply == ReplyView::Exists(true) {
                lemma_advance_wf(s, FrameView { dep: f.dep + 1, ..f });
            } else {
                lemma_same_hold(s, at(f, Stage::Resolving));
            }
        },
        Stage::Locating => {
            match reply {
                ReplyView::Found(Ok(d)) => {
                    lemma_same_hold(s, FrameView { stage: Stage::Building(false), src_dir: d, ..f });
                },
                ReplyView::Found(Err(e)) => {
                    lemma_leave_wf(s, "error:"@, e);
                },
                _ => {
                    lemma_leave_wf(s, "error:"@, Seq::empty());
                },
            }
        },
        Stage::Registering(m32) => {
            match reply {
                ReplyView::Performed(Err(e)) => {
                    lemma_same_hold(s, at(f, Stage::Warned(m32)));
                },
                _ => {
                    lemma_same_hold(s, at(f, Stage::Merging(m32)));
                },
            }
        },
        Stage::Warned(m32) => {
            lemma_same_hold(s, at(f, Stage::Merging(m32)));
        },
        Stage::Merging(m32) => {
            match reply {
                ReplyView::Performed(Err(e)) => {
                    lemma_leave_wf(s, if m32 { "m32 merge error:"@ } else { "merge error:"@ }, "merge failed: "@ + e);
                },
                _ => {
                    if !m32 && f.multilib && f.pkg->0.multilib_support {
                        lemma_same_hold(s, at(f, Stage::Building(true)));
                    } else {
                        lemma_leave_wf(s, Seq::empty(), Seq::empty());
                    }
                },
            }
        },
    }
}

/// The names held by the first `m1` frames come first among those held by the first `m2`.
proof fn lemma_active_names_prefix(st: Seq<FrameView>, m1: int, m2: int)
    requires
        0 <= m1 <= m2 <= st.len(),
    ensures
        active_names(st.take(m1)).len() <= active_names(st.take(m2)).len(),
        forall|x: int| 0 <= x < active_names(st.take(m1)).len() ==> #[trigger] active_names(st.take(m1))[x]
            == active_names(st.take(m2))[x],
    decreases m2 - m1,
{
    if m1 < m2 {
        lemma_active_names_prefix(st, m1, m2 - 1);
        assert(st.take(m2).drop_last() =~= st.take(m2 - 1));
    }
}

/// A frame that holds its name holds it at its own place in the processing list.
proof fn lemma_active_place(st: Seq<FrameView>, k: int)
    requires
        0 <= k < st.len(),
        active(st[k].stage),
    ensures
        active_names(st.take(k)).len() < active_names(st.take(k + 1)).len(),
        active_names(st.take(k)).len() < active_names(st).len(),
        active_names(st)[active_names(st.take(k)).len() as int] == st[k].name,
{
    assert(st.take(k + 1).drop_last() =~= st.take(k));
    assert(st.take(k + 1).last() == st[k]);
    lemma_active_names_prefix(st, k + 1, st.len() as int);
    assert(st.take(st.len() as int) =~= st);
    let c = active_names(st.take(k)).len() as int;
    assert(active_names(st.take(k + 1)) == active_names(st.take(k)).push(st[k].name));
    assert(active_names(st.take(k + 1))[c] == st[k].name);
    assert(active_names(st.take(k + 1))[c] == active_names(st.take(st.len() as int))[c]);
}

/// Law: at most one installation of a package is in progress at a time: two
/// frames that hold their names in processing never hold the same name.
pub proof fn lemma_one_installation_per_package(s: InstallerView, i: int, j: int)
    requires
        s.wf(),
        0 <= i < j < s.stack.len(),
        active(s.stack[i].stage),
        active(s.stack[j].stage),
    ensures
        s.stack[i].name != s.stack[j].name,
{
    let st = s.stack;
    lemma_active_place(st, i);
    lemma_active_place(st, j);
    lemma_active_names_prefix(st, i + 1, j);
    let ci = active_names(st.take(i)).len() as int;
    let cj = active_names(st.take(j)).len() as int;
    assert(ci < cj);
    assert(s.processing[ci] != s.processing[cj]);
}

/// The shape of one move: the stack grows or shrinks by at most one frame; the
/// frames below the top stay as they were, except that when the top frame is
/// removed its parent goes on under the same name and the same hold on processing.
proof fn lemma_step_shape(u: InstallerView, reply: ReplyView)
    requires
        u.wf(),
        !u.finished(),
    ensures
        ({
            let t = spec_step(u, reply).0;
            let m = u.stack.len();
            &&& m <= t.stack.len() + 1 <= m + 2
            &&& t.stack.len() >= m ==> t.stack.take(m - 1) == u.stack.take(m - 1)
            &&& t.stack.len() + 1 == m && m >= 2 ==> {
                &&& t.stack.take(m - 2) == u.stack.take(m - 2)
                &&& t.stack.last().name == u.stack[m - 2].name
                &&& active(t.stack.last().stage) == active(u.stack[m - 2].stage)
            }
        }),
{
    lemma_wf_parts(u);
    let t = spec_step(u, reply).0;
    let m = u.stack.len();
    let f = u.top();
    match f.stage {
        Stage::Leaving | Stage::AwaitChild => {
            let rest = InstallerView { stack: u.stack.drop_last(), ..u };
            if m >= 2 {
                let parent = rest.top();
                assert(parent == u.stack[m - 2]);
                assert(parent.stage == Stage::AwaitChild);
                let r2 = rest.with_top(FrameView { dep: parent.dep + 1, ..parent });
                assert(r2.stack.take(m - 2) =~= u.stack.take(m - 2));
                assert(t.stack.take(m - 2) =~= r2.stack.take(m - 2));
            }
        },
        Stage::Resolving => {
            let s1 = u.with_top(at(f, Stage::AwaitChild));
            assert(t.stack.len() == m + 1);
            assert(t.stack.take(m - 1) =~= u.stack.take(m - 1));
        },
        _ => {
            assert(t.stack.len() == m);
            assert(t.stack.take(m - 1) =~= u.stack.take(m - 1));
        },
    }
}

/// The state after the machine answers the replies `rs` in turn, from `s`.
pub open spec fn run(s: InstallerView, rs: Seq<ReplyView>) -> InstallerView
    decreases rs.len(),
{
    if rs.len() == 0 {
        s
    } else {
        run(spec_step(s, rs[0]).0, rs.drop_first())
    }
}

/// Whether, answering the replies `rs` from `s`, the machine keeps at least
/// `n` frames before each move and each reply is of the kind asked for.
pub open spec fn stays_above(s: InstallerView, rs: Seq<ReplyView>, n: nat) -> bool
    decreases rs.len(),
{
    rs.len() == 0 || {
        &&& s.stack.len() >= n
        &&& fits(s.top().stage, rs[0])
        &&& stays_above(spec_step(s, rs[0]).0, rs.drop_first(), n)
    }
}

/// While a frame at depth `n` is alive the frames below it stay as they were;
/// the move that removes it leaves its parent under the same name and hold.
proof fn lemma_run_keeps_below(u: InstallerView, rs: Seq<ReplyView>, n: nat)
    requires
        u.wf(),
        n >= 1,
        u.stack.len() >= n,
        stays_above(u, rs, n),
        run(u, rs).stack.len() < n,
    ensures
        ({
            let t = run(u, rs);
            &&& t.wf()
            &&& t.stack.len() + 1 == n
            &&& n >= 2 ==> {
                &&& t.stack.take(n - 2) == u.stack.take(n - 2)
                &&& t.stack.last().name == u.stack[n - 2].name
                &&& active(t.stack.last().stage) == active(u.stack[n - 2].stage)
            }
        }),
    decreases rs.len(),
{
    if rs.len() > 0 {
        let t = spec_step(u, rs[0]).0;
        let m = u.stack.len();
        lemma_step_keeps_wf(u, rs[0]);
        lemma_step_shape(u, rs[0]);
        assert(stays_above(t, rs.drop_first(), n));
        if t.stack.len() < n {
            if rs.drop_first().len() > 0 {
                assert(t.stack.len() >= n);
            }
            assert(rs.drop_first().len() == 0);
            assert(m == n);
        } else {
            lemma_run_keeps_below(t, rs.drop_first(), n);
            if n >= 2 {
                if t.stack.len() >= m {
                    assert(t.stack.take(n - 2) =~= u.stack.take(m - 1).take(n - 2));
                    assert(u.stack.take(n - 2) =~= u.stack.take(m - 1).take(n - 2));
                    assert(t.stack[n - 2] == t.stack.take(m - 1)[n - 2]);
                } else {
                    assert(t.stack.take(n - 2) =~= u.stack.take(m - 2).take(n - 2));
                    assert(u.stack.take(n - 2) =~= u.stack.take(m - 2).take(n - 2));
                    if n - 2 < m - 2 {
                        assert(t.stack[n - 2] == t.stack.take(m - 2)[n - 2]);
                    }
                }
            }
        }
    }
}

/// Law: installing a package, with all the installations it nests, leaves
/// the processing list as it found it, whatever that list held, on every
/// path: a circular dependency, a package installed already, any failure, or
/// success. `s` is the state with the new frame on top, before it holds its
/// name; `rs` are the replies up to the move that removes that frame.
pub proof fn lemma_install_restores_processing(s: InstallerView, rs: Seq<ReplyView>)
    requires
        s.wf(),
        !s.finished(),
        !active(s.top().stage),
        stays_above(s, rs, s.stack.len()),
        run(s, rs).stack.len() < s.stack.len(),
    ensures
        run(s, rs).wf(),
        run(s, rs).stack.len() + 1 == s.stack.len(),
        run(s, rs).processing == s.processing,
{
    let n = s.stack.len();
    let t = run(s, rs);
    lemma_wf_parts(s);
    lemma_run_keeps_below(s, rs, n);
    if n >= 2 {
        assert(t.stack.drop_last() =~= t.stack.take(n - 2));
        assert(s.stack.drop_last().drop_last() =~= s.stack.take(n - 2));
        assert(s.stack.drop_last().last() == s.stack[n - 2]);
        assert(t.processing == active_names(t.stack));
        assert(active_names(t.stack) == active_names(s.stack.drop_last()));
    } else {
        assert(t.stack.len() == 0);
        assert(s.stack.drop_last().len() == 0);
    }
}

/// A stack whose frames all hold their names holds one name per frame.
proof fn lemma_all_active_len(st: Seq<FrameView>)
    requires
        forall|i: int| 0 <= i < st.len() ==> active(#[trigger] st[i].stage),
    ensures
        active_names(st).len() == st.len(),
    decreases st.len(),
{
    if st.len() > 0 {
        let d = st.drop_last();
        assert forall|i: int| 0 <= i < d.len() implies active(#[trigger] d[i].stage) by {
            assert(d[i] == st[i]);
        }
        lemma_all_active_len(d);
        assert(active(st[st.len() - 1].stage));
    }
}

/// The names held in processing are names of frames, and a stack whose frames
/// below the top all hold their names holds at least all but one of them.
proof fn lemma_active_names_count(st: Seq<FrameView>)
    requires
        forall|i: int| 0 <= i < st.len() - 1 ==> active(#[trigger] st[i].stage),
    ensures
        active_names(st).len() + 1 >= st.len(),
        forall|x: int| 0 <= x < active_names(st).len() ==> exists|i: int|
            0 <= i < st.len() && #[trigger] active_names(st)[x] == st[i].name,
    decreases st.len(),
{
    if st.len() > 0 {
        let d = st.drop_last();
        assert forall|i: int| 0 <= i < d.len() - 1 implies active(#[trigger] d[i].stage) by {
            assert(d[i] == st[i]);
        }
        lemma_active_names_count(d);
        assert forall|i: int| 0 <= i < d.len() implies active(#[trigger] d[i].stage) by {
            assert(d[i] == st[i]);
        }
        lemma_all_active_len(d);
        let a = active_names(st);
        assert forall|x: int| 0 <= x < a.len() implies exists|i: int|
            0 <= i < st.len() && #[trigger] a[x] == st[i].name by {
            if x < active_names(d).len() {
                assert(a[x] == active_names(d)[x]);
                let i = choose|i: int| 0 <= i < d.len() && active_names(d)[x] == d[i].name;
                assert(d[i] == st[i]);
            } else {
                assert(a[x] == st[st.len() - 1].name);
            }
        }
    }
}

/// Law: the nesting of installations is bounded by the number of packages:
/// every frame below the top holds its name in processing, no name twice, so
/// a stack whose names all come from a finite set `names` holds at most one
/// frame more than `names` has members. A dependency met again while it is
/// being installed ends at once (see `lemma_cycle_is_refused`) and nests nothing.
pub proof fn lemma_nesting_is_bounded(s: InstallerView, names: Set<Seq<char>>)
    requires
        s.wf(),
        names.finite(),
        forall|i: int| 0 <= i < s.stack.len() ==> names.contains(#[trigger] s.stack[i].name),
    ensures
        s.stack.len() <= names.len() + 1,
{
    assert forall|i: int| 0 <= i < s.stack.len() - 1 implies active(#[trigger] s.stack[i].stage) by {
        assert(s.stack[i].stage == Stage::AwaitChild);
    }
    lemma_active_names_count(s.stack);
    let p = s.processing;
    p.unique_seq_to_set();
    assert forall|x: Seq<char>| p.to_set().contains(x) implies names.contains(x) by {
        let k = choose|k: int| 0 <= k < p.len() && p[k] == x;
        let i = choose|i: int| 0 <= i < s.stack.len() && active_names(s.stack)[k] == s.stack[i].name;
        assert(names.contains(s.stack[i].name));
    }
    vstd::set_lib::lemma_len_subset(p.to_set(), names);
}

/// How far a frame has still to go, first part: whether it has yet to read its package.
pub open spec fn rank_hi(f: FrameView) -> int {
    match f.stage {
        Stage::CheckInstalled | Stage::Configuring | Stage::CheckLocal | Stage::Fetching
        | Stage::Reading => 1,
        _ => 0,
    }
}

/// How far a frame has still to go, second part: the steps left at its stage,
/// three for each dependency still to resolve.
pub open spec fn rank_lo(f: FrameView) -> int {
    let len = f.pkg->0.depends.len() as int;
    let left = if f.dep <= len { len - f.dep } else { 0 };
    match f.stage {
        Stage::CheckInstalled => 5,
        Stage::Configuring => 4,
        Stage::CheckLocal => 3,
        Stage::Fetching => 2,
        Stage::Reading => 1,
        Stage::CheckDep => 10 + 3 * left,
        Stage::Resolving => 9 + 3 * left,
        Stage::AwaitChild => 8 + 3 * left,
        Stage::Downloading => 10,
        Stage::Locating => 9,
        Stage::Building(m32) => if m32 { 4 } else { 8 },
        Stage::Registering(m32) => if m32 { 3 } else { 7 },
        Stage::Warned(m32) => if m32 { 2 } else { 6 },
        Stage::Merging(m32) => if m32 { 1 } else { 5 },
        Stage::Leaving => 0,
    }
}

/// Whether frame `f` has less left to do than frame `g`.
pub open spec fn progress_lt(f: FrameView, g: FrameView) -> bool {
    rank_hi(f) < rank_hi(g) || (rank_hi(f) == rank_hi(g) && rank_lo(f) < rank_lo(g))
}

/// The state after the machine answers `k` replies from `s`, the replies
/// being `rs(i)`, `rs(i + 1)`, and so on.
pub open spec fn iter(s: InstallerView, rs: spec_fn(nat) -> ReplyView, i: nat, k: nat) -> InstallerView
    decreases k,
{
    if k == 0 {
        s
    } else {
        iter(spec_step(s, rs(i)).0, rs, i + 1, (k - 1) as nat)
    }
}

/// Whether every dependency in `deps` is in `names`.
pub open spec fn deps_in(deps: Seq<Seq<char>>, names: Set<Seq<char>>) -> bool {
    forall|j: int| 0 <= j < deps.len() ==> names.contains(#[trigger] deps[j])
}

/// Whether the names of the frames, and the dependencies of the packages they
/// have read, are all in `names`.
pub open spec fn names_within(s: InstallerView, names: Set<Seq<char>>) -> bool {
    forall|i: int| 0 <= i < s.stack.len() ==> {
        &&& names.contains(#[trigger] s.stack[i].name)
        &&& s.stack[i].pkg is Some ==> deps_in(s.stack[i].pkg->0.depends, names)
    }
}

/// Whether a reply that hands over a package file names only dependencies in `names`.
pub open spec fn reply_within(r: ReplyView, names: Set<Seq<char>>) -> bool {
    match r {
        ReplyView::Content(Ok(c)) => match spec_parse_package(c) {
            Ok(p) => deps_in(p.depends, names),
            Err(_) => true,
        },
        _ => true,
    }
}

/// Applying `a` and then `b` replies is applying `a + b` replies.
proof fn lemma_iter_add(s: InstallerView, rs: spec_fn(nat) -> ReplyView, i: nat, a: nat, b: nat)
    ensures
        iter(s, rs, i, a + b) == iter(iter(s, rs, i, a), rs, i + a, b),
    decreases a,
{
    if a > 0 {
        lemma_iter_add(spec_step(s, rs(i)).0, rs, i + 1, (a - 1) as nat, b);
        assert((a + b - 1) as nat == (a - 1) as nat + b);
    }
}

/// The names held in processing are at most as many as `names` has.
proof fn lemma_processing_room(s: InstallerView, names: Set<Seq<char>>)
    requires
        s.wf(),
        names.finite(),
        names_within(s, names),
    ensures
        s.processing.len() <= names.len(),
        s.stack.len() > 0 ==> active_names(s.stack.drop_last()).len() <= s.processing.len(),
{
    assert forall|i: int| 0 <= i < s.stack.len() - 1 implies active(#[trigger] s.stack[i].stage) by {
        assert(s.stack[i].stage == Stage::AwaitChild);
    }
    lemma_active_names_count(s.stack);
    let p = s.processing;
    p.unique_seq_to_set();
    assert forall|x: Seq<char>| p.to_set().contains(x) implies names.contains(x) by {
        let k = choose|k: int| 0 <= k < p.len() && p[k] == x;
        let i = choose|i: int| 0 <= i < s.stack.len() && active_names(s.stack)[k] == s.stack[i].name;
        assert(names.contains(s.stack[i].name));
    }
    vstd::set_lib::lemma_len_subset(p.to_set(), names);
    if s.stack.len() > 0 {
        lemma_wf_parts(s);
    }
}

/// One move makes progress: the frame on top, or the parent it returns to,
/// has less left to do, and every name met stays within `names`.
#[verifier::spinoff_prover]
#[verifier::rlimit(40)]
proof fn lemma_step_progress(u: InstallerView, r: ReplyView, names: Set<Seq<char>>)
    requires
        u.wf(),
        !u.finished(),
        names_within(u, names),
        reply_within(r, names),
    ensures
        ({
            let t = spec_step(u, r).0;
            let m = u.stack.len();
            &&& t.wf()
            &&& names_within(t, names)
            &&& m <= t.stack.len() + 1 <= m + 2
            &&& t.stack.len() >= m ==> t.stack.take(m - 1) == u.stack.take(m - 1)
            &&& t.stack.len() == m ==> t.top().name == u.top().name && progress_lt(t.top(), u.top())
            &&& t.stack.len() == m + 1 ==> {
                &&& t.stack[m - 1].name == u.top().name
                &&& progress_lt(t.stack[m - 1], u.top())
            }
            &&& t.stack.len() + 1 == m && m >= 2 ==> {
                &&& t.stack.take(m - 2) == u.stack.take(m - 2)
                &&& t.top().name == u.stack[m - 2].name
                &&& progress_lt(t.top(), u.stack[m - 2])
            }
        }),
{
    lemma_wf_parts(u);
    lemma_step_keeps_wf(u, r);
    lemma_step_shape(u, r);
    let t = spec_step(u, r).0;
    let m = u.stack.len();
    let f = u.top();
    assert(names.contains(u.stack[m - 1].name));
    match f.stage {
        Stage::Leaving | Stage::AwaitChild => {
            let rest = InstallerView { stack: u.stack.drop_last(), ..u };
            if m >= 2 {
                let parent = rest.top();
                assert(parent == u.stack[m - 2]);
                assert(frame_ok(parent));
                assert(names.contains(u.stack[m - 2].name));
                assert forall|i: int| 0 <= i < t.stack.len() implies {
                    &&& names.contains(#[trigger] t.stack[i].name)
                    &&& t.stack[i].pkg is Some ==> deps_in(t.stack[i].pkg->0.depends, names)
                } by {
                    assert(names.contains(u.stack[i].name));
                    if i < m - 2 {
                        assert(t.stack[i] == u.stack[i]);
                    }
                }
            }
        },
        Stage::Resolving => {
            let dep = f.pkg->0.depends[f.dep as int];
            assert(deps_in(f.pkg->0.depends, names));
            assert(names.contains(dep));
            assert forall|i: int| 0 <= i < t.stack.len() implies {
                &&& names.contains(#[trigger] t.stack[i].name)
                &&& t.stack[i].pkg is Some ==> deps_in(t.stack[i].pkg->0.depends, names)
            } by {
                if i < m {
                    assert(names.contains(u.stack[i].name));
                    if i < m - 1 {
                        assert(t.stack[i] == u.stack[i]);
                    }
                }
            }
        },
        _ => {
            assert forall|i: int| 0 <= i < t.stack.len() implies {
                &&& names.contains(#[trigger] t.stack[i].name)
                &&& t.stack[i].pkg is Some ==> deps_in(t.stack[i].pkg->0.depends, names)
            } by {
                assert(names.contains(u.stack[i].name));
                if i < m - 1 {
                    assert(t.stack[i] == u.stack[i]);
                }
            }
        },
    }
}

/// The frame on top ends after finitely many moves, whatever the replies, as
/// long as every name met comes from the finite set `names`: it returns how
/// many. By then the frames below are as they were, except that the parent
/// has gone on and has less left to do.
proof fn lemma_frame_ends(
    u: InstallerView,
    rs: spec_fn(nat) -> ReplyView,
    i: nat,
    names: Set<Seq<char>>,
) -> (k: nat)
    requires
        u.wf(),
        !u.finished(),
        names.finite(),
        names_within(u, names),
        forall|j: nat| reply_within(#[trigger] rs(j), names),
    ensures
        ({
            let t = iter(u, rs, i, k);
            let n = u.stack.len();
            &&& t.wf()
            &&& names_within(t, names)
            &&& t.stack.len() + 1 == n
            &&& n >= 2 ==> {
                &&& t.stack.take(n - 2) == u.stack.take(n - 2)
                &&& t.top().name == u.stack[n - 2].name
                &&& progress_lt(t.top(), u.stack[n - 2])
            }
        }),
    decreases names.len() - active_names(u.stack.drop_last()).len(), rank_hi(u.top()), rank_lo(
        u.top(),
    ),
{
    let n = u.stack.len();
    let t = spec_step(u, rs(i)).0;
    lemma_step_progress(u, rs(i), names);
    lemma_processing_room(u, names);
    lemma_wf_parts(u);
    assert(frame_ok(u.top()));
    assert(iter(u, rs, i, 1) == iter(t, rs, i + 1, 0));
    if t.stack.len() < n {
        1
    } else if t.stack.len() == n {
        assert(t.stack.drop_last() =~= t.stack.take(n - 1));
        assert(u.stack.drop_last() =~= u.stack.take(n - 1));
        assert(frame_ok(t.top())) by {
            lemma_wf_parts(t);
        }
        let k2 = lemma_frame_ends(t, rs, i + 1, names);
        assert(iter(u, rs, i, 1 + k2) == iter(t, rs, i + 1, k2));
        if n >= 2 {
            assert(t.stack.take(n - 2) =~= t.stack.take(n - 1).take(n - 2));
            assert(u.stack.take(n - 2) =~= u.stack.take(n - 1).take(n - 2));
            assert(t.stack[n - 2] == t.stack.take(n - 1)[n - 2]);
        }
        1 + k2
    } else {
        // The top frame asked for a dependency: a child frame runs first.
        lemma_processing_room(t, names);
        lemma_wf_parts(t);
        assert(t.stack.drop_last() =~= u.stack.take(n - 1).push(t.stack[n - 1]));
        assert(u.stack.drop_last() =~= u.stack.take(n - 1));
        assert(t.stack[n - 1].stage == Stage::AwaitChild);
        lemma_active_names_push(u.stack.take(n - 1), t.stack[n - 1]);
        let k1 = lemma_frame_ends(t, rs, i + 1, names);
        let t2 = iter(t, rs, i + 1, k1);
        assert(t2.stack.len() == n);
        assert(t2.stack.take(n - 1) == t.stack.take(n - 1));
        assert(t.stack.take(n - 1) == u.stack.take(n - 1));
        assert(t2.stack.drop_last() =~= t2.stack.take(n - 1));
        assert(progress_lt(t2.top(), u.top()));
        assert(frame_ok(t2.top())) by {
            lemma_wf_parts(t2);
        }
        let k2 = lemma_frame_ends(t2, rs, i + 1 + k1, names);
        lemma_iter_add(t, rs, i + 1, k1, k2);
        assert(iter(u, rs, i, 1 + (k1 + k2)) == iter(t, rs, i + 1, k1 + k2));
        if n >= 2 {
            assert(t2.stack.take(n - 2) =~= t2.stack.take(n - 1).take(n - 2));
            assert(u.stack.take(n - 2) =~= u.stack.take(n - 1).take(n - 2));
            assert(t2.stack[n - 2] == t2.stack.take(n - 1)[n - 2]);
        }
        1 + (k1 + k2)
    }
}

/// The machine ends from `u`, with replies from `rs(i)` on.
proof fn lemma_ends_from(
    u: InstallerView,
    rs: spec_fn(nat) -> ReplyView,
    i: nat,
    names: Set<Seq<char>>,
) -> (k: nat)
    requires
        u.wf(),
        names.finite(),
        names_within(u, names),
        forall|j: nat| reply_within(#[trigger] rs(j), names),
    ensures
        iter(u, rs, i, k).finished(),
    decreases u.stack.len(),
{
    if u.finished() {
        0
    } else {
        let k1 = lemma_frame_ends(u, rs, i, names);
        let t = iter(u, rs, i, k1);
        let k2 = lemma_ends_from(t, rs, i + k1, names);
        lemma_iter_add(u, rs, i, k1, k2);
        k1 + k2
    }
}

/// Law: an installation ends. Whatever the system replies, in a finite number
/// of moves the machine has no installation left in progress, as long as
/// every package name it meets comes from a finite set `names`: the names of
/// the frames, the dependencies of the packages they have read, and those of
/// every package file handed back. Dependency cycles end at the name already
/// in processing; nesting is bounded by `lemma_nesting_is_bounded`.
pub proof fn lemma_installation_ends(
    s: InstallerView,
    rs: spec_fn(nat) -> ReplyView,
    names: Set<Seq<char>>,
) -> (k: nat)
    requires
        s.wf(),
        names.finite(),
        names_within(s, names),
        forall|j: nat| reply_within(#[trigger] rs(j), names),
    ensures
        iter(s, rs, 0, k).finished(),
{
    lemma_ends_from(s, rs, 0, names)
}

/// Law: a package is worked on only after its dependencies: a frame that
/// fetches, builds, records or merges its package has gone through its whole
/// list of dependencies, each found installed or its installation ended.
pub proof fn lemma_dependencies_first(s: InstallerView, i: int)
    requires
        s.wf(),
        0 <= i < s.stack.len(),
        past_dependencies(s.stack[i].stage),
    ensures
        s.stack[i].pkg is Some,
        s.stack[i].dep == s.stack[i].pkg->0.depends.len(),
{
    assert(frame_ok(s.stack[i]));
}

/// Law: a dependency that is being installed already is not installed again:
/// the machine reports a circular dependency and leaves the processing list as it was.
pub proof fn lemma_cycle_is_refused(s: InstallerView, reply: ReplyView)
    requires
        s.wf(),
        !s.finished(),
        s.top().stage == Stage::Resolving,
        s.processing.contains(s.top().pkg->0.depends[s.top().dep as int]),
    ensures
        ({
            let dep = s.top().pkg->0.depends[s.top().dep as int];
            let (t, r) = spec_step(s, reply);
            &&& r == RequestView::Perform(
                seq![
                    ActionView::Complain {
                        label: "error:"@,
                        message: "circular dependency detected: "@ + dep + "!"@,
                    },
                ],
            )
            &&& t.processing == s.processing
            &&& t.top() == new_frame(dep, Stage::Leaving)
        }),
{
}

/// Law: when the installation ends, no package is left in processing.
pub proof fn lemma_done_releases_all(s: InstallerView, reply: ReplyView)
    requires
        s.wf(),
        !s.finished(),
        fits(s.top().stage, reply),
        spec_step(s, reply).1 is Done,
    ensures
        spec_step(s, reply).0.processing.len() == 0,
{
    lemma_step_keeps_wf(s, reply);
}

/// Whether `part` occurs in `acts` as a run of consecutive actions.
pub open spec fn contains_part(acts: Seq<ActionView>, part: Seq<ActionView>) -> bool {
    exists|k: int| 0 <= k && k + part.len() <= acts.len() && #[trigger] acts.subrange(k, k + part.len()) == part
}

/// Law: a build stages the package into the very directory that is then
/// recorded and merged, for the 64-bit and the 32-bit flavour alike. When a
/// move asks for a build, its actions hold the whole build plan of the
/// package from the frame's source directory into a staging directory; the
/// next request, once the build went through, records that directory under
/// the package's name (with `-m32` for the 32-bit flavour); and the request
/// after the recording, whether it went through or failed, merges that same
/// directory.
pub proof fn lemma_build_stages_what_is_recorded(
    s: InstallerView,
    r: ReplyView,
    e: Seq<char>,
    r2: ReplyView,
)
    requires
        s.wf(),
        !s.finished(),
        spec_step(s, r).0.stack.len() == s.stack.len(),
        spec_step(s, r).0.top().stage is Building,
    ensures
        ({
            let (t, req) = spec_step(s, r);
            let f = t.top();
            let m32 = f.stage->Building_0;
            let (t2, req2) = spec_step(t, ReplyView::Performed(Ok(())));
            &&& req2 is Register
            &&& req2->Register_name == if m32 { f.name + "-m32"@ } else { f.name }
            &&& req is Perform
            &&& contains_part(
                req->Perform_0,
                spec_build_plan(f.pkg->0, f.src_dir, s.prefix, req2->Register_dest_dir, m32),
            )
            &&& spec_step(t2, ReplyView::Performed(Ok(()))).1 == RequestView::Merge(req2->Register_dest_dir)
            &&& spec_step(spec_step(t2, ReplyView::Performed(Err(e))).0, r2).1 == RequestView::Merge(
                req2->Register_dest_dir,
            )
        }),
{
    lemma_wf_parts(s);
    let (t, req) = spec_step(s, r);
    let g = s.top();
    let f = t.top();
    let m32 = f.stage->Building_0;
    let dest = image_dir(g.name, m32);
    let plan = spec_build_plan(f.pkg->0, f.src_dir, s.prefix, dest, m32);
    match g.stage {
        Stage::Locating => {
            let acts = build_actions(s, g.name, g.pkg->0, f.src_dir, false);
            assert(acts.subrange(2, 2 + plan.len() as int) =~= plan);
        },
        Stage::Merging(false) => {
            let acts = seq![ActionView::RemoveDir(image_dir(g.name, false))] + build_actions(
                s,
                g.name,
                g.pkg->0,
                g.src_dir,
                true,
            );
            assert(acts.subrange(4, 4 + plan.len() as int) =~= plan);
        },
        _ => {},
    }
}

/// Answering one more reply is one more move.
proof fn lemma_run_push(s: InstallerView, xs: Seq<ReplyView>, x: ReplyView)
    ensures
        run(s, xs.push(x)) == spec_step(run(s, xs), x).0,
    decreases xs.len(),
{
    if xs.len() > 0 {
        assert(xs.push(x)[0] == xs[0]);
        assert(xs.push(x).drop_first() =~= xs.drop_first().push(x));
        lemma_run_push(spec_step(s, xs[0]).0, xs.drop_first(), x);
        assert(run(s, xs) == run(spec_step(s, xs[0]).0, xs.drop_first()));
    } else {
        assert(xs.push(x)[0] == x);
        assert(xs.push(x).drop_first() =~= Seq::<ReplyView>::empty());
        assert(run(spec_step(s, x).0, Seq::<ReplyView>::empty()) == spec_step(s, x).0);
        assert(run(s, xs) == s);
    }
}

/// Whether `f` is the frame `g` after its sources were found in `d`: same
/// name and package, source directory `d`, building, recording, merging or leaving.
pub open spec fn after_locating(f: FrameView, g: FrameView, d: Seq<char>) -> bool {
    &&& f.name == g.name
    &&& f.pkg == g.pkg
    &&& f.src_dir == d
    &&& (f.stage is Building || f.stage is Registering || f.stage is Warned || f.stage is Merging
        || f.stage == Stage::Leaving)
}

/// Once the sources are found in `d`, the frame keeps `d` as long as it lives.
proof fn lemma_found_dir_kept(s: InstallerView, d: Seq<char>, rs: Seq<ReplyView>, j: int)
    requires
        s.wf(),
        !s.finished(),
        s.top().stage == Stage::Locating,
        rs.len() >= 1,
        rs[0] == ReplyView::Found(Ok(d)),
        forall|i: int| 0 <= i <= rs.len() ==> (#[trigger] run(s, rs.take(i))).stack.len() == s.stack.len(),
        1 <= j <= rs.len(),
    ensures
        run(s, rs.take(j)).wf(),
        after_locating(run(s, rs.take(j)).top(), s.top(), d),
        run(s, rs.take(j)).prefix == s.prefix,
    decreases j,
{
    let n = s.stack.len();
    lemma_run_push(s, rs.take(j - 1), rs[j - 1]);
    assert(rs.take(j) =~= rs.take(j - 1).push(rs[j - 1]));
    assert(run(s, rs.take(j)).stack.len() == n);
    assert(run(s, rs.take(j - 1)).stack.len() == n);
    if j == 1 {
        assert(rs.take(0) =~= Seq::<ReplyView>::empty());
        assert(run(s, rs.take(0)) == s);
        lemma_step_keeps_wf(s, rs[0]);
    } else {
        lemma_found_dir_kept(s, d, rs, j - 1);
        let u = run(s, rs.take(j - 1));
        lemma_step_keeps_wf(u, rs[j - 1]);
        lemma_wf_parts(u);
    }
}

/// Law: both builds of a package, the 64-bit one and the 32-bit one, build
/// from the directory in which its sources were found. From the move that
/// learns that the sources are in `d`, as long as the package's frame is on
/// top, every request to build is the package's build plan from `d` into its
/// staging directory (`/tmp/rad/image/<name>`, or `<name>-m32`).
pub proof fn lemma_builds_use_found_dir(s: InstallerView, d: Seq<char>, rs: Seq<ReplyView>, k: int)
    requires
        s.wf(),
        !s.finished(),
        s.top().stage == Stage::Locating,
        rs.len() >= 1,
        rs[0] == ReplyView::Found(Ok(d)),
        forall|i: int| 0 <= i <= rs.len() ==> (#[trigger] run(s, rs.take(i))).stack.len() == s.stack.len(),
        0 <= k < rs.len(),
    ensures
        ({
            let (t, req) = spec_step(run(s, rs.take(k)), rs[k]);
            let m32 = t.top().stage->Building_0;
            t.top().stage is Building ==> req is Perform && contains_part(
                req->Perform_0,
                spec_build_plan(s.top().pkg->0, d, s.prefix, image_dir(s.top().name, m32), m32),
            )
        }),
{
    let u = run(s, rs.take(k));
    let t = spec_step(u, rs[k]).0;
    lemma_run_push(s, rs.take(k), rs[k]);
    assert(rs.take(k + 1) =~= rs.take(k).push(rs[k]));
    lemma_found_dir_kept(s, d, rs, k + 1);
    assert(u.stack.len() == s.stack.len());
    assert(t.stack.len() == s.stack.len());
    if k == 0 {
        assert(rs.take(0) =~= Seq::<ReplyView>::empty());
        assert(u == s);
    } else {
        lemma_found_dir_kept(s, d, rs, k);
    }
    if t.top().stage is Building {
        lemma_build_stages_what_is_recorded(u, rs[k], Seq::empty(), ReplyView::Exists(false));
    }
}

} // verus!
