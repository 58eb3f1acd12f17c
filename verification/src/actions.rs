//! The actions that rad carries out on the system, as plain values: the
//! library plans them, the program performs them in order.
use vstd::prelude::*;
use crate::text::{concat2, concat3, copy_string, copy_strings, views};

verus! {

/// A process to start: the program, its arguments, the directory it runs in,
/// and the environment variables it gets on top of the inherited ones.
#[derive(Debug, PartialEq, Eq)]
pub struct CommandSpec {
    pub program: String,
    pub args: Vec<String>,
    pub dir: Option<String>,
    pub env: Vec<(String, String)>,
}

/// The model of a `CommandSpec`.
pub struct CommandView {
    pub program: Seq<char>,
    pub args: Seq<Seq<char>>,
    pub dir: Option<Seq<char>>,
    pub env: Seq<(Seq<char>, Seq<char>)>,
}

/// The views of a list of variable assignments.
pub open spec fn env_views(env: Seq<(String, String)>) -> Seq<(Seq<char>, Seq<char>)> {
    env.map_values(|kv: (String, String)| (kv.0@, kv.1@))
}

impl View for CommandSpec {
    type V = CommandView;

    open spec fn view(&self) -> CommandView {
        CommandView {
            program: self.program@,
            args: views(self.args@),
            dir: match self.dir {
                Some(d) => Some(d@),
                None => None,
            },
            env: env_views(self.env@),
        }
    }
}

/// One step of a build. The caller stops at the first step that fails.
#[derive(Debug, PartialEq, Eq)]
pub enum Action {
    /// Print a line.
    Say(String),
    /// Print an error line on standard error: `[rad] `, the label in red, the message.
    Complain { label: String, message: String },
    /// Print a line on standard error.
    Warn(String),
    /// Create a directory and its parents; failing here is fatal.
    CreateDir(String),
    /// Remove a directory tree, ignoring failure.
    RemoveDir(String),
    /// Run a command under a label: failing to start it, or a failure status,
    /// ends the build with an error that names the label.
    Run { label: String, command: CommandSpec },
    /// Copy a file: failure ends the work with `failure` followed by the reason.
    Copy { from: String, to: String, failure: String },
    /// Create a directory and its parents: failure ends the work with
    /// `failure` followed by the reason.
    MakeDir { path: String, failure: String },
    /// Run a command: failing to start it ends the work with `start_failure`
    /// followed by the reason, a failure status with `failure`.
    Step { command: CommandSpec, start_failure: String, failure: String },
}

/// The model of an `Action`.
pub enum ActionView {
    Say(Seq<char>),
    Complain { label: Seq<char>, message: Seq<char> },
    Warn(Seq<char>),
    CreateDir(Seq<char>),
    RemoveDir(Seq<char>),
    Run { label: Seq<char>, command: CommandView },
    Copy { from: Seq<char>, to: Seq<char>, failure: Seq<char> },
    MakeDir { path: Seq<char>, failure: Seq<char> },
    Step { command: CommandView, start_failure: Seq<char>, failure: Seq<char> },
}

impl View for Action {
    type V = ActionView;

    open spec fn view(&self) -> ActionView {
        match self {
            Action::Say(s) => ActionView::Say(s@),
            Action::Complain { label, message } => ActionView::Complain {
                label: label@,
                message: message@,
            },
            Action::Warn(s) => ActionView::Warn(s@),
            Action::CreateDir(s) => ActionView::CreateDir(s@),
            Action::RemoveDir(s) => ActionView::RemoveDir(s@),
            Action::Run { label, command } => ActionView::Run { label: label@, command: command@ },
            Action::Copy { from, to, failure } => ActionView::Copy {
                from: from@,
                to: to@,
                failure: failure@,
            },
            Action::MakeDir { path, failure } => ActionView::MakeDir { path: path@, failure: failure@ },
            Action::Step { command, start_failure, failure } => ActionView::Step {
                command: command@,
                start_failure: start_failure@,
                failure: failure@,
            },
        }
    }
}

/// How carrying out an action failed: it could not be done or started, for
/// this reason; or the command it ran ended with this failure status.
#[derive(Debug, PartialEq, Eq)]
pub enum Failure {
    Start(String),
    Status(String),
}

/// The model of a `Failure`.
pub enum FailureView {
    Start(Seq<char>),
    Status(Seq<char>),
}

impl View for Failure {
    type V = FailureView;

    open spec fn view(&self) -> FailureView {
        match self {
            Failure::Start(e) => FailureView::Start(e@),
            Failure::Status(d) => FailureView::Status(d@),
        }
    }
}

/// The error that ends the work when `action` fails so: for a labelled run,
/// the label and what went wrong; for a step, its start failure text followed
/// by the reason, or its failure text; for a copy or a directory, its failure
/// text followed by the reason. Printing, creating a directory (whose failure
/// is fatal) and removing one (whose failure is ignored) end no work: none.
pub open spec fn spec_failure_message(action: ActionView, failure: FailureView) -> Option<Seq<char>> {
    match action {
        ActionView::Run { label, .. } => Some(
            match failure {
                FailureView::Start(e) => label + " failed to start: "@ + e,
                FailureView::Status(d) => label + " exited with status: "@ + d,
            },
        ),
        ActionView::Step { start_failure, failure: text, .. } => Some(
            match failure {
                FailureView::Start(e) => start_failure + e,
                FailureView::Status(_) => text,
            },
        ),
        ActionView::Copy { failure: text, .. } | ActionView::MakeDir { failure: text, .. } => Some(
            match failure {
                FailureView::Start(e) => text + e,
                FailureView::Status(d) => text + d,
            },
        ),
        _ => None,
    }
}

/// The error that ends the work when `action` fails as `failure` tells.
pub fn failure_message(action: &Action, failure: &Failure) -> (r: Option<String>)
    ensures
        match r {
            Some(m) => spec_failure_message(action@, failure@) == Some(m@),
            None => spec_failure_message(action@, failure@) is None,
        },
{
    match action {
        Action::Run { label, .. } => Some(
            match failure {
                Failure::Start(e) => concat3(label.as_str(), " failed to start: ", e.as_str()),
                Failure::Status(d) => concat3(label.as_str(), " exited with status: ", d.as_str()),
            },
        ),
        Action::Step { start_failure, failure: text, .. } => Some(
            match failure {
                Failure::Start(e) => concat2(start_failure.as_str(), e.as_str()),
                Failure::Status(_) => copy_string(text),
            },
        ),
        Action::Copy { failure: text, .. } | Action::MakeDir { failure: text, .. } => Some(
            match failure {
                Failure::Start(e) => concat2(text.as_str(), e.as_str()),
                Failure::Status(d) => concat2(text.as_str(), d.as_str()),
            },
        ),
        _ => None,
    }
}

/// The views of a list of actions.
pub open spec fn action_views(v: Seq<Action>) -> Seq<ActionView> {
    v.map_values(|a: Action| a@)
}

/// A command without extra environment.
pub open spec fn plain(program: Seq<char>, args: Seq<Seq<char>>, dir: Seq<char>) -> CommandView {
    CommandView { program, args, dir: Some(dir), env: Seq::empty() }
}

pub(crate) fn lit(s: &str) -> (r: String)
    ensures
        r@ == s@,
{
    String::from_str(s)
}

pub(crate) fn plain_cmd(program: &str, args: Vec<String>, dir: &str) -> (r: CommandSpec)
    ensures
        r@ == plain(program@, views(args@), dir@),
{
    let r = CommandSpec { program: lit(program), args, dir: Some(lit(dir)), env: Vec::new() };
    assert(env_views(r.env@) =~= Seq::<(Seq<char>, Seq<char>)>::empty());
    r
}

pub(crate) fn no_args() -> (r: Vec<String>)
    ensures
        views(r@) == Seq::<Seq<char>>::empty(),
{
    let r: Vec<String> = Vec::new();
    assert(views(r@) =~= Seq::<Seq<char>>::empty());
    r
}

pub(crate) fn strings1(a: String) -> (r: Vec<String>)
    ensures
        views(r@) == seq![a@],
{
    let mut r: Vec<String> = Vec::new();
    r.push(a);
    assert(views(r@) =~= seq![a@]);
    r
}

pub(crate) fn strings2(a: String, b: String) -> (r: Vec<String>)
    ensures
        views(r@) == seq![a@, b@],
{
    let mut r: Vec<String> = Vec::new();
    r.push(a);
    r.push(b);
    assert(views(r@) =~= seq![a@, b@]);
    r
}

pub(crate) fn push_string(v: &mut Vec<String>, s: String)
    ensures
        views(final(v)@) == views(old(v)@).push(s@),
{
    v.push(s);
    assert(views(v@) =~= views(old(v)@).push(s@));
}

pub(crate) fn push_all(v: &mut Vec<String>, w: &Vec<String>)
    ensures
        views(final(v)@) == views(old(v)@) + views(w@),
{
    let mut w2 = copy_strings(w);
    let ghost a = views(v@);
    let ghost b = views(w2@);
    v.append(&mut w2);
    assert(views(v@) =~= a + b);
}

pub(crate) fn push_action(plan: &mut Vec<Action>, a: Action)
    ensures
        action_views(final(plan)@) == action_views(old(plan)@).push(a@),
{
    plan.push(a);
    assert(action_views(plan@) =~= action_views(old(plan)@).push(a@));
}

} // verus!
