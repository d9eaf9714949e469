//! What passes between a run and the program that drives it: the settings of
//! a run, the actions it asks for, the events that answer them, and how a run
//! ends.

use vstd::prelude::*;

verus! {

/// The settings of one run.
#[derive(Debug, PartialEq, Eq)]
pub struct Config {
    /// The directory whose markdown files are rewritten and renamed.
    pub target_dir: String,
    /// The directory in which rewritten files wait; it must not exist yet.
    pub staging_dir: String,
    /// The literal string that is replaced.
    pub from: String,
    /// The string that is put in its place.
    pub to: String,
    /// Whether changes are written. Without it the run only reports.
    pub write: bool,
}

/// [`Config`] over plain sequences.
pub struct ConfigView {
    pub target_dir: Seq<char>,
    pub staging_dir: Seq<char>,
    pub from: Seq<char>,
    pub to: Seq<char>,
    pub write: bool,
}

impl View for Config {
    type V = ConfigView;

    open spec fn view(&self) -> ConfigView {
        ConfigView {
            target_dir: self.target_dir@,
            staging_dir: self.staging_dir@,
            from: self.from@,
            to: self.to@,
            write: self.write,
        }
    }
}

/// One file that goes to another path.
#[derive(Debug, PartialEq, Eq)]
pub struct Rename {
    /// The path the file has.
    pub source: String,
    /// The path the file gets.
    pub destination: String,
}

impl DeepView for Rename {
    type V = (Seq<char>, Seq<char>);

    open spec fn deep_view(&self) -> (Seq<char>, Seq<char>) {
        (self.source@, self.destination@)
    }
}

/// How a run ended.
#[derive(Debug, PartialEq, Eq)]
pub enum Outcome {
    /// Every file was handled. In a dry run the counts say what a run that
    /// writes would do.
    Success { text_updates: usize, files_moved: usize },
    /// The staging directory was there before the run began; nothing was done.
    StagingExists,
    /// `destination`, to which `source` would go, is taken: by another file
    /// on disk, or by an earlier source of this run. Nothing was moved or
    /// removed. `staging_left` says that the staging directory is still there
    /// although its removal was asked for.
    Collision { source: String, destination: String, staging_left: bool },
    /// Every file was handled, but the staging directory is still there.
    CleanupFailed { text_updates: usize, files_moved: usize },
    /// A step failed, or was answered by an event of the wrong kind. The run
    /// stopped there; `completed` lists the sources that had been put in
    /// place in full before that.
    Failed { completed: Vec<String> },
}

/// [`Outcome`] over plain sequences and numbers.
pub enum OutcomeView {
    Success { text_updates: nat, files_moved: nat },
    StagingExists,
    Collision { source: Seq<char>, destination: Seq<char>, staging_left: bool },
    CleanupFailed { text_updates: nat, files_moved: nat },
    Failed { completed: Seq<Seq<char>> },
}

impl View for Outcome {
    type V = OutcomeView;

    open spec fn view(&self) -> OutcomeView {
        match self {
            Outcome::Success { text_updates, files_moved } => OutcomeView::Success {
                text_updates: *text_updates as nat,
                files_moved: *files_moved as nat,
            },
            Outcome::StagingExists => OutcomeView::StagingExists,
            Outcome::Collision { source, destination, staging_left } => OutcomeView::Collision {
                source: source@,
                destination: destination@,
                staging_left: *staging_left,
            },
            Outcome::CleanupFailed { text_updates, files_moved } => OutcomeView::CleanupFailed {
                text_updates: *text_updates as nat,
                files_moved: *files_moved as nat,
            },
            Outcome::Failed { completed } => OutcomeView::Failed {
                completed: completed.deep_view(),
            },
        }
    }
}

impl Outcome {
    /// The exit code of a program that ends this way: 0 for success, a dry
    /// run included, and 1 for everything else.
    pub fn exit_code(&self) -> (code: i32)
        ensures
            code == if self@ is Success { 0int } else { 1int },
    {
        match self {
            Outcome::Success { .. } => 0,
            _ => 1,
        }
    }
}

/// One piece of outside work that a run asks for.
#[derive(Debug, PartialEq, Eq)]
pub enum Action {
    /// List the entries of `dir` as paths. Answered by [`Event::Listed`].
    List { dir: String },
    /// Say whether anything exists at `path`. Answered by [`Event::Probed`].
    Probe { path: String },
    /// Create the directory `path`. Answered by [`Event::Done`].
    CreateDir { path: String },
    /// Read the file at `path` as text. Answered by [`Event::Text`].
    Read { path: String },
    /// Write `text` to a new file at `path`. Answered by [`Event::Done`].
    Write { path: String, text: String },
    /// Move the file at `staged` to `destination`. With `replace` the
    /// destination is the file's own source and is written over; without it
    /// nothing may be at the destination, and the move fails if something
    /// is. Answered by [`Event::Done`].
    Move { staged: String, destination: String, replace: bool },
    /// Remove the file at `path`. Answered by [`Event::Done`].
    Remove { path: String },
    /// Remove the directory `path` with all that is in it, then say whether
    /// anything is still at `path`. Answered by [`Event::Probed`].
    RemoveDir { path: String },
    /// Nothing is left to do: the run has ended with `outcome`.
    Finish { outcome: Outcome },
}

/// [`Action`] over plain sequences.
pub enum ActionView {
    List { dir: Seq<char> },
    Probe { path: Seq<char> },
    CreateDir { path: Seq<char> },
    Read { path: Seq<char> },
    Write { path: Seq<char>, text: Seq<char> },
    Move { staged: Seq<char>, destination: Seq<char>, replace: bool },
    Remove { path: Seq<char> },
    RemoveDir { path: Seq<char> },
    Finish { outcome: OutcomeView },
}

impl View for Action {
    type V = ActionView;

    open spec fn view(&self) -> ActionView {
        match self {
            Action::List { dir } => ActionView::List { dir: dir@ },
            Action::Probe { path } => ActionView::Probe { path: path@ },
            Action::CreateDir { path } => ActionView::CreateDir { path: path@ },
            Action::Read { path } => ActionView::Read { path: path@ },
            Action::Write { path, text } => ActionView::Write { path: path@, text: text@ },
            Action::Move { staged, destination, replace } => ActionView::Move {
                staged: staged@,
                destination: destination@,
                replace: *replace,
            },
            Action::Remove { path } => ActionView::Remove { path: path@ },
            Action::RemoveDir { path } => ActionView::RemoveDir { path: path@ },
            Action::Finish { outcome } => ActionView::Finish { outcome: outcome@ },
        }
    }
}

impl ActionView {
    /// The action creates, changes or removes something on disk.
    pub open spec fn mutates(self) -> bool {
        self is CreateDir || self is Write || self is Move || self is Remove || self is RemoveDir
    }
}

impl Action {
    /// Whether the action creates, changes or removes something on disk.
    pub fn mutates(&self) -> (yes: bool)
        ensures
            yes == self@.mutates(),
    {
        match self {
            Action::CreateDir { .. } => true,
            Action::Write { .. } => true,
            Action::Move { .. } => true,
            Action::Remove { .. } => true,
            Action::RemoveDir { .. } => true,
            _ => false,
        }
    }
}

/// The answer to an action.
#[derive(Debug, PartialEq, Eq)]
pub enum Event {
    /// The entries of the directory, as paths, in the order they were listed.
    Listed { entries: Vec<String> },
    /// Whether anything exists at the path that was asked about.
    Probed { exists: bool },
    /// The text of the file that was read.
    Text { text: String },
    /// The step was carried out.
    Done,
    /// The step could not be carried out.
    Failed,
}

/// [`Event`] over plain sequences.
pub enum EventView {
    Listed { entries: Seq<Seq<char>> },
    Probed { exists: bool },
    Text { text: Seq<char> },
    Done,
    Failed,
}

impl View for Event {
    type V = EventView;

    open spec fn view(&self) -> EventView {
        match self {
            Event::Listed { entries } => EventView::Listed { entries: entries.deep_view() },
            Event::Probed { exists } => EventView::Probed { exists: *exists },
            Event::Text { text } => EventView::Text { text: text@ },
            Event::Done => EventView::Done,
            Event::Failed => EventView::Failed,
        }
    }
}

} // verus!
