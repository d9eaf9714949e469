//! The run that a program drives: it hands out one action at a time and
//! takes the event that answers it.

use vstd::prelude::*;
use crate::lines::stage_text;
use crate::model::{clashes, count_moved, initial, moved, renames_of, RunView, StageView};
use crate::paths::{destination_of, destination_path, markdown_only, select_markdown, staged_at,
    staged_path};
use crate::protocol::{Action, Config, Event, Outcome, Rename};

verus! {

/// Where a run stands; see [`StageView`].
enum Stage {
    Listing,
    Guarding,
    Preparing,
    Reading(usize),
    Writing(usize, String),
    Probing(usize),
    Discarding(usize),
    Moving(usize),
    Removing(usize),
    Clearing,
    Finished(Outcome),
}

impl Stage {
    spec fn model(&self) -> StageView {
        match self {
            Stage::Listing => StageView::Listing,
            Stage::Guarding => StageView::Guarding,
            Stage::Preparing => StageView::Preparing,
            Stage::Reading(i) => StageView::Reading(*i as nat),
            Stage::Writing(i, text) => StageView::Writing(*i as nat, text@),
            Stage::Probing(i) => StageView::Probing(*i as nat),
            Stage::Discarding(i) => StageView::Discarding(*i as nat),
            Stage::Moving(i) => StageView::Moving(*i as nat),
            Stage::Removing(i) => StageView::Removing(*i as nat),
            Stage::Clearing => StageView::Clearing,
            Stage::Finished(outcome) => StageView::Finished(outcome@),
        }
    }
}

/// What a run keeps from one event to the next.
struct State {
    config: Config,
    stage: Stage,
    sources: Vec<String>,
    /// For each source, the path at which it is staged.
    staged: Vec<String>,
    /// For each source, the path to which it goes.
    destinations: Vec<String>,
    updates: usize,
}

impl View for State {
    type V = RunView;

    closed spec fn view(&self) -> RunView {
        RunView {
            config: self.config@,
            stage: self.stage.model(),
            sources: self.sources.deep_view(),
            updates: self.updates as nat,
        }
    }
}

/// One run over one directory. It does no outside work itself: it says what
/// is to be done next, and is told how that went.
pub struct Run {
    state: State,
}

impl View for Run {
    type V = RunView;

    closed spec fn view(&self) -> RunView {
        self.state@
    }
}

impl Run {
    /// The run is in a state that a run can be in, and the paths it keeps
    /// are the ones that belong to its sources.
    #[verifier::type_invariant]
    spec fn inv(&self) -> bool {
        self.state@.wf() && self.state.cached()
    }

    /// A run with the settings `config`, and its first action.
    pub fn start(config: Config) -> (r: (Run, Action))
        ensures
            r.0@ == initial(config@),
            r.0@.wf(),
            r.1@ == r.0@.pending(),
    {
        let state = State {
            config,
            stage: Stage::Listing,
            sources: Vec::new(),
            staged: Vec::new(),
            destinations: Vec::new(),
            updates: 0,
        };
        assert(state.sources.deep_view() =~= Seq::<Seq<char>>::empty());
        let action = state.pending();
        (Run { state }, action)
    }

    /// Takes the event that answers the pending action, and gives the run in
    /// its next state with the action that is pending there.
    pub fn step(self, event: Event) -> (r: (Run, Action))
        ensures
            r.0@ == self@.next(event@),
            r.0@.wf(),
            r.1@ == r.0@.pending(),
    {
        proof {
            use_type_invariant(&self);
            self@.next_is_wf(event@);
        }
        let state = self.state.advance(event);
        let action = state.pending();
        (Run { state }, action)
    }

    /// The action that the run is waiting for.
    pub fn pending(&self) -> (action: Action)
        ensures
            action@ == self@.pending(),
    {
        proof {
            use_type_invariant(self);
        }
        self.state.pending()
    }

    /// The files that go to another path, each with that path, in the order
    /// of the sources. Before the directory is listed there are none.
    pub fn renames(&self) -> (list: Vec<Rename>)
        ensures
            list.deep_view() == renames_of(self@.config, self@.sources),
    {
        proof {
            use_type_invariant(self);
        }
        self.state.renames()
    }

    /// How the run ended, once it has.
    pub fn outcome(&self) -> (outcome: Option<Outcome>)
        ensures
            match outcome {
                Some(o) => self@.stage == StageView::Finished(o@),
                None => !(self@.stage is Finished),
            },
    {
        match &self.state.stage {
            Stage::Finished(outcome) => Some(copy_of_outcome(outcome)),
            _ => None,
        }
    }
}

/// A copy of the string.
fn copy_of(s: &String) -> (c: String)
    ensures
        c@ == s@,
{
    s.clone()
}

/// A copy of the outcome.
fn copy_of_outcome(outcome: &Outcome) -> (c: Outcome)
    ensures
        c@ == outcome@,
{
    match outcome {
        Outcome::Success { text_updates, files_moved } => Outcome::Success {
            text_updates: *text_updates,
            files_moved: *files_moved,
        },
        Outcome::StagingExists => Outcome::StagingExists,
        Outcome::Collision { source, destination, staging_left } => Outcome::Collision {
            source: copy_of(source),
            destination: copy_of(destination),
            staging_left: *staging_left,
        },
        Outcome::CleanupFailed { text_updates, files_moved } => Outcome::CleanupFailed {
            text_updates: *text_updates,
            files_moved: *files_moved,
        },
        Outcome::Failed { completed } => {
            assert(completed.deep_view().take(completed.len() as int) =~= completed.deep_view());
            Outcome::Failed { completed: first_of(completed, completed.len()) }
        },
    }
}

/// Copies of the first `k` strings.
fn first_of(strings: &Vec<String>, k: usize) -> (first: Vec<String>)
    requires
        k <= strings.len(),
    ensures
        first.deep_view() == strings.deep_view().take(k as int),
{
    let mut first: Vec<String> = Vec::new();
    let mut i: usize = 0;
    while i < k
        invariant
            i <= k <= strings.len(),
            first.deep_view() == strings.deep_view().take(i as int),
        decreases k - i,
    {
        let ghost before = first.deep_view();
        first.push(copy_of(&strings[i]));
        assert(first.deep_view() =~= before.push(strings@[i as int]@));
        i += 1;
    }
    first
}

impl State {
    /// The paths kept beside the sources are the ones the model computes.
    spec fn cached(&self) -> bool {
        &&& self.staged.len() == self.sources.len()
        &&& self.destinations.len() == self.sources.len()
        &&& forall|i: int|
            0 <= i < self.sources.len() ==> (#[trigger] self.staged@[i])@ == self@.staged(i)
        &&& forall|i: int|
            0 <= i < self.sources.len() ==> (#[trigger] self.destinations@[i])@
                == self@.destination(i)
    }

    /// The action that the state waits for.
    fn pending(&self) -> (action: Action)
        requires
            self@.wf(),
            self.cached(),
        ensures
            action@ == self@.pending(),
    {
        match &self.stage {
            Stage::Listing => Action::List { dir: copy_of(&self.config.target_dir) },
            Stage::Guarding => Action::Probe { path: copy_of(&self.config.staging_dir) },
            Stage::Preparing => Action::CreateDir { path: copy_of(&self.config.staging_dir) },
            Stage::Reading(i) => Action::Read { path: copy_of(&self.sources[*i]) },
            Stage::Writing(i, text) => Action::Write {
                path: copy_of(&self.staged[*i]),
                text: copy_of(text),
            },
            Stage::Probing(i) => Action::Probe { path: copy_of(&self.destinations[*i]) },
            Stage::Discarding(_) => Action::RemoveDir { path: copy_of(&self.config.staging_dir) },
            Stage::Moving(i) => Action::Move {
                staged: copy_of(&self.staged[*i]),
                destination: copy_of(&self.destinations[*i]),
                replace: !self.is_moved(*i),
            },
            Stage::Removing(i) => Action::Remove { path: copy_of(&self.sources[*i]) },
            Stage::Clearing => Action::RemoveDir { path: copy_of(&self.config.staging_dir) },
            Stage::Finished(outcome) => Action::Finish { outcome: copy_of_outcome(outcome) },
        }
    }

    /// Whether source `i` goes to another path.
    fn is_moved(&self, i: usize) -> (yes: bool)
        requires
            self.cached(),
            i < self.sources.len(),
        ensures
            yes == moved(self@.config, self@.sources[i as int]),
    {
        assert(self.sources.deep_view()[i as int] == self.sources@[i as int]@);
        !(self.destinations[i] == self.sources[i])
    }

    /// Whether the destination of source `i` is that of an earlier source.
    fn is_clash(&self, i: usize) -> (yes: bool)
        requires
            self.cached(),
            i < self.sources.len(),
        ensures
            yes == clashes(self@.config, self@.sources, i as int),
    {
        let mut j: usize = 0;
        while j < i
            invariant
                j <= i < self.sources.len(),
                self.cached(),
                forall|k: int|
                    0 <= k < j ==> #[trigger] destination_of(
                        self@.sources[k],
                        self@.config.from,
                        self@.config.to,
                    ) != self@.destination(i as int),
            decreases i - j,
        {
            if self.destinations[j] == self.destinations[i] {
                assert(self@.destination(j as int) == self@.destination(i as int));
                return true;
            }
            j += 1;
        }
        false
    }

    /// The sources that go to another path, each with that path.
    fn renames(&self) -> (list: Vec<Rename>)
        requires
            self.cached(),
        ensures
            list.deep_view() == renames_of(self@.config, self@.sources),
    {
        let mut list: Vec<Rename> = Vec::new();
        let mut i: usize = 0;
        assert(list.deep_view() =~= Seq::<(Seq<char>, Seq<char>)>::empty());
        while i < self.sources.len()
            invariant
                i <= self.sources.len(),
                self.cached(),
                list.deep_view() == renames_of(self@.config, self@.sources.take(i as int)),
            decreases self.sources.len() - i,
        {
            let ghost before = list.deep_view();
            proof {
                let seen = self@.sources.take(i + 1);
                assert(seen.drop_last() =~= self@.sources.take(i as int));
                assert(seen.last() == self@.sources[i as int]);
                assert(self.sources.deep_view()[i as int] == self.sources@[i as int]@);
            }
            if self.is_moved(i) {
                let rename = Rename {
                    source: copy_of(&self.sources[i]),
                    destination: copy_of(&self.destinations[i]),
                };
                let ghost pair = rename.deep_view();
                list.push(rename);
                assert(list.deep_view() =~= before.push(pair));
            }
            i += 1;
        }
        assert(self@.sources.take(self.sources.len() as int) =~= self@.sources);
        list
    }

    /// How many sources go to another path.
    fn moved_count(&self) -> (count: usize)
        requires
            self.cached(),
        ensures
            count == count_moved(self@.config, self@.sources),
    {
        let mut count: usize = 0;
        let mut i: usize = 0;
        while i < self.sources.len()
            invariant
                i <= self.sources.len(),
                self.cached(),
                count <= i,
                count == count_moved(self@.config, self@.sources.take(i as int)),
            decreases self.sources.len() - i,
        {
            proof {
                let seen = self@.sources.take(i + 1);
                assert(seen.drop_last() =~= self@.sources.take(i as int));
                assert(seen.last() == self@.sources[i as int]);
            }
            if self.is_moved(i) {
                count += 1;
            }
            i += 1;
        }
        assert(self@.sources.take(self.sources.len() as int) =~= self@.sources);
        count
    }

    fn at(self, stage: Stage) -> (run: State)
        requires
            self.cached(),
        ensures
            run.cached(),
            run@ == self@.at(stage.model()),
    {
        State { stage, ..self }
    }

    fn finished(self, outcome: Outcome) -> (run: State)
        requires
            self.cached(),
        ensures
            run.cached(),
            run@ == self@.finished(outcome@),
    {
        self.at(Stage::Finished(outcome))
    }

    fn failed(self) -> (run: State)
        requires
            self.cached(),
            self@.wf(),
        ensures
            run.cached(),
            run@ == self@.failed(),
    {
        let k: usize = match self.stage {
            Stage::Moving(i) => i,
            Stage::Removing(i) => i,
            Stage::Clearing => self.sources.len(),
            _ => 0,
        };
        let completed = first_of(&self.sources, k);
        self.finished(Outcome::Failed { completed })
    }

    fn read_from(self, i: usize) -> (run: State)
        requires
            self.cached(),
            i <= self.sources.len(),
        ensures
            run.cached(),
            run@ == self@.read_from(i as nat),
    {
        if i < self.sources.len() {
            self.at(Stage::Reading(i))
        } else {
            self.probe_from(0)
        }
    }

    fn collided(self, i: usize) -> (run: State)
        requires
            self.cached(),
            i < self.sources.len(),
        ensures
            run.cached(),
            run@ == self@.collided(i as nat),
    {
        if self.config.write {
            self.at(Stage::Discarding(i))
        } else {
            assert(self.sources.deep_view()[i as int] == self.sources@[i as int]@);
            let source = copy_of(&self.sources[i]);
            let destination = copy_of(&self.destinations[i]);
            self.finished(Outcome::Collision { source, destination, staging_left: false })
        }
    }

    fn probe_from(self, start: usize) -> (run: State)
        requires
            self.cached(),
            start <= self.sources.len(),
        ensures
            run.cached(),
            run@ == self@.probe_from(start as nat),
    {
        let mut i: usize = start;
        while i < self.sources.len()
            invariant
                start <= i <= self.sources.len(),
                self.cached(),
                self@.probe_from(i as nat) == self@.probe_from(start as nat),
            decreases self.sources.len() - i,
        {
            if self.is_clash(i) {
                return self.collided(i);
            }
            if self.is_moved(i) {
                return self.at(Stage::Probing(i));
            }
            i += 1;
        }
        self.commit()
    }

    fn commit(self) -> (run: State)
        requires
            self.cached(),
        ensures
            run.cached(),
            run@ == self@.commit(),
    {
        if self.config.write {
            self.move_from(0)
        } else {
            let files_moved: usize = self.moved_count();
            let text_updates: usize = self.updates;
            self.finished(Outcome::Success { text_updates, files_moved })
        }
    }

    fn move_from(self, i: usize) -> (run: State)
        requires
            self.cached(),
            i <= self.sources.len(),
        ensures
            run.cached(),
            run@ == self@.move_from(i as nat),
    {
        if i < self.sources.len() {
            self.at(Stage::Moving(i))
        } else {
            self.at(Stage::Clearing)
        }
    }

    /// The run with the markdown files among `entries` as its sources.
    fn listed(self, entries: Vec<String>) -> (run: State)
        requires
            self@.stage is Listing,
        ensures
            run.cached(),
            run@ == (RunView { sources: markdown_only(entries.deep_view()), ..self@ }),
    {
        let sources = select_markdown(&entries);
        let mut staged: Vec<String> = Vec::new();
        let mut destinations: Vec<String> = Vec::new();
        let mut i: usize = 0;
        while i < sources.len()
            invariant
                i <= sources.len(),
                staged.len() == i,
                destinations.len() == i,
                forall|k: int|
                    0 <= k < i ==> (#[trigger] staged@[k])@ == staged_at(
                        self.config.staging_dir@,
                        sources@[k]@,
                    ),
                forall|k: int|
                    0 <= k < i ==> (#[trigger] destinations@[k])@ == destination_of(
                        sources@[k]@,
                        self.config.from@,
                        self.config.to@,
                    ),
            decreases sources.len() - i,
        {
            staged.push(staged_path(self.config.staging_dir.as_str(), sources[i].as_str()));
            destinations.push(
                destination_path(
                    sources[i].as_str(),
                    self.config.from.as_str(),
                    self.config.to.as_str(),
                ),
            );
            i += 1;
        }
        let run = State { sources, staged, destinations, ..self };
        assert forall|k: int| 0 <= k < run.sources.len() implies run.sources.deep_view()[k]
            == run.sources@[k]@ by {}
        run
    }

    /// The run in the state that follows `event`.
    fn advance(self, event: Event) -> (run: State)
        requires
            self@.wf(),
            self.cached(),
        ensures
            run.cached(),
            run@ == self@.next(event@),
    {
        match self.stage {
            Stage::Finished(_) => self,
            Stage::Listing => match event {
                Event::Listed { entries } => self.listed(entries).at(Stage::Guarding),
                _ => self.failed(),
            },
            Stage::Guarding => match event {
                Event::Probed { exists } => if exists {
                    self.finished(Outcome::StagingExists)
                } else if self.config.write {
                    self.at(Stage::Preparing)
                } else {
                    self.read_from(0)
                },
                _ => self.failed(),
            },
            Stage::Preparing => match event {
                Event::Done => self.read_from(0),
                _ => self.failed(),
            },
            Stage::Reading(i) => match event {
                Event::Text { text } => {
                    let staged = stage_text(
                        text.as_str(),
                        self.config.from.as_str(),
                        self.config.to.as_str(),
                    );
                    let updates: usize = if staged.updated {
                        self.updates + 1
                    } else {
                        self.updates
                    };
                    let counted = State { updates, ..self };
                    if counted.config.write {
                        counted.at(Stage::Writing(i, staged.text))
                    } else {
                        counted.read_from(i + 1)
                    }
                },
                _ => self.failed(),
            },
            Stage::Writing(i, _) => match event {
                Event::Done => self.read_from(i + 1),
                _ => self.failed(),
            },
            Stage::Probing(i) => match event {
                Event::Probed { exists } => if exists {
                    self.collided(i)
                } else {
                    self.probe_from(i + 1)
                },
                _ => self.failed(),
            },
            Stage::Discarding(i) => match event {
                Event::Probed { exists } => {
                    assert(self.sources.deep_view()[i as int] == self.sources@[i as int]@);
                    let source = copy_of(&self.sources[i]);
                    let destination = copy_of(&self.destinations[i]);
                    self.finished(Outcome::Collision { source, destination, staging_left: exists })
                },
                _ => self.failed(),
            },
            Stage::Moving(i) => match event {
                Event::Done => if self.is_moved(i) {
                    self.at(Stage::Removing(i))
                } else {
                    self.move_from(i + 1)
                },
                _ => self.failed(),
            },
            Stage::Removing(i) => match event {
                Event::Done => self.move_from(i + 1),
                _ => self.failed(),
            },
            Stage::Clearing => match event {
                Event::Probed { exists } => {
                    let files_moved: usize = self.moved_count();
                    let text_updates: usize = self.updates;
                    if exists {
                        self.finished(Outcome::CleanupFailed { text_updates, files_moved })
                    } else {
                        self.finished(Outcome::Success { text_updates, files_moved })
                    }
                },
                _ => self.failed(),
            },
        }
    }
}

} // verus!
