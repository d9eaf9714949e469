//! A run as a state machine over plain values: in each state one action is
//! pending, and the event that answers it decides the next state.

use vstd::prelude::*;
use crate::lines::{lines_of, staged_text, touched};
use crate::paths::{destination_of, markdown_only, staged_at};
use crate::protocol::{ActionView, ConfigView, EventView, OutcomeView};

verus! {

/// Where a run stands. A number is the index of the source that is dealt with.
pub enum StageView {
    /// The directory is being listed.
    Listing,
    /// The staging directory is being looked for; it must not be there.
    Guarding,
    /// The staging directory is being created.
    Preparing,
    /// A source is being read.
    Reading(nat),
    /// The rewritten text of a source is being written to its staged path.
    Writing(nat, Seq<char>),
    /// The destination of a source is being looked for on disk.
    Probing(nat),
    /// A collision was found at a source; the staging directory is being removed.
    Discarding(nat),
    /// The staged file of a source is being moved to its destination.
    Moving(nat),
    /// A source whose file went elsewhere is being removed.
    Removing(nat),
    /// All files are in place; the staging directory is being removed.
    Clearing,
    /// The run has ended.
    Finished(OutcomeView),
}

/// The state of a run.
pub struct RunView {
    pub config: ConfigView,
    pub stage: StageView,
    /// The markdown files of the directory, in the order they were listed.
    pub sources: Seq<Seq<char>>,
    /// How many of the files read so far held the string that is replaced.
    pub updates: nat,
}

/// The state in which a run with the settings `c` begins.
pub open spec fn initial(c: ConfigView) -> RunView {
    RunView { config: c, stage: StageView::Listing, sources: Seq::empty(), updates: 0 }
}

/// The file at `source` goes to another path.
pub open spec fn moved(c: ConfigView, source: Seq<char>) -> bool {
    destination_of(source, c.from, c.to) != source
}

/// How many of the sources go to another path.
pub open spec fn count_moved(c: ConfigView, sources: Seq<Seq<char>>) -> nat
    decreases sources.len(),
{
    if sources.len() == 0 {
        0
    } else {
        count_moved(c, sources.drop_last()) + if moved(c, sources.last()) {
            1nat
        } else {
            0nat
        }
    }
}

/// The sources that go to another path, each with that path, in their order.
pub open spec fn renames_of(c: ConfigView, sources: Seq<Seq<char>>) -> Seq<
    (Seq<char>, Seq<char>),
>
    decreases sources.len(),
{
    if sources.len() == 0 {
        Seq::empty()
    } else {
        let before = renames_of(c, sources.drop_last());
        if moved(c, sources.last()) {
            before.push((sources.last(), destination_of(sources.last(), c.from, c.to)))
        } else {
            before
        }
    }
}

/// The files counted as moved are the ones listed as renamed.
pub proof fn renames_are_counted(c: ConfigView, sources: Seq<Seq<char>>)
    ensures
        renames_of(c, sources).len() == count_moved(c, sources),
    decreases sources.len(),
{
    if sources.len() > 0 {
        renames_are_counted(c, sources.drop_last());
    }
}

/// The destination of source `i` is that of a source before it.
pub open spec fn clashes(c: ConfigView, sources: Seq<Seq<char>>, i: int) -> bool {
    exists|j: int|
        0 <= j < i && #[trigger] destination_of(sources[j], c.from, c.to) == destination_of(
            sources[i],
            c.from,
            c.to,
        )
}

/// None of the first `n` sources has the destination of a source before it.
pub open spec fn clash_free(c: ConfigView, sources: Seq<Seq<char>>, n: int) -> bool {
    forall|k: int| 0 <= k < n ==> !clashes(c, sources, k)
}

impl RunView {
    /// The run in another stage.
    pub open spec fn at(self, stage: StageView) -> RunView {
        RunView { stage, ..self }
    }

    /// The run, ended.
    pub open spec fn finished(self, outcome: OutcomeView) -> RunView {
        self.at(StageView::Finished(outcome))
    }

    /// The path at which source `i` is staged.
    pub open spec fn staged(self, i: int) -> Seq<char> {
        staged_at(self.config.staging_dir, self.sources[i])
    }

    /// The path to which source `i` goes.
    pub open spec fn destination(self, i: int) -> Seq<char> {
        destination_of(self.sources[i], self.config.from, self.config.to)
    }

    /// How many sources are in place in full.
    pub open spec fn completed(self) -> nat {
        match self.stage {
            StageView::Moving(i) => i,
            StageView::Removing(i) => i,
            StageView::Clearing => self.sources.len(),
            _ => 0,
        }
    }

    /// The run stopped by a step that failed.
    pub open spec fn failed(self) -> RunView {
        self.finished(OutcomeView::Failed { completed: self.sources.take(self.completed() as int) })
    }

    /// The run ready to read source `i`, or past reading where there is none.
    pub open spec fn read_from(self, i: nat) -> RunView {
        if i < self.sources.len() {
            self.at(StageView::Reading(i))
        } else {
            self.probe_from(0)
        }
    }

    /// The run stopped by a collision at source `i`.
    pub open spec fn collided(self, i: nat) -> RunView {
        if self.config.write {
            self.at(StageView::Discarding(i))
        } else {
            self.finished(
                OutcomeView::Collision {
                    source: self.sources[i as int],
                    destination: self.destination(i as int),
                    staging_left: false,
                },
            )
        }
    }

    /// The run checking for collisions from source `i` on. A source whose
    /// destination is that of an earlier one collides at once; one that stays
    /// where it is needs no look at the disk.
    pub open spec fn probe_from(self, i: nat) -> RunView
        decreases self.sources.len() - i,
    {
        if i >= self.sources.len() {
            self.commit()
        } else if clashes(self.config, self.sources, i as int) {
            self.collided(i)
        } else if moved(self.config, self.sources[i as int]) {
            self.at(StageView::Probing(i))
        } else {
            self.probe_from(i + 1)
        }
    }

    /// The run past the collision check: a run that writes puts the files in
    /// place, a dry run ends with the counts.
    pub open spec fn commit(self) -> RunView {
        if self.config.write {
            self.move_from(0)
        } else {
            self.finished(
                OutcomeView::Success {
                    text_updates: self.updates,
                    files_moved: count_moved(self.config, self.sources),
                },
            )
        }
    }

    /// The run ready to put source `i` in place, or past that where there is none.
    pub open spec fn move_from(self, i: nat) -> RunView {
        if i < self.sources.len() {
            self.at(StageView::Moving(i))
        } else {
            self.at(StageView::Clearing)
        }
    }

    /// What the run is waiting for.
    pub open spec fn pending(self) -> ActionView {
        match self.stage {
            StageView::Listing => ActionView::List { dir: self.config.target_dir },
            StageView::Guarding => ActionView::Probe { path: self.config.staging_dir },
            StageView::Preparing => ActionView::CreateDir { path: self.config.staging_dir },
            StageView::Reading(i) => ActionView::Read { path: self.sources[i as int] },
            StageView::Writing(i, text) => ActionView::Write { path: self.staged(i as int), text },
            StageView::Probing(i) => ActionView::Probe { path: self.destination(i as int) },
            StageView::Discarding(_) => ActionView::RemoveDir { path: self.config.staging_dir },
            StageView::Moving(i) => ActionView::Move {
                staged: self.staged(i as int),
                destination: self.destination(i as int),
                replace: !moved(self.config, self.sources[i as int]),
            },
            StageView::Removing(i) => ActionView::Remove { path: self.sources[i as int] },
            StageView::Clearing => ActionView::RemoveDir { path: self.config.staging_dir },
            StageView::Finished(outcome) => ActionView::Finish { outcome },
        }
    }

    /// The state that follows when `event` answers the pending action. An
    /// event that says the step failed, or that is of another kind than the
    /// action asks for, stops the run. A run that has ended stays as it is.
    pub open spec fn next(self, event: EventView) -> RunView {
        match (self.stage, event) {
            (StageView::Finished(_), _) => self,
            (StageView::Listing, EventView::Listed { entries }) => RunView {
                sources: markdown_only(entries),
                ..self
            }.at(StageView::Guarding),
            (StageView::Guarding, EventView::Probed { exists }) => if exists {
                self.finished(OutcomeView::StagingExists)
            } else if self.config.write {
                self.at(StageView::Preparing)
            } else {
                self.read_from(0)
            },
            (StageView::Preparing, EventView::Done) => self.read_from(0),
            (StageView::Reading(i), EventView::Text { text }) => {
                let counted = RunView {
                    updates: if touched(lines_of(text), self.config.from) {
                        self.updates + 1
                    } else {
                        self.updates
                    },
                    ..self
                };
                if self.config.write {
                    counted.at(
                        StageView::Writing(i, staged_text(text, self.config.from, self.config.to)),
                    )
                } else {
                    counted.read_from(i + 1)
                }
            },
            (StageView::Writing(i, _), EventView::Done) => self.read_from(i + 1),
            (StageView::Probing(i), EventView::Probed { exists }) => if exists {
                self.collided(i)
            } else {
                self.probe_from(i + 1)
            },
            (StageView::Discarding(i), EventView::Probed { exists }) => self.finished(
                OutcomeView::Collision {
                    source: self.sources[i as int],
                    destination: self.destination(i as int),
                    staging_left: exists,
                },
            ),
            (StageView::Moving(i), EventView::Done) => if moved(
                self.config,
                self.sources[i as int],
            ) {
                self.at(StageView::Removing(i))
            } else {
                self.move_from(i + 1)
            },
            (StageView::Removing(i), EventView::Done) => self.move_from(i + 1),
            (StageView::Clearing, EventView::Probed { exists }) => if exists {
                self.finished(
                    OutcomeView::CleanupFailed {
                        text_updates: self.updates,
                        files_moved: count_moved(self.config, self.sources),
                    },
                )
            } else {
                self.finished(
                    OutcomeView::Success {
                        text_updates: self.updates,
                        files_moved: count_moved(self.config, self.sources),
                    },
                )
            },
            _ => self.failed(),
        }
    }

    /// What holds of every state that a run can be in.
    pub open spec fn wf(self) -> bool {
        &&& self.updates <= self.sources.len()
        &&& match self.stage {
            StageView::Listing => self.sources.len() == 0,
            StageView::Guarding => self.updates == 0,
            StageView::Preparing => self.config.write && self.updates == 0,
            StageView::Reading(i) => i < self.sources.len() && self.updates <= i,
            StageView::Writing(i, _) => self.config.write && i < self.sources.len() && self.updates
                <= i + 1,
            StageView::Probing(i) => i < self.sources.len() && moved(
                self.config,
                self.sources[i as int],
            ) && clash_free(self.config, self.sources, i as int + 1),
            StageView::Discarding(i) => self.config.write && i < self.sources.len(),
            StageView::Moving(i) => self.config.write && i < self.sources.len() && self.checked(),
            StageView::Removing(i) => self.config.write && i < self.sources.len() && moved(
                self.config,
                self.sources[i as int],
            ) && self.checked(),
            StageView::Clearing => self.config.write && self.checked(),
            StageView::Finished(OutcomeView::Success { .. }) => self.checked(),
            StageView::Finished(OutcomeView::CleanupFailed { .. }) => self.checked(),
            StageView::Finished(_) => true,
        }
    }

    /// No source has the destination of a source before it.
    pub open spec fn checked(self) -> bool {
        clash_free(self.config, self.sources, self.sources.len() as int)
    }

    /// The check for collisions leaves a well-formed state where the sources
    /// before `i` are free of clashes.
    proof fn probe_from_is_wf(self, i: nat)
        requires
            self.updates <= self.sources.len(),
            i <= self.sources.len(),
            clash_free(self.config, self.sources, i as int),
        ensures
            self.probe_from(i).wf(),
            self.probe_from(i).config == self.config,
            self.probe_from(i).sources == self.sources,
        decreases self.sources.len() - i,
    {
        if i < self.sources.len() && !clashes(self.config, self.sources, i as int) && !moved(
            self.config,
            self.sources[i as int],
        ) {
            self.probe_from_is_wf(i + 1);
        }
    }

    /// An event takes a well-formed state to a well-formed state, under the
    /// same settings and, once the directory is listed, over the same sources.
    pub proof fn next_is_wf(self, event: EventView)
        requires
            self.wf(),
        ensures
            self.next(event).wf(),
            self.next(event).config == self.config,
            !(self.stage is Listing) ==> self.next(event).sources == self.sources,
    {
        match self.stage {
            StageView::Listing => {},
            StageView::Guarding => {
                self.probe_from_is_wf(0);
            },
            StageView::Preparing => {
                self.probe_from_is_wf(0);
            },
            StageView::Reading(i) => {
                if let EventView::Text { text } = event {
                    let counted = RunView {
                        updates: if touched(lines_of(text), self.config.from) {
                            self.updates + 1
                        } else {
                            self.updates
                        },
                        ..self
                    };
                    counted.probe_from_is_wf(0);
                }
            },
            StageView::Writing(i, _) => {
                self.probe_from_is_wf(0);
            },
            StageView::Probing(i) => {
                self.probe_from_is_wf(i + 1);
            },
            _ => {},
        }
    }
}

} // verus!
