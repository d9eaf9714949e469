//! A run set against a disk that does what it is asked: where every step
//! succeeds, a run ends in one way, which can be said beforehand.

use vstd::prelude::*;
use crate::laws::state_after;
use crate::lines::{lines_of, touched};
use crate::model::{clashes, count_moved, initial, moved, RunView, StageView};
use crate::paths::{destination_of, markdown_only};
use crate::protocol::{ActionView, ConfigView, EventView, OutcomeView};

verus! {

/// A disk on which every step succeeds, and whose answers do not depend on
/// what a run has done before.
pub struct World {
    /// The entries of a directory.
    pub listing: spec_fn(Seq<char>) -> Seq<Seq<char>>,
    /// The text of the file at a path.
    pub text: spec_fn(Seq<char>) -> Seq<char>,
    /// Whether anything exists at a path.
    pub exists: spec_fn(Seq<char>) -> bool,
}

impl World {
    /// The event with which this disk answers an action. A directory that is
    /// removed is gone afterwards.
    pub open spec fn answer(self, action: ActionView) -> EventView {
        match action {
            ActionView::List { dir } => EventView::Listed { entries: (self.listing)(dir) },
            ActionView::Probe { path } => EventView::Probed { exists: (self.exists)(path) },
            ActionView::Read { path } => EventView::Text { text: (self.text)(path) },
            ActionView::RemoveDir { .. } => EventView::Probed { exists: false },
            _ => EventView::Done,
        }
    }

    /// The state `n` answered actions after `s`.
    pub open spec fn advance(self, s: RunView, n: nat) -> RunView
        decreases n,
    {
        if n == 0 {
            s
        } else {
            self.advance(s.next(self.answer(s.pending())), (n - 1) as nat)
        }
    }

    /// The state of a run with the settings `c` after `n` answered actions.
    pub open spec fn run(self, c: ConfigView, n: nat) -> RunView {
        self.advance(initial(c), n)
    }

    /// The events with which this disk answers the first `n` actions of a
    /// run with the settings `c`.
    pub open spec fn answers(self, c: ConfigView, n: nat) -> Seq<EventView>
        decreases n,
    {
        if n == 0 {
            Seq::empty()
        } else {
            let before = self.answers(c, (n - 1) as nat);
            before.push(self.answer(state_after(c, before).pending()))
        }
    }

    /// Source `k` cannot go where it should: an earlier source goes there
    /// too, or it moves and something is there already.
    pub open spec fn collides(self, c: ConfigView, sources: Seq<Seq<char>>, k: int) -> bool {
        clashes(c, sources, k) || (moved(c, sources[k]) && (self.exists)(
            destination_of(sources[k], c.from, c.to),
        ))
    }

    /// The index of the first source from `i` on that collides, or the number
    /// of sources where none does.
    pub open spec fn first_collision(self, c: ConfigView, sources: Seq<Seq<char>>, i: nat) -> nat
        decreases sources.len() - i,
    {
        if i >= sources.len() {
            sources.len()
        } else if self.collides(c, sources, i as int) {
            i
        } else {
            self.first_collision(c, sources, i + 1)
        }
    }

    /// How many of the sources hold the string that is replaced, in some line.
    pub open spec fn count_updated(self, c: ConfigView, sources: Seq<Seq<char>>) -> nat
        decreases sources.len(),
    {
        if sources.len() == 0 {
            0
        } else {
            self.count_updated(c, sources.drop_last()) + if touched(
                lines_of((self.text)(sources.last())),
                c.from,
            ) {
                1nat
            } else {
                0nat
            }
        }
    }

    /// How a run ends once all sources are read and those before `i` are
    /// checked: in the first collision from `i` on, or with the counts.
    pub open spec fn outcome_from(
        self,
        c: ConfigView,
        sources: Seq<Seq<char>>,
        updates: nat,
        i: nat,
    ) -> OutcomeView {
        let k = self.first_collision(c, sources, i);
        if k < sources.len() {
            OutcomeView::Collision {
                source: sources[k as int],
                destination: destination_of(sources[k as int], c.from, c.to),
                staging_left: false,
            }
        } else {
            OutcomeView::Success { text_updates: updates, files_moved: count_moved(c, sources) }
        }
    }

    /// How a run with the settings `c` ends on this disk. Whether the run
    /// writes plays no part in it.
    pub open spec fn expected(self, c: ConfigView) -> OutcomeView {
        let sources = markdown_only((self.listing)(c.target_dir));
        if (self.exists)(c.staging_dir) {
            OutcomeView::StagingExists
        } else {
            self.outcome_from(c, sources, self.count_updated(c, sources), 0)
        }
    }

    proof fn advance_in_two(self, s: RunView, a: nat, b: nat)
        ensures
            self.advance(s, a + b) == self.advance(self.advance(s, a), b),
        decreases a,
    {
        if a > 0 {
            self.advance_in_two(s.next(self.answer(s.pending())), (a - 1) as nat, b);
        }
    }

    proof fn advance_by_one(self, s: RunView)
        ensures
            self.advance(s, 1) == s.next(self.answer(s.pending())),
    {
        assert(self.advance(s.next(self.answer(s.pending())), 0) == s.next(
            self.answer(s.pending()),
        ));
    }

    /// A run on this disk is the run that is given the answers of this disk.
    pub proof fn run_takes_the_answers(self, c: ConfigView, n: nat)
        ensures
            self.run(c, n) == state_after(c, self.answers(c, n)),
        decreases n,
    {
        if n > 0 {
            let m = (n - 1) as nat;
            let before = self.answers(c, m);
            self.run_takes_the_answers(c, m);
            self.advance_in_two(initial(c), m, 1);
            self.advance_by_one(self.run(c, m));
            assert(self.answers(c, n).drop_last() =~= before);
        }
    }

    /// From the move of source `i` on, a run that writes ends in success.
    proof fn moves_end_in_success(self, s: RunView, i: nat) -> (n: nat)
        requires
            s.config.write,
            i < s.sources.len(),
            s.stage == StageView::Moving(i),
        ensures
            self.advance(s, n).stage == StageView::Finished(
                OutcomeView::Success {
                    text_updates: s.updates,
                    files_moved: count_moved(s.config, s.sources),
                },
            ),
        decreases s.sources.len() - i,
    {
        let s1 = s.next(self.answer(s.pending()));
        self.advance_by_one(s);
        let (s2, k) = if moved(s.config, s.sources[i as int]) {
            self.advance_by_one(s1);
            self.advance_in_two(s, 1, 1);
            (s1.next(self.answer(s1.pending())), 2nat)
        } else {
            (s1, 1nat)
        };
        assert(self.advance(s, k) == s2);
        assert(s2 == s.move_from(i + 1));
        if i + 1 < s.sources.len() {
            let m = self.moves_end_in_success(s2, i + 1);
            self.advance_in_two(s, k, m);
            k + m
        } else {
            self.advance_by_one(s2);
            self.advance_in_two(s, k, 1);
            k + 1
        }
    }

    /// From the check of source `i` on, a run ends in the first collision
    /// there is, or in success.
    proof fn checks_end_as_expected(self, s: RunView, i: nat) -> (n: nat)
        requires
            i <= s.sources.len(),
        ensures
            self.advance(s.probe_from(i), n).stage == StageView::Finished(
                self.outcome_from(s.config, s.sources, s.updates, i),
            ),
        decreases s.sources.len() - i,
    {
        let c = s.config;
        let start = s.probe_from(i);
        if i >= s.sources.len() {
            if c.write {
                if s.sources.len() > 0 {
                    self.moves_end_in_success(start, 0)
                } else {
                    self.advance_by_one(start);
                    1
                }
            } else {
                0
            }
        } else if clashes(c, s.sources, i as int) {
            self.collision_ends_the_run(s, i)
        } else if moved(c, s.sources[i as int]) {
            self.advance_by_one(start);
            let after = start.next(self.answer(start.pending()));
            if (self.exists)(destination_of(s.sources[i as int], c.from, c.to)) {
                assert(after == start.collided(i));
                assert(start.collided(i) == s.collided(i));
                let m = self.collision_ends_the_run(s, i);
                self.advance_in_two(start, 1, m);
                1 + m
            } else {
                assert(after == start.probe_from(i + 1));
                probe_from_any_stage(s, start.stage, i + 1);
                let m = self.checks_end_as_expected(s, i + 1);
                self.advance_in_two(start, 1, m);
                1 + m
            }
        } else {
            self.checks_end_as_expected(s, i + 1)
        }
    }

    /// A collision at source `i` ends the run, once the staging directory of
    /// a run that writes is removed.
    proof fn collision_ends_the_run(self, s: RunView, i: nat) -> (n: nat)
        requires
            i < s.sources.len(),
        ensures
            self.advance(s.collided(i), n).stage == StageView::Finished(
                OutcomeView::Collision {
                    source: s.sources[i as int],
                    destination: destination_of(s.sources[i as int], s.config.from, s.config.to),
                    staging_left: false,
                },
            ),
    {
        if s.config.write {
            self.advance_by_one(s.collided(i));
            1
        } else {
            0
        }
    }

    /// From the reading of source `i` on, a run ends as the checks decide,
    /// with one update counted for each source that holds the string.
    proof fn reads_end_as_expected(self, s: RunView, i: nat) -> (n: nat)
        requires
            i < s.sources.len(),
            s.stage == StageView::Reading(i),
            s.updates == self.count_updated(s.config, s.sources.take(i as int)),
        ensures
            self.advance(s, n).stage == StageView::Finished(
                self.outcome_from(
                    s.config,
                    s.sources,
                    self.count_updated(s.config, s.sources),
                    0,
                ),
            ),
        decreases s.sources.len() - i,
    {
        let c = s.config;
        let s1 = s.next(self.answer(s.pending()));
        self.advance_by_one(s);
        let counted = RunView {
            updates: if touched(lines_of((self.text)(s.sources[i as int])), c.from) {
                s.updates + 1
            } else {
                s.updates
            },
            ..s
        };
        assert(counted.updates == self.count_updated(c, s.sources.take(i as int + 1))) by {
            let seen = s.sources.take(i as int + 1);
            assert(seen.drop_last() =~= s.sources.take(i as int));
            assert(seen.last() == s.sources[i as int]);
        }
        let (s2, k) = if c.write {
            self.advance_by_one(s1);
            self.advance_in_two(s, 1, 1);
            (s1.next(self.answer(s1.pending())), 2nat)
        } else {
            (s1, 1nat)
        };
        assert(self.advance(s, k) == s2);
        if i + 1 < s.sources.len() {
            assert(s2 == counted.at(StageView::Reading(i + 1)));
            let m = self.reads_end_as_expected(s2, i + 1);
            self.advance_in_two(s, k, m);
            k + m
        } else {
            assert(s.sources.take(i as int + 1) =~= s.sources);
            probe_from_any_stage(counted, s1.stage, 0);
            assert(s2 == counted.probe_from(0));
            let m = self.checks_end_as_expected(counted, 0);
            self.advance_in_two(s, k, m);
            k + m
        }
    }

    /// On a disk on which every step succeeds, a run ends, and it ends as
    /// said beforehand: stopped by a staging directory that is there, or by
    /// the first collision, or in success with one text update for each
    /// source that holds the string and one move for each source whose path
    /// holds it.
    pub proof fn run_ends_as_expected(self, c: ConfigView) -> (n: nat)
        ensures
            self.run(c, n).stage == StageView::Finished(self.expected(c)),
    {
        let s0 = initial(c);
        let s1 = s0.next(self.answer(s0.pending()));
        let s2 = s1.next(self.answer(s1.pending()));
        self.advance_by_one(s0);
        self.advance_by_one(s1);
        self.advance_in_two(s0, 1, 1);
        assert(self.advance(s0, 2) == s2);
        assert(s1.sources.take(0) =~= Seq::<Seq<char>>::empty());
        if (self.exists)(c.staging_dir) {
            2
        } else {
            let (s3, k) = if c.write {
                self.advance_by_one(s2);
                self.advance_in_two(s0, 2, 1);
                (s2.next(self.answer(s2.pending())), 3nat)
            } else {
                (s2, 2nat)
            };
            assert(self.advance(s0, k) == s3);
            assert(s3 == s1.read_from(0));
            if s1.sources.len() > 0 {
                let m = self.reads_end_as_expected(s3, 0);
                self.advance_in_two(s0, k, m);
                k + m
            } else {
                probe_from_any_stage(s1, s1.stage, 0);
                let m = self.checks_end_as_expected(s1, 0);
                self.advance_in_two(s0, k, m);
                k + m
            }
        }
    }

    /// A dry run ends as the run that writes does: with the same counts, or
    /// stopped for the same reason.
    pub proof fn dry_run_ends_as_a_run_that_writes(self, c: ConfigView) -> (n: (nat, nat))
        ensures
            self.run(ConfigView { write: false, ..c }, n.0).stage == StageView::Finished(
                self.expected(c),
            ),
            self.run(ConfigView { write: true, ..c }, n.1).stage == StageView::Finished(
                self.expected(c),
            ),
    {
        let dry = ConfigView { write: false, ..c };
        let wet = ConfigView { write: true, ..c };
        assert(self.expected(dry) == self.expected(c)) by {
            self.expected_ignores_mode(dry, c);
        }
        assert(self.expected(wet) == self.expected(c)) by {
            self.expected_ignores_mode(wet, c);
        }
        (self.run_ends_as_expected(dry), self.run_ends_as_expected(wet))
    }

    proof fn expected_ignores_mode(self, a: ConfigView, b: ConfigView)
        requires
            a == (ConfigView { write: a.write, ..b }),
        ensures
            self.expected(a) == self.expected(b),
    {
        let sources = markdown_only((self.listing)(a.target_dir));
        self.counts_ignore_mode(a, b, sources);
        self.collisions_ignore_mode(a, b, sources, 0);
        count_moved_ignores_mode(a, b, sources);
    }

    proof fn counts_ignore_mode(self, a: ConfigView, b: ConfigView, sources: Seq<Seq<char>>)
        requires
            a.from == b.from,
        ensures
            self.count_updated(a, sources) == self.count_updated(b, sources),
        decreases sources.len(),
    {
        if sources.len() > 0 {
            self.counts_ignore_mode(a, b, sources.drop_last());
        }
    }

    proof fn collisions_ignore_mode(
        self,
        a: ConfigView,
        b: ConfigView,
        sources: Seq<Seq<char>>,
        i: nat,
    )
        requires
            a.from == b.from,
            a.to == b.to,
        ensures
            self.first_collision(a, sources, i) == self.first_collision(b, sources, i),
        decreases sources.len() - i,
    {
        if i < sources.len() {
            assert(clashes(a, sources, i as int) == clashes(b, sources, i as int));
            if !self.collides(a, sources, i as int) {
                self.collisions_ignore_mode(a, b, sources, i + 1);
            }
        }
    }
}

proof fn count_moved_ignores_mode(a: ConfigView, b: ConfigView, sources: Seq<Seq<char>>)
    requires
        a.from == b.from,
        a.to == b.to,
    ensures
        count_moved(a, sources) == count_moved(b, sources),
    decreases sources.len(),
{
    if sources.len() > 0 {
        count_moved_ignores_mode(a, b, sources.drop_last());
    }
}

/// The check for collisions goes by the settings, the sources and the count
/// of updates; the stage the run is in plays no part.
proof fn probe_from_any_stage(s: RunView, stage: StageView, i: nat)
    ensures
        s.at(stage).probe_from(i) == s.probe_from(i),
    decreases s.sources.len() - i,
{
    if i < s.sources.len() && !clashes(s.config, s.sources, i as int) && !moved(
        s.config,
        s.sources[i as int],
    ) {
        probe_from_any_stage(s, stage, i + 1);
    }
}

} // verus!
