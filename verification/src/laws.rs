//! What holds of every run, whatever events it is given.

use vstd::prelude::*;
use crate::model::{clash_free, clashes, initial, moved, RunView, StageView};
use crate::lines::{lines_of, staged_text, touched};
use crate::paths::{destination_differs_on_occurrence, destination_of, staged_at};
use crate::protocol::{ActionView, ConfigView, EventView, OutcomeView};
use crate::text::occurs;

verus! {

/// The state of a run with the settings `c` after the events `events`.
pub open spec fn state_after(c: ConfigView, events: Seq<EventView>) -> RunView
    decreases events.len(),
{
    if events.len() == 0 {
        initial(c)
    } else {
        state_after(c, events.drop_last()).next(events.last())
    }
}

/// Nothing has been moved or removed when a run is in this stage.
pub open spec fn before_commit(stage: StageView) -> bool {
    match stage {
        StageView::Moving(_) => false,
        StageView::Removing(_) => false,
        StageView::Clearing => false,
        StageView::Finished(OutcomeView::Success { .. }) => false,
        StageView::Finished(OutcomeView::CleanupFailed { .. }) => false,
        StageView::Finished(OutcomeView::Failed { .. }) => false,
        _ => true,
    }
}

/// The run has met nothing that stops it.
pub open spec fn on_track(stage: StageView) -> bool {
    match stage {
        StageView::Discarding(_) => false,
        StageView::Finished(OutcomeView::StagingExists) => false,
        StageView::Finished(OutcomeView::Collision { .. }) => false,
        StageView::Finished(OutcomeView::Failed { .. }) => false,
        _ => true,
    }
}

/// The check for collisions does not end a run that writes.
proof fn probe_from_stage(s: RunView, i: nat)
    requires
        i <= s.sources.len(),
        s.config.write,
    ensures
        !(s.probe_from(i).stage is Finished),
    decreases s.sources.len() - i,
{
    if i < s.sources.len() && !clashes(s.config, s.sources, i as int) && !moved(
        s.config,
        s.sources[i as int],
    ) {
        probe_from_stage(s, i + 1);
    }
}

/// Every state of a run is well formed and has the settings the run began with.
pub proof fn every_state_is_wf(c: ConfigView, events: Seq<EventView>)
    ensures
        state_after(c, events).wf(),
        state_after(c, events).config == c,
    decreases events.len(),
{
    if events.len() > 0 {
        every_state_is_wf(c, events.drop_last());
        state_after(c, events.drop_last()).next_is_wf(events.last());
    }
}

/// A dry run never asks for anything that creates, changes or removes a file
/// or a directory, the staging directory included.
pub proof fn dry_run_changes_nothing(c: ConfigView, events: Seq<EventView>)
    requires
        !c.write,
    ensures
        !state_after(c, events).pending().mutates(),
{
    every_state_is_wf(c, events);
}

/// Once something may have been moved, the run cannot get back to a stage
/// in which nothing has been.
proof fn commit_is_not_undone(s: RunView, event: EventView)
    requires
        s.wf(),
        !before_commit(s.stage),
    ensures
        !before_commit(s.next(event).stage),
{
}

/// A run that is in a stage in which nothing has been moved has been in
/// such stages all along.
proof fn always_before_commit(c: ConfigView, events: Seq<EventView>, k: int)
    requires
        before_commit(state_after(c, events).stage),
        0 <= k <= events.len(),
    ensures
        before_commit(state_after(c, events.take(k)).stage),
    decreases events.len(),
{
    if k == events.len() {
        assert(events.take(k) =~= events);
    } else {
        let earlier = events.drop_last();
        every_state_is_wf(c, earlier);
        if !before_commit(state_after(c, earlier).stage) {
            commit_is_not_undone(state_after(c, earlier), events.last());
        }
        assert(earlier.take(k) =~= events.take(k));
        always_before_commit(c, earlier, k);
    }
}

/// A run that ends in a collision has never asked for a file to be moved or
/// removed: nothing is moved, nothing renamed.
pub proof fn collision_commits_nothing(c: ConfigView, events: Seq<EventView>, k: int)
    requires
        state_after(c, events).stage matches StageView::Finished(OutcomeView::Collision { .. }),
        0 <= k <= events.len(),
    ensures
        !(state_after(c, events.take(k)).pending() is Move),
        !(state_after(c, events.take(k)).pending() is Remove),
{
    always_before_commit(c, events, k);
}

/// A run that writes and ends in a collision has asked for the staging
/// directory to be removed. It ended on the event that answers this, and
/// the outcome says whether the directory was still there.
pub proof fn collision_discards_staging(c: ConfigView, events: Seq<EventView>) -> (k: int)
    requires
        c.write,
        state_after(c, events).stage matches StageView::Finished(OutcomeView::Collision { .. }),
    ensures
        0 <= k < events.len(),
        state_after(c, events.take(k)).pending() == (ActionView::RemoveDir { path: c.staging_dir }),
        state_after(c, events.take(k + 1)).stage == state_after(c, events).stage,
        state_after(c, events).stage matches StageView::Finished(
            OutcomeView::Collision { staging_left, .. },
        ) && events[k] == (EventView::Probed { exists: staging_left }),
    decreases events.len(),
{
    if events.len() == 0 {
        0
    } else {
        let earlier = events.drop_last();
        let before = state_after(c, earlier);
        every_state_is_wf(c, earlier);
        if before.stage is Finished {
            let k = collision_discards_staging(c, earlier);
            assert(earlier.take(k) =~= events.take(k));
            assert(earlier.take(k + 1) =~= events.take(k + 1));
            k
        } else {
            match before.stage {
                StageView::Guarding => probe_from_stage(before, 0),
                StageView::Preparing => probe_from_stage(before, 0),
                StageView::Reading(i) => {},
                StageView::Writing(i, _) => probe_from_stage(before, 0),
                StageView::Probing(i) => probe_from_stage(before, i + 1),
                _ => {},
            }
            assert(before.stage is Discarding);
            assert(events.take(events.len() as int) =~= events);
            assert(events.take(events.len() - 1) =~= earlier);
            events.len() - 1
        }
    }
}

/// A run that writes and ends in success has asked for the staging directory
/// to be removed, and it ended on the event that said the directory is gone.
pub proof fn success_clears_staging(c: ConfigView, events: Seq<EventView>) -> (k: int)
    requires
        c.write,
        state_after(c, events).stage matches StageView::Finished(OutcomeView::Success { .. }),
    ensures
        0 <= k < events.len(),
        state_after(c, events.take(k)).pending() == (ActionView::RemoveDir { path: c.staging_dir }),
        events[k] == (EventView::Probed { exists: false }),
        state_after(c, events.take(k + 1)).stage == state_after(c, events).stage,
    decreases events.len(),
{
    if events.len() == 0 {
        0
    } else {
        let earlier = events.drop_last();
        let before = state_after(c, earlier);
        every_state_is_wf(c, earlier);
        if before.stage is Finished {
            let k = success_clears_staging(c, earlier);
            assert(earlier.take(k) =~= events.take(k));
            assert(earlier.take(k + 1) =~= events.take(k + 1));
            k
        } else {
            match before.stage {
                StageView::Guarding => probe_from_stage(before, 0),
                StageView::Preparing => probe_from_stage(before, 0),
                StageView::Writing(i, _) => probe_from_stage(before, 0),
                StageView::Probing(i) => probe_from_stage(before, i + 1),
                _ => {},
            }
            assert(before.stage is Clearing);
            assert(events.take(events.len() as int) =~= events);
            assert(events.take(events.len() - 1) =~= earlier);
            events.len() - 1
        }
    }
}

/// A run that has been stopped stays stopped.
proof fn stop_is_final(s: RunView, event: EventView)
    requires
        s.wf(),
        !on_track(s.stage),
    ensures
        !on_track(s.next(event).stage),
{
}

/// Where a run has met nothing that stops it, every look at the disk has
/// found nothing: the staging directory was not there, and no destination of
/// a file that moves was taken.
pub proof fn on_track_probes_found_nothing(c: ConfigView, events: Seq<EventView>, j: int)
    requires
        on_track(state_after(c, events).stage),
        0 <= j < events.len(),
        state_after(c, events.take(j)).pending() is Probe,
    ensures
        events[j] == (EventView::Probed { exists: false }),
    decreases events.len(),
{
    let earlier = events.drop_last();
    let before = state_after(c, earlier);
    every_state_is_wf(c, earlier);
    if !on_track(before.stage) {
        stop_is_final(before, events.last());
    }
    if j == events.len() - 1 {
        assert(events.take(j) =~= earlier);
    } else {
        assert(earlier.take(j) =~= events.take(j));
        on_track_probes_found_nothing(c, earlier, j);
    }
}

/// Where a run asks for a file to be moved or removed, or ends in success,
/// no two of its sources go to the same destination.
pub proof fn commit_has_distinct_destinations(
    c: ConfigView,
    events: Seq<EventView>,
    a: int,
    b: int,
)
    requires
        ({
            let stage = state_after(c, events).stage;
            stage is Moving || stage is Removing || stage is Clearing
                || stage matches StageView::Finished(OutcomeView::Success { .. })
        }),
        0 <= a < b < state_after(c, events).sources.len(),
    ensures
        state_after(c, events).destination(a) != state_after(c, events).destination(b),
{
    every_state_is_wf(c, events);
    let s = state_after(c, events);
    assert(clash_free(s.config, s.sources, s.sources.len() as int));
    assert(!clashes(s.config, s.sources, b));
}

/// The check for collisions never leads to the writing of a staged file.
proof fn probe_from_is_not_writing(s: RunView, i: nat)
    requires
        i <= s.sources.len(),
    ensures
        !(s.probe_from(i).stage is Writing),
    decreases s.sources.len() - i,
{
    if i < s.sources.len() && !clashes(s.config, s.sources, i as int) && !moved(
        s.config,
        s.sources[i as int],
    ) {
        probe_from_is_not_writing(s, i + 1);
    }
}

/// What a run asks to be written is the answer to a file it has just read:
/// the text of that file with every line rewritten, to be written at the
/// staged path of that file.
pub proof fn write_carries_rewritten_text(c: ConfigView, events: Seq<EventView>)
    requires
        state_after(c, events).pending() is Write,
    ensures
        events.len() > 0,
        state_after(c, events.drop_last()).pending() is Read,
        events.last() is Text,
        state_after(c, events).pending() == (ActionView::Write {
            path: staged_at(
                c.staging_dir,
                state_after(c, events.drop_last()).pending()->Read_path,
            ),
            text: staged_text(events.last()->Text_text, c.from, c.to),
        }),
{
    if events.len() > 0 {
        let before = state_after(c, events.drop_last());
        every_state_is_wf(c, events.drop_last());
        before.next_is_wf(events.last());
        match before.stage {
            StageView::Guarding => probe_from_is_not_writing(before, 0),
            StageView::Preparing => probe_from_is_not_writing(before, 0),
            StageView::Reading(i) => {
                if let EventView::Text { text } = events.last() {
                    let counted = RunView {
                        updates: state_after(c, events).updates,
                        ..before
                    };
                    probe_from_is_not_writing(counted, 0);
                }
            },
            StageView::Writing(i, _) => probe_from_is_not_writing(before, 0),
            StageView::Probing(i) => probe_from_is_not_writing(before, i + 1),
            _ => {},
        }
    }
}

/// The check for collisions leaves the count of updates as it is.
proof fn probe_from_keeps_count(s: RunView, i: nat)
    requires
        i <= s.sources.len(),
    ensures
        s.probe_from(i).updates == s.updates,
    decreases s.sources.len() - i,
{
    if i < s.sources.len() && !clashes(s.config, s.sources, i as int) && !moved(
        s.config,
        s.sources[i as int],
    ) {
        probe_from_keeps_count(s, i + 1);
    }
}

/// A file counts for one update where some line of it holds the string that
/// is replaced, however many lines do, and for none where no line does.
/// Nothing else changes the count.
pub proof fn each_file_counts_once(c: ConfigView, events: Seq<EventView>)
    requires
        events.len() > 0,
    ensures
        ({
            let before = state_after(c, events.drop_last());
            let counts = before.pending() is Read && events.last() is Text && touched(
                lines_of(events.last()->Text_text),
                c.from,
            );
            state_after(c, events).updates == before.updates + if counts {
                1nat
            } else {
                0nat
            }
        }),
{
    let before = state_after(c, events.drop_last());
    every_state_is_wf(c, events.drop_last());
    match before.stage {
        StageView::Guarding => probe_from_keeps_count(before, 0),
        StageView::Preparing => probe_from_keeps_count(before, 0),
        StageView::Reading(i) => {
            if let EventView::Text { text } = events.last() {
                let counted = RunView {
                    updates: if touched(lines_of(text), c.from) {
                        before.updates + 1
                    } else {
                        before.updates
                    },
                    ..before
                };
                probe_from_keeps_count(counted, 0);
            }
        },
        StageView::Writing(i, _) => probe_from_keeps_count(before, 0),
        StageView::Probing(i) => probe_from_keeps_count(before, i + 1),
        _ => {},
    }
}

/// A file is removed only where it goes to another path: its path holds the
/// string that is replaced. A file whose path does not hold it is moved back
/// over itself and never removed.
pub proof fn removal_needs_occurrence(c: ConfigView, events: Seq<EventView>)
    requires
        state_after(c, events).pending() is Remove,
    ensures
        ({
            let path = state_after(c, events).pending()->Remove_path;
            occurs(path, c.from) && destination_of(path, c.from, c.to) != path
        }),
{
    every_state_is_wf(c, events);
    let path = state_after(c, events).pending()->Remove_path;
    destination_differs_on_occurrence(path, c.from, c.to);
}

} // verus!
