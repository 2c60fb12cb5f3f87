//! The run of one target over the playlists of its source's inputs: each
//! input's playlist goes through the target's pipe, comes back after its
//! movie info was resolved outside, and is counted; at the end the
//! playlists are merged, numbered, counted and checked for watched groups,
//! ready to be stored; the run then holds no playlists any more.

use vstd::prelude::*;
use vstd::string::*;
use crate::config::{PlaylistStats, playlist_stats};
use crate::playlist::{GroupSpec, PlaylistGroup, all_channels, groups_view};
use crate::processing::{
    ConfigTarget, WatchError, assign_channel_no_playlist, channel_numbers_fit, chno_fits,
    collect_playlist_groups, concat_playlists, counters_wf, dedup_groups, execute_pipe, flatten_groups,
    get_processing_pipe, map_playlist_counter, merge_groups, pipe_of, process_watch,
    removes_duplicates, run_counters, run_pipe, spec_assign_channel_no, spec_process_watch,
    target_counters, target_wf,
};

verus! {

/// Where the run of a target stands: the keys seen so far (for duplicate
/// removal across inputs) and the processed playlists of the inputs.
pub struct TargetRun {
    pub duplicates: std::collections::HashSet<u128>,
    pub processed: Vec<Vec<PlaylistGroup>>,
    pub finished: bool,
}

/// The run as the contracts see it.
pub struct TargetRunSpec {
    pub duplicates: Set<u128>,
    pub processed: Seq<Seq<GroupSpec>>,
    pub finished: bool,
}

impl View for TargetRun {
    type V = TargetRunSpec;

    open spec fn view(&self) -> TargetRunSpec {
        TargetRunSpec {
            duplicates: self.duplicates@,
            processed: self.processed@.map_values(|p: Vec<PlaylistGroup>| groups_view(p@)),
            finished: self.finished,
        }
    }
}

/// What the outside reports.
pub enum TargetEvent {
    /// The fetched playlist of the next input.
    Input(Vec<PlaylistGroup>),
    /// The playlist asked for by `Resolve`, after its movie info was
    /// resolved.
    Resolved(Vec<PlaylistGroup>),
    /// All inputs were handed in.
    Finish,
}

pub enum TargetEventSpec {
    Input(Seq<GroupSpec>),
    Resolved(Seq<GroupSpec>),
    Finish,
}

impl View for TargetEvent {
    type V = TargetEventSpec;

    open spec fn view(&self) -> TargetEventSpec {
        match self {
            TargetEvent::Input(g) => TargetEventSpec::Input(groups_view(g@)),
            TargetEvent::Resolved(g) => TargetEventSpec::Resolved(groups_view(g@)),
            TargetEvent::Finish => TargetEventSpec::Finish,
        }
    }
}

/// What the outside does next.
pub enum TargetAction {
    /// Resolve the movie info of this processed playlist, then hand it
    /// back as `Resolved`.
    Resolve(Vec<PlaylistGroup>),
    /// Record these as the input's processed statistics and hand in the
    /// next input, or `Finish`.
    UpdateStats(PlaylistStats),
    /// Nothing was left: the target's playlist is empty.
    Empty,
    /// The channel numbers to hand out exceed `u32`.
    NumbersExhausted,
    /// Store this playlist; the watched groups by index, or why none can
    /// be watched.
    Persist(Vec<PlaylistGroup>, Result<Vec<usize>, WatchError>),
    /// The event did not fit: the run has finished.
    Ignored,
}

pub enum TargetActionSpec {
    Resolve(Seq<GroupSpec>),
    UpdateStats(PlaylistStats),
    Empty,
    NumbersExhausted,
    Persist(Seq<GroupSpec>, Result<Seq<usize>, WatchError>),
    Ignored,
}

impl View for TargetAction {
    type V = TargetActionSpec;

    open spec fn view(&self) -> TargetActionSpec {
        match self {
            TargetAction::Resolve(g) => TargetActionSpec::Resolve(groups_view(g@)),
            TargetAction::UpdateStats(s) => TargetActionSpec::UpdateStats(*s),
            TargetAction::Empty => TargetActionSpec::Empty,
            TargetAction::NumbersExhausted => TargetActionSpec::NumbersExhausted,
            TargetAction::Persist(g, w) => TargetActionSpec::Persist(
                groups_view(g@),
                match w {
                    Ok(v) => Ok(v@),
                    Err(e) => Err(*e),
                },
            ),
            TargetAction::Ignored => TargetActionSpec::Ignored,
        }
    }
}

/// An input's playlist after the target's pipe, with the keys seen
/// afterwards: duplicates (by the keys seen before) are removed first when
/// the target asks for it.
pub open spec fn piped_input(target: ConfigTarget, groups: Seq<GroupSpec>, seen: Set<u128>) -> (
    Seq<GroupSpec>,
    Set<u128>,
) {
    if removes_duplicates(target) {
        let (d, s) = dedup_groups(groups, seen);
        (run_pipe(pipe_of(target.processing_order), d, target), s)
    } else {
        (run_pipe(pipe_of(target.processing_order), groups, target), seen)
    }
}

pub open spec fn stats_of(groups: Seq<GroupSpec>) -> PlaylistStats {
    PlaylistStats { group_count: groups.len() as usize, channel_count: all_channels(groups).len() as usize }
}

/// The stored playlist of a target: the inputs' playlists concatenated
/// and merged by title and cluster, channel numbers assigned, the counters
/// run; with the counters as they stand afterwards.
pub open spec fn finished_playlist(target: ConfigTarget, processed: Seq<Seq<GroupSpec>>) -> (
    Seq<GroupSpec>,
    Seq<crate::processing::MappingCounter>,
) {
    let merged = merge_groups(concat_playlists(processed));
    run_counters(target_counters(target), spec_assign_channel_no(merged))
}

/// One step of a target's run. `Input` sends the playlist through the pipe
/// and asks for its movie info to be resolved; `Resolved` keeps the
/// playlist and reports its statistics; `Finish` ends the run: an empty
/// playlist is reported as such, channel numbers beyond `u32` as
/// exhausted, and otherwise the finished playlist is handed out to be
/// stored, with the watched groups. Events after the end are ignored.
pub open spec fn spec_target_step(run: TargetRunSpec, target: ConfigTarget, ev: TargetEventSpec) -> (
    TargetRunSpec,
    TargetActionSpec,
) {
    if run.finished {
        (run, TargetActionSpec::Ignored)
    } else {
        match ev {
            TargetEventSpec::Input(g) => {
                let (out, seen) = piped_input(target, g, run.duplicates);
                (TargetRunSpec { duplicates: seen, ..run }, TargetActionSpec::Resolve(out))
            },
            TargetEventSpec::Resolved(g) => (
                TargetRunSpec { processed: run.processed.push(g), ..run },
                TargetActionSpec::UpdateStats(stats_of(g)),
            ),
            TargetEventSpec::Finish => {
                let all = concat_playlists(run.processed);
                let done = TargetRunSpec { finished: true, processed: seq![], ..run };
                if all.len() == 0 {
                    (done, TargetActionSpec::Empty)
                } else if !chno_fits(all_channels(merge_groups(all))) {
                    (done, TargetActionSpec::NumbersExhausted)
                } else {
                    let (pl, _) = finished_playlist(target, run.processed);
                    (done, TargetActionSpec::Persist(pl, spec_process_watch(target, pl)))
                }
            },
        }
    }
}

impl TargetRun {
    /// A run that has seen nothing.
    pub fn new() -> (r: TargetRun)
        ensures
            r@.duplicates == Set::<u128>::empty(),
            r@.processed == Seq::<Seq<GroupSpec>>::empty(),
            !r@.finished,
    {
        let r = TargetRun { duplicates: std::collections::HashSet::new(), processed: Vec::new(), finished: false };
        assert(r@.processed =~= Seq::<Seq<GroupSpec>>::empty());
        r
    }
}

/// One step of a target's run (see [`spec_target_step`]). The target's
/// counters advance when the run finishes with a stored playlist; its
/// other settings stay.
pub fn target_step(run: &mut TargetRun, target: &mut ConfigTarget, ev: TargetEvent) -> (a: TargetAction)
    requires
        target_wf(*old(target)),
        counters_wf(target_counters(*old(target))),
        match ev {
            TargetEvent::Input(g) => all_channels(groups_view(g@)).len() < u32::MAX,
            TargetEvent::Resolved(g) => all_channels(groups_view(g@)).len() <= usize::MAX,
            TargetEvent::Finish => true,
        },
    ensures
        (final(run)@, a@) == spec_target_step(old(run)@, *old(target), ev@),
        target_wf(*final(target)),
        crate::processing::same_target_settings(*final(target), *old(target)),
        match a@ {
            TargetActionSpec::Persist(_, _) => target_counters(*final(target)) == finished_playlist(
                *old(target),
                old(run)@.processed,
            ).1,
            _ => *final(target) == *old(target),
        },
{
    if run.finished {
        return TargetAction::Ignored;
    }
    match ev {
        TargetEvent::Input(groups) => {
            let pipe = get_processing_pipe(target);
            let out: Vec<PlaylistGroup> = execute_pipe(target, &pipe, groups, &mut run.duplicates);
            TargetAction::Resolve(out)
        },
        TargetEvent::Resolved(groups) => {
            let stats: PlaylistStats = playlist_stats(&groups);
            let ghost before = run@.processed;
            run.processed.push(groups);
            assert(run@.processed =~= before.push(groups_view(groups@)));
            TargetAction::UpdateStats(stats)
        },
        TargetEvent::Finish => {
            run.finished = true;
            let mut processed: Vec<Vec<PlaylistGroup>> = Vec::new();
            std::mem::swap(&mut processed, &mut run.processed);
            let ghost pv = processed@.map_values(|p: Vec<PlaylistGroup>| groups_view(p@));
            assert(run@.processed =~= Seq::<Seq<GroupSpec>>::empty());
            let all: Vec<PlaylistGroup> = collect_playlist_groups(processed);
            if all.len() == 0 {
                return TargetAction::Empty;
            }
            let mut merged: Vec<PlaylistGroup> = flatten_groups(all);
            if !channel_numbers_fit(&merged) {
                return TargetAction::NumbersExhausted;
            }
            assign_channel_no_playlist(&mut merged);
            map_playlist_counter(target, &mut merged);
            let watched = process_watch(target, &merged);
            TargetAction::Persist(merged, watched)
        },
    }
}

} // verus!
