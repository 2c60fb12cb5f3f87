//! The run over one source: which input is fetched next, when the source
//! counts as empty, and which target is processed next. The fetching and
//! the processing themselves happen outside; each step takes what came
//! back and says what to do next.

use vstd::prelude::*;
use vstd::string::*;
use crate::config::{
    ConfigInput, ProcessTargets, empty_input_message, empty_source_message, is_input_enabled,
    is_target_enabled,
};
use crate::processing::ConfigTarget;
use crate::text::dec_digits;

verus! {

/// The inputs and targets of one source.
pub struct SourceConfig {
    pub inputs: Vec<ConfigInput>,
    pub targets: Vec<ConfigTarget>,
}

/// An input is processed when nothing was named on the command line and it
/// is enabled, or when it was named.
pub open spec fn input_enabled(input: ConfigInput, ut: ProcessTargets) -> bool {
    (!ut.enabled && input.enabled) || ut.inputs@.contains(input.id)
}

/// A target is processed when nothing was named and it is enabled, or when
/// it was named.
pub open spec fn target_enabled(target: ConfigTarget, ut: ProcessTargets) -> bool {
    (!ut.enabled && target.enabled) || (ut.enabled && ut.targets@.contains(target.id))
}

/// The first enabled input at or after `from`.
pub open spec fn first_enabled_input(inputs: Seq<ConfigInput>, ut: ProcessTargets, from: int) -> Option<int>
    decreases inputs.len() - from,
{
    if from < 0 || from >= inputs.len() {
        None
    } else if input_enabled(inputs[from], ut) {
        Some(from)
    } else {
        first_enabled_input(inputs, ut, from + 1)
    }
}

/// The first enabled target at or after `from`.
pub open spec fn first_enabled_target(targets: Seq<ConfigTarget>, ut: ProcessTargets, from: int) -> Option<int>
    decreases targets.len() - from,
{
    if from < 0 || from >= targets.len() {
        None
    } else if target_enabled(targets[from], ut) {
        Some(from)
    } else {
        first_enabled_target(targets, ut, from + 1)
    }
}

#[derive(Debug, Clone, Copy, PartialEq, Eq, Structural)]
pub enum SourcePhase {
    /// Not started.
    Idle,
    /// Fetching the inputs; `current` is being fetched.
    Inputs,
    /// Processing the targets.
    Targets,
    Done,
}

/// Where the run over a source stands.
#[derive(Debug, Clone, Copy, PartialEq, Eq, Structural)]
pub struct SourceRun {
    pub source_idx: usize,
    pub phase: SourcePhase,
    /// The input being fetched.
    pub current: usize,
    /// Where the search for the next input or target starts.
    pub next: usize,
    /// Whether any input was enabled.
    pub downloaded: bool,
    /// Whether any input delivered groups.
    pub fetched_any: bool,
}

/// What the outside reports.
#[derive(Debug, Clone, Copy, PartialEq, Eq, Structural)]
pub enum SourceEvent {
    /// The run begins.
    Start,
    /// The current input was fetched and delivered this many groups.
    Fetched { group_count: usize },
    /// The target last asked for was processed.
    TargetProcessed,
}

/// What the outside does next.
#[derive(Debug, Clone, Copy, PartialEq, Eq, Structural)]
pub enum SourceCommand {
    FetchInput(usize),
    ProcessTarget(usize),
    Finish,
}

/// The errors a step reports and what comes next.
pub struct SourceAction {
    pub errors: Vec<String>,
    pub command: SourceCommand,
}

/// The run is consistent with the source.
pub open spec fn source_run_wf(run: SourceRun, source: SourceConfig) -> bool {
    match run.phase {
        SourcePhase::Inputs => run.current < source.inputs@.len() && run.next == run.current + 1,
        SourcePhase::Targets => run.next <= source.targets@.len(),
        _ => true,
    }
}

pub open spec fn empty_source_text(source_idx: usize) -> Seq<char> {
    "Source at "@ + dec_digits(source_idx as nat) + " is empty"@
}

/// After the last input: nothing to do when no input was enabled; an error
/// when no enabled input delivered groups; otherwise the first enabled
/// target.
pub open spec fn after_inputs(run: SourceRun, source: SourceConfig, ut: ProcessTargets) -> (
    SourceRun,
    Seq<Seq<char>>,
    SourceCommand,
) {
    if !run.downloaded {
        (SourceRun { phase: SourcePhase::Done, ..run }, seq![], SourceCommand::Finish)
    } else if !run.fetched_any {
        (
            SourceRun { phase: SourcePhase::Done, ..run },
            seq![empty_source_text(run.source_idx)],
            SourceCommand::Finish,
        )
    } else {
        targets_from(run, source, ut, 0)
    }
}

/// The next enabled target from `from` on, or the end of the run.
pub open spec fn targets_from(run: SourceRun, source: SourceConfig, ut: ProcessTargets, from: int) -> (
    SourceRun,
    Seq<Seq<char>>,
    SourceCommand,
) {
    match first_enabled_target(source.targets@, ut, from) {
        Some(t) => (
            SourceRun { phase: SourcePhase::Targets, next: (t + 1) as usize, ..run },
            seq![],
            SourceCommand::ProcessTarget(t as usize),
        ),
        None => (SourceRun { phase: SourcePhase::Done, ..run }, seq![], SourceCommand::Finish),
    }
}

/// The next enabled input from `from` on, or what follows the inputs.
pub open spec fn inputs_from(run: SourceRun, source: SourceConfig, ut: ProcessTargets, from: int) -> (
    SourceRun,
    Seq<Seq<char>>,
    SourceCommand,
) {
    match first_enabled_input(source.inputs@, ut, from) {
        Some(i) => (
            SourceRun {
                phase: SourcePhase::Inputs,
                current: i as usize,
                next: (i + 1) as usize,
                downloaded: true,
                ..run
            },
            seq![],
            SourceCommand::FetchInput(i as usize),
        ),
        None => after_inputs(run, source, ut),
    }
}

/// One step of the run over a source. `Start` begins with the first
/// enabled input. A fetched input that delivered no groups is reported
/// (`Source is empty {name}`), then the next enabled input is fetched.
/// After the inputs, a source whose enabled inputs all came back empty is
/// reported (`Source at {index} is empty`) and the run ends; otherwise the
/// enabled targets are processed one after the other. An event that does
/// not fit the phase ends the run.
pub open spec fn spec_source_step(run: SourceRun, source: SourceConfig, ut: ProcessTargets, ev: SourceEvent) -> (
    SourceRun,
    Seq<Seq<char>>,
    SourceCommand,
) {
    match ev {
        SourceEvent::Start => inputs_from(
            SourceRun {
                source_idx: run.source_idx,
                phase: SourcePhase::Inputs,
                current: 0,
                next: 0,
                downloaded: false,
                fetched_any: false,
            },
            source,
            ut,
            0,
        ),
        SourceEvent::Fetched { group_count } => if run.phase == SourcePhase::Inputs {
            let errs: Seq<Seq<char>> = if group_count == 0 {
                seq!["Source is empty "@ + source.inputs@[run.current as int].name@]
            } else {
                seq![]
            };
            let run1 = SourceRun { fetched_any: run.fetched_any || group_count > 0, ..run };
            let (r2, e2, c2) = inputs_from(run1, source, ut, run.next as int);
            (r2, errs + e2, c2)
        } else {
            (SourceRun { phase: SourcePhase::Done, ..run }, seq![], SourceCommand::Finish)
        },
        SourceEvent::TargetProcessed => if run.phase == SourcePhase::Targets {
            targets_from(run, source, ut, run.next as int)
        } else {
            (SourceRun { phase: SourcePhase::Done, ..run }, seq![], SourceCommand::Finish)
        },
    }
}

fn first_input_from(source: &SourceConfig, ut: &ProcessTargets, from: usize) -> (r: Option<usize>)
    ensures
        match first_enabled_input(source.inputs@, *ut, from as int) {
            Some(i) => r == Some(i as usize) && from <= i < source.inputs@.len() && i < usize::MAX,
            None => r is None,
        },
{
    let n: usize = source.inputs.len();
    let mut i: usize = from;
    while i < n
        invariant
            n == source.inputs@.len(),
            from <= i,
            first_enabled_input(source.inputs@, *ut, from as int) == first_enabled_input(
                source.inputs@,
                *ut,
                i as int,
            ),
        decreases n - i,
    {
        if is_input_enabled(&source.inputs[i], ut) {
            return Some(i);
        }
        i = i + 1;
    }
    None
}

fn first_target_from(source: &SourceConfig, ut: &ProcessTargets, from: usize) -> (r: Option<usize>)
    ensures
        match first_enabled_target(source.targets@, *ut, from as int) {
            Some(t) => r == Some(t as usize) && from <= t < source.targets@.len() && t < usize::MAX,
            None => r is None,
        },
{
    let n: usize = source.targets.len();
    let mut i: usize = from;
    while i < n
        invariant
            n == source.targets@.len(),
            from <= i,
            first_enabled_target(source.targets@, *ut, from as int) == first_enabled_target(
                source.targets@,
                *ut,
                i as int,
            ),
        decreases n - i,
    {
        if is_target_enabled(&source.targets[i], ut) {
            return Some(i);
        }
        i = i + 1;
    }
    None
}

fn exec_targets_from(run: SourceRun, source: &SourceConfig, ut: &ProcessTargets, from: usize) -> (r: (
    SourceRun,
    SourceCommand,
))
    ensures
        r.0 == targets_from(run, *source, *ut, from as int).0,
        r.1 == targets_from(run, *source, *ut, from as int).2,
        targets_from(run, *source, *ut, from as int).1 == Seq::<Seq<char>>::empty(),
        source_run_wf(r.0, *source),
{
    match first_target_from(source, ut, from) {
        Some(t) => (SourceRun { phase: SourcePhase::Targets, next: t + 1, ..run }, SourceCommand::ProcessTarget(t)),
        None => (SourceRun { phase: SourcePhase::Done, ..run }, SourceCommand::Finish),
    }
}

fn exec_inputs_from(run: SourceRun, source: &SourceConfig, ut: &ProcessTargets, from: usize, errors: &mut Vec<String>) -> (r: (
    SourceRun,
    SourceCommand,
))
    ensures
        r.0 == inputs_from(run, *source, *ut, from as int).0,
        r.1 == inputs_from(run, *source, *ut, from as int).2,
        final(errors)@.map_values(|s: String| s@) == old(errors)@.map_values(|s: String| s@) + inputs_from(
            run,
            *source,
            *ut,
            from as int,
        ).1,
        source_run_wf(r.0, *source),
{
    match first_input_from(source, ut, from) {
        Some(i) => {
            assert(errors@.map_values(|s: String| s@) =~= old(errors)@.map_values(|s: String| s@) + seq![]);
            (
                SourceRun { phase: SourcePhase::Inputs, current: i, next: i + 1, downloaded: true, ..run },
                SourceCommand::FetchInput(i),
            )
        },
        None => {
            if !run.downloaded {
                assert(errors@.map_values(|s: String| s@) =~= old(errors)@.map_values(|s: String| s@) + seq![]);
                (SourceRun { phase: SourcePhase::Done, ..run }, SourceCommand::Finish)
            } else if !run.fetched_any {
                let ghost before = errors@.map_values(|s: String| s@);
                let msg: String = empty_source_message(run.source_idx);
                errors.push(msg);
                assert(errors@.map_values(|s: String| s@) =~= before + seq![empty_source_text(run.source_idx)]);
                (SourceRun { phase: SourcePhase::Done, ..run }, SourceCommand::Finish)
            } else {
                assert(errors@.map_values(|s: String| s@) =~= old(errors)@.map_values(|s: String| s@) + seq![]);
                exec_targets_from(run, source, ut, 0)
            }
        },
    }
}

/// One step of the run over a source (see [`spec_source_step`]).
pub fn source_step(run: &mut SourceRun, source: &SourceConfig, targets: &ProcessTargets, ev: SourceEvent) -> (a: SourceAction)
    requires
        source_run_wf(*old(run), *source),
    ensures
        source_run_wf(*final(run), *source),
        *final(run) == spec_source_step(*old(run), *source, *targets, ev).0,
        a.errors@.map_values(|s: String| s@) == spec_source_step(*old(run), *source, *targets, ev).1,
        a.command == spec_source_step(*old(run), *source, *targets, ev).2,
{
    let mut errors: Vec<String> = Vec::new();
    let cur: SourceRun = *run;
    match ev {
        SourceEvent::Start => {
            let start = SourceRun {
                source_idx: cur.source_idx,
                phase: SourcePhase::Inputs,
                current: 0,
                next: 0,
                downloaded: false,
                fetched_any: false,
            };
            let (r, c) = exec_inputs_from(start, source, targets, 0, &mut errors);
            assert(errors@.map_values(|s: String| s@) =~= spec_source_step(cur, *source, *targets, ev).1);
            *run = r;
            SourceAction { errors, command: c }
        },
        SourceEvent::Fetched { group_count } => {
            if cur.phase == SourcePhase::Inputs {
                if group_count == 0 {
                    let msg: String = empty_input_message(source.inputs[cur.current].name.as_str());
                    errors.push(msg);
                }
                let ghost first = errors@.map_values(|s: String| s@);
                let run1 = SourceRun { fetched_any: cur.fetched_any || group_count > 0, ..cur };
                let (r, c) = exec_inputs_from(run1, source, targets, cur.next, &mut errors);
                assert(errors@.map_values(|s: String| s@) =~= spec_source_step(cur, *source, *targets, ev).1);
                *run = r;
                SourceAction { errors, command: c }
            } else {
                assert(errors@.map_values(|s: String| s@) =~= Seq::<Seq<char>>::empty());
                *run = SourceRun { phase: SourcePhase::Done, ..cur };
                SourceAction { errors, command: SourceCommand::Finish }
            }
        },
        SourceEvent::TargetProcessed => {
            assert(errors@.map_values(|s: String| s@) =~= Seq::<Seq<char>>::empty());
            if cur.phase == SourcePhase::Targets {
                let (r, c) = exec_targets_from(cur, source, targets, cur.next);
                *run = r;
                SourceAction { errors, command: c }
            } else {
                *run = SourceRun { phase: SourcePhase::Done, ..cur };
                SourceAction { errors, command: SourceCommand::Finish }
            }
        },
    }
}

} // verus!
