//! What the user interface asks for, and what it is told.

pub mod realtime;

use crate::checkpoint::{
    all_completed, complete_means_all_counted, completed_in, Checkpoint, CheckpointFingerprint,
    CheckpointView, FingerprintView, Fraction,
};
use crate::config::{provider_preset, translate_provider_preset, AppConfig, AppConfigView};
use crate::error::{error_text, Error};
use crate::pipeline::{phase_name, Phase, PipelineState, StateView};
use crate::text::{cat, opt_text, text_eq};
use crate::translate::OpenAiCompatibleProvider;
use vstd::prelude::*;
use vstd::string::*;

verus! {

/// How a run stands, as it is shown.
#[derive(Debug)]
pub struct ProgressInfo {
    pub state: String,
    pub progress: Fraction,
    pub error: Option<String>,
    pub phase: String,
}

/// The name under which the state of a run is reported.
pub open spec fn run_state_name(s: StateView) -> Seq<char> {
    match s {
        StateView::Idle => "idle"@,
        StateView::Processing => "processing"@,
        StateView::Paused => "paused"@,
        StateView::Completed => "completed"@,
        StateView::Exported => "exported"@,
        StateView::Failed(_) => "failed"@,
    }
}

/// The share that is shown for a run: all of it where it is complete.
pub open spec fn shown_progress(s: StateView, progress: Fraction) -> Fraction {
    match s {
        StateView::Completed => Fraction { numer: 1, denom: 1 },
        StateView::Exported => Fraction { numer: 1, denom: 1 },
        _ => progress,
    }
}

/// What is shown of a run. Without a run everything is idle.
pub fn get_processing_progress(run: Option<(&PipelineState, Fraction)>, phase: Option<Phase>) -> (r:
    ProgressInfo)
    ensures
        match run {
            Some((state, progress)) => {
                &&& r.state@ == run_state_name(state@)
                &&& r.progress == shown_progress(state@, progress)
                &&& opt_text(r.error) == (match state@ {
                    StateView::Failed(m) => Some(m),
                    _ => None,
                })
                &&& r.phase@ == (match phase {
                    Some(p) => phase_name(p),
                    None => "idle"@,
                })
            },
            None => {
                &&& r.state@ == "idle"@
                &&& r.progress == (Fraction { numer: 0, denom: 1 })
                &&& r.error is None
                &&& r.phase@ == "idle"@
            },
        },
        run matches Some((state, progress)) ==> {
            &&& *state is Idle ==> r.state@ == "idle"@ && r.progress == progress
            &&& *state is Processing ==> r.state@ == "processing"@ && r.progress == progress
            &&& *state is Paused ==> r.state@ == "paused"@ && r.progress == progress
            &&& *state is Completed ==> r.state@ == "completed"@ && r.progress.numer == 1
                && r.progress.denom == 1
            &&& *state is Exported ==> r.state@ == "exported"@ && r.progress.numer == 1
                && r.progress.denom == 1
            &&& *state matches PipelineState::Failed(m) ==> r.state@ == "failed"@ && r.progress
                == progress && r.error is Some && r.error->0@ == m@
            &&& !(*state is Failed) ==> r.error is None
            &&& phase is None ==> r.phase@ == "idle"@
            &&& phase == Some(Phase::Extracting) ==> r.phase@ == "extracting"@
            &&& phase == Some(Phase::Transcribing) ==> r.phase@ == "transcribing"@
            &&& phase == Some(Phase::Translating) ==> r.phase@ == "translating"@
            &&& phase == Some(Phase::Done) ==> r.phase@ == "done"@
        },
{
    match run {
        Some((state, progress)) => {
            let phase_text: &str = match phase {
                Some(p) => p.as_str(),
                None => "idle",
            };
            let whole = Fraction { numer: 1, denom: 1 };
            let (name, shown, error): (&str, Fraction, Option<String>) = match state {
                PipelineState::Idle => ("idle", progress, None),
                PipelineState::Processing => ("processing", progress, None),
                PipelineState::Paused => ("paused", progress, None),
                PipelineState::Completed => ("completed", whole, None),
                PipelineState::Exported => ("exported", whole, None),
                PipelineState::Failed(e) => ("failed", progress, Some(e.clone())),
            };
            ProgressInfo {
                state: name.to_owned(),
                progress: shown,
                error,
                phase: phase_text.to_owned(),
            }
        },
        None => ProgressInfo {
            state: "idle".to_owned(),
            progress: Fraction { numer: 0, denom: 1 },
            error: None,
            phase: "idle".to_owned(),
        },
    }
}

/// How far a task has come.
#[derive(Debug, Clone, Copy, PartialEq, Eq, Structural)]
pub enum TaskState {
    Fresh,
    Translating,
    Completed,
}

/// What is offered for a video: to begin, or to go on from where its task
/// stands, with the language that it was begun with.
#[derive(Debug)]
pub struct TaskStatus {
    pub state: TaskState,
    pub percent: Fraction,
    pub source_language: Option<String>,
}

/// How far a task has come, by its checkpoint.
pub open spec fn task_state_of<T>(c: CheckpointView<T>) -> TaskState {
    if c.segments.len() == 0 {
        TaskState::Fresh
    } else if all_completed(c.segments) {
        TaskState::Completed
    } else {
        TaskState::Translating
    }
}

/// Which share of a task is done, by its checkpoint.
pub open spec fn task_percent_of<T>(c: CheckpointView<T>) -> Fraction {
    match task_state_of(c) {
        TaskState::Fresh => Fraction { numer: 0, denom: 1 },
        TaskState::Completed => Fraction { numer: 1, denom: 1 },
        TaskState::Translating => Fraction {
            numer: completed_in(c.segments) as usize,
            denom: c.segments.len() as usize,
        },
    }
}

/// How far a task has come, and which share of it is done.
fn checkpoint_progress<T>(c: &Checkpoint<T>) -> (r: (TaskState, Fraction))
    ensures
        r.0 == task_state_of(c@),
        r.1 == task_percent_of(c@),
{
    if c.segments.len() == 0 {
        (TaskState::Fresh, Fraction { numer: 0, denom: 1 })
    } else if c.is_all_completed() {
        (TaskState::Completed, Fraction { numer: 1, denom: 1 })
    } else {
        (TaskState::Translating, c.percent())
    }
}

/// Whether a task was run with the settings of today. The source language is
/// not among them: the user chooses it anew.
pub open spec fn same_settings(f: FingerprintView, c: AppConfigView) -> bool {
    &&& f.target_lang == c.translate.target_lang
    &&& f.translate_provider == c.translate.provider
    &&& f.translate_model == c.translate.model
    &&& f.asr_model == c.asr.file_model
}

/// How far the task of a video is said to have come. Under other settings than
/// those of its checkpoint nothing can be promised, and it counts as fresh.
pub open spec fn offered_state<T>(c: Option<CheckpointView<T>>, settings: AppConfigView) -> TaskState {
    match c {
        Some(c) => if same_settings(c.fingerprint@, settings) {
            task_state_of(c)
        } else {
            TaskState::Fresh
        },
        None => TaskState::Fresh,
    }
}

/// What an optional checkpoint holds.
pub open spec fn opt_checkpoint<T>(c: Option<Checkpoint<T>>) -> Option<CheckpointView<T>> {
    match c {
        Some(c) => Some(c@),
        None => None,
    }
}

/// What is offered for a video, given its checkpoint where it has one.
pub fn get_task_status<T>(checkpoint: &Option<Checkpoint<T>>, config: &AppConfig) -> (r: TaskStatus)
    ensures
        r.state == offered_state(opt_checkpoint(*checkpoint), config@),
        r.percent == (if r.state == TaskState::Fresh {
            Fraction { numer: 0, denom: 1 }
        } else {
            task_percent_of(checkpoint->0@)
        }),
        r.source_language == (if r.state == TaskState::Fresh {
            None
        } else {
            Some(checkpoint->0.fingerprint.source_language)
        }),
        r.state != TaskState::Fresh <==> checkpoint is Some && checkpoint->0.segments@.len() > 0
            && checkpoint->0.fingerprint.target_lang@ == config.translate.target_lang@
            && checkpoint->0.fingerprint.translate_provider@ == config.translate.provider@
            && checkpoint->0.fingerprint.translate_model@ == config.translate.model@
            && checkpoint->0.fingerprint.asr_model@ == config.asr.file_model@,
        r.state == TaskState::Completed ==> forall|i: int|
            0 <= i < checkpoint->0.segments@.len() ==> (
            #[trigger] checkpoint->0.segments@[i]).status is Completed,
        r.state == TaskState::Translating ==> r.percent.numer == completed_in(
            checkpoint->0.segments@,
        ) && r.percent.denom == checkpoint->0.segments@.len() && r.percent.numer
            < r.percent.denom,
        r.state == TaskState::Completed ==> r.percent.numer == 1 && r.percent.denom == 1,
{
    proof {
        if checkpoint is Some {
            complete_means_all_counted(checkpoint->0.segments@);
            assert(checkpoint->0.segments@.len() == checkpoint->0.segments.len());
        }
    }
    let fresh = TaskStatus {
        state: TaskState::Fresh,
        percent: Fraction { numer: 0, denom: 1 },
        source_language: None,
    };
    match checkpoint {
        None => fresh,
        Some(c) => {
            let f = &c.fingerprint;
            if !text_eq(f.target_lang.as_str(), config.translate.target_lang.as_str()) || !text_eq(
                f.translate_provider.as_str(),
                config.translate.provider.as_str(),
            ) || !text_eq(f.translate_model.as_str(), config.translate.model.as_str()) || !text_eq(
                f.asr_model.as_str(),
                config.asr.file_model.as_str(),
            ) {
                return fresh;
            }
            let (state, percent) = checkpoint_progress(c);
            if state == TaskState::Fresh {
                fresh
            } else {
                TaskStatus { state, percent, source_language: Some(f.source_language.clone()) }
            }
        },
    }
}

/// A task of the past.
#[derive(Debug)]
pub struct RecentTask {
    pub task_id: String,
    pub video_path: String,
    pub file_name: String,
    pub modified_at: u64,
    pub state: TaskState,
    pub percent: Fraction,
}

impl Clone for RecentTask {
    fn clone(&self) -> (r: Self)
        ensures
            r == *self,
    {
        RecentTask {
            task_id: self.task_id.clone(),
            video_path: self.video_path.clone(),
            file_name: self.file_name.clone(),
            modified_at: self.modified_at,
            state: self.state,
            percent: self.percent,
        }
    }
}

/// What is shown of a task of the past, given its checkpoint, the name of its
/// video file, and when its log was last written. A task without a video is
/// not shown.
pub fn recent_task<T>(checkpoint: &Checkpoint<T>, file_name: String, modified_at: u64) -> (r:
    Option<RecentTask>)
    ensures
        match r {
            Some(t) => {
                &&& checkpoint.video_path@.len() > 0
                &&& t.task_id == checkpoint.task_id
                &&& t.video_path == checkpoint.video_path
                &&& t.file_name == file_name
                &&& t.modified_at == modified_at
                &&& t.state == task_state_of(checkpoint@)
                &&& t.percent == task_percent_of(checkpoint@)
            },
            None => checkpoint.video_path@.len() == 0,
        },
{
    if checkpoint.video_path.as_str().is_empty() {
        return None;
    }
    let (state, percent) = checkpoint_progress(checkpoint);
    Some(
        RecentTask {
            task_id: checkpoint.task_id.clone(),
            video_path: checkpoint.video_path.clone(),
            file_name,
            modified_at,
            state,
            percent,
        },
    )
}

/// The position of the first task of a video; the number of tasks where there
/// is none.
pub open spec fn video_position(tasks: Seq<RecentTask>, path: Seq<char>) -> int
    decreases tasks.len(),
{
    if tasks.len() == 0 || tasks[0].video_path@ == path {
        0
    } else {
        1 + video_position(tasks.drop_first(), path)
    }
}

/// The tasks with one per video, at the place of the video's first: the one
/// that was written last, and among those written at once the first.
pub open spec fn newest_per_video(tasks: Seq<RecentTask>) -> Seq<RecentTask>
    decreases tasks.len(),
{
    if tasks.len() == 0 {
        Seq::empty()
    } else {
        let before = newest_per_video(tasks.drop_last());
        let t = tasks.last();
        let i = video_position(before, t.video_path@);
        if i < before.len() {
            if t.modified_at > before[i].modified_at {
                before.update(i, t)
            } else {
                before
            }
        } else {
            before.push(t)
        }
    }
}

/// How many of the tasks at the front were written at the given time or later.
pub open spec fn newer_count(tasks: Seq<RecentTask>, modified_at: u64) -> nat
    decreases tasks.len(),
{
    if tasks.len() > 0 && tasks[0].modified_at >= modified_at {
        1 + newer_count(tasks.drop_first(), modified_at)
    } else {
        0
    }
}

/// The tasks, latest first; those written at once keep their order.
pub open spec fn latest_first(tasks: Seq<RecentTask>) -> Seq<RecentTask>
    decreases tasks.len(),
{
    if tasks.len() == 0 {
        Seq::empty()
    } else {
        let before = latest_first(tasks.drop_last());
        before.insert(newer_count(before, tasks.last().modified_at) as int, tasks.last())
    }
}

/// The tasks that are shown: one per video, latest first, eight at most.
pub open spec fn shown_tasks(tasks: Seq<RecentTask>) -> Seq<RecentTask> {
    let all = latest_first(newest_per_video(tasks));
    if all.len() <= 8 {
        all
    } else {
        all.take(8)
    }
}

proof fn lemma_video_position(tasks: Seq<RecentTask>, path: Seq<char>, i: int)
    requires
        0 <= i <= tasks.len(),
        i < tasks.len() ==> tasks[i].video_path@ == path,
        forall|j: int| 0 <= j < i ==> (#[trigger] tasks[j]).video_path@ != path,
    ensures
        video_position(tasks, path) == i,
    decreases tasks.len(),
{
    if i > 0 {
        let rest = tasks.drop_first();
        assert(tasks[0].video_path@ != path);
        assert forall|j: int| 0 <= j < i - 1 implies (#[trigger] rest[j]).video_path@ != path by {
            assert(rest[j] == tasks[j + 1]);
        }
        lemma_video_position(rest, path, i - 1);
    }
}

proof fn lemma_newer_count(tasks: Seq<RecentTask>, modified_at: u64, i: int)
    requires
        0 <= i <= tasks.len(),
        i < tasks.len() ==> tasks[i].modified_at < modified_at,
        forall|j: int| 0 <= j < i ==> (#[trigger] tasks[j]).modified_at >= modified_at,
    ensures
        newer_count(tasks, modified_at) == i,
    decreases tasks.len(),
{
    if i > 0 {
        let rest = tasks.drop_first();
        assert(tasks[0].modified_at >= modified_at);
        assert forall|j: int| 0 <= j < i - 1 implies (#[trigger] rest[j]).modified_at
            >= modified_at by {
            assert(rest[j] == tasks[j + 1]);
        }
        lemma_newer_count(rest, modified_at, i - 1);
    }
}

fn keep_newest(tasks: &Vec<RecentTask>) -> (r: Vec<RecentTask>)
    ensures
        r@ == newest_per_video(tasks@),
{
    let mut kept: Vec<RecentTask> = Vec::new();
    let mut k: usize = 0;
    while k < tasks.len()
        invariant
            k <= tasks.len(),
            kept@ == newest_per_video(tasks@.take(k as int)),
        decreases tasks.len() - k,
    {
        let t = &tasks[k];
        let mut i: usize = 0;
        while i < kept.len() && !text_eq(kept[i].video_path.as_str(), t.video_path.as_str())
            invariant
                i <= kept.len(),
                forall|j: int|
                    0 <= j < i ==> (#[trigger] kept@[j]).video_path@ != t.video_path@,
            decreases kept.len() - i,
        {
            i += 1;
        }
        proof {
            lemma_video_position(kept@, t.video_path@, i as int);
            assert(tasks@.take(k + 1).drop_last() =~= tasks@.take(k as int));
            assert(tasks@.take(k + 1).last() == *t);
        }
        if i < kept.len() {
            if t.modified_at > kept[i].modified_at {
                kept[i] = t.clone();
            }
        } else {
            kept.push(t.clone());
        }
        k += 1;
    }
    proof {
        assert(tasks@.take(tasks@.len() as int) =~= tasks@);
    }
    kept
}

fn sort_latest_first(tasks: &Vec<RecentTask>) -> (r: Vec<RecentTask>)
    ensures
        r@ == latest_first(tasks@),
{
    let mut sorted: Vec<RecentTask> = Vec::new();
    let mut k: usize = 0;
    while k < tasks.len()
        invariant
            k <= tasks.len(),
            sorted@ == latest_first(tasks@.take(k as int)),
        decreases tasks.len() - k,
    {
        let t = &tasks[k];
        let mut i: usize = 0;
        while i < sorted.len() && sorted[i].modified_at >= t.modified_at
            invariant
                i <= sorted.len(),
                forall|j: int| 0 <= j < i ==> (#[trigger] sorted@[j]).modified_at >= t.modified_at,
            decreases sorted.len() - i,
        {
            i += 1;
        }
        proof {
            lemma_newer_count(sorted@, t.modified_at, i as int);
            assert(tasks@.take(k + 1).drop_last() =~= tasks@.take(k as int));
            assert(tasks@.take(k + 1).last() == *t);
        }
        sorted.insert(i, t.clone());
        k += 1;
    }
    proof {
        assert(tasks@.take(tasks@.len() as int) =~= tasks@);
    }
    sorted
}

/// The tasks that are shown.
pub fn list_recent_tasks(tasks: &Vec<RecentTask>) -> (r: Vec<RecentTask>)
    ensures
        r@ == shown_tasks(tasks@),
{
    let kept = keep_newest(tasks);
    let mut sorted = sort_latest_first(&kept);
    sorted.truncate(8);
    sorted
}

/// Whether tasks are in order, the latest first.
pub open spec fn is_latest_first(tasks: Seq<RecentTask>) -> bool {
    forall|i: int, j: int|
        0 <= i < j < tasks.len() ==> (#[trigger] tasks[i]).modified_at >= (
        #[trigger] tasks[j]).modified_at
}

/// Whether no video occurs twice.
pub open spec fn one_per_video(tasks: Seq<RecentTask>) -> bool {
    forall|i: int, j: int|
        0 <= i < j < tasks.len() ==> (#[trigger] tasks[i]).video_path@ != (
        #[trigger] tasks[j]).video_path@
}

proof fn lemma_newer_count_bounds(tasks: Seq<RecentTask>, modified_at: u64)
    ensures
        newer_count(tasks, modified_at) <= tasks.len(),
        forall|j: int|
            0 <= j < newer_count(tasks, modified_at) ==> (#[trigger] tasks[j]).modified_at
                >= modified_at,
        newer_count(tasks, modified_at) < tasks.len() ==> tasks[newer_count(
            tasks,
            modified_at,
        ) as int].modified_at < modified_at,
    decreases tasks.len(),
{
    if tasks.len() > 0 && tasks[0].modified_at >= modified_at {
        let rest = tasks.drop_first();
        lemma_newer_count_bounds(rest, modified_at);
        assert forall|j: int| 0 <= j < newer_count(tasks, modified_at) implies (
        #[trigger] tasks[j]).modified_at >= modified_at by {
            if j > 0 {
                assert(rest[j - 1] == tasks[j]);
            }
        }
    }
}

proof fn lemma_latest_first(tasks: Seq<RecentTask>)
    ensures
        is_latest_first(latest_first(tasks)),
        latest_first(tasks).len() == tasks.len(),
    decreases tasks.len(),
{
    if tasks.len() > 0 {
        let rest = tasks.drop_last();
        lemma_latest_first(rest);
        let before = latest_first(rest);
        let t = tasks.last();
        let k = newer_count(before, t.modified_at) as int;
        lemma_newer_count_bounds(before, t.modified_at);
        let after = before.insert(k, t);
        assert forall|i: int, j: int| 0 <= i < j < after.len() implies (
        #[trigger] after[i]).modified_at >= (#[trigger] after[j]).modified_at by {
            let a = if i < k {
                i
            } else {
                i - 1
            };
            let b = if j < k {
                j
            } else {
                j - 1
            };
            if i != k && j != k {
                assert(before[a].modified_at >= before[b].modified_at);
            } else if i == k {
                assert(before[k].modified_at < t.modified_at);
                if b > k {
                    assert(before[k].modified_at >= before[b].modified_at);
                }
            }
        }
    }
}

proof fn lemma_sorted_keeps(tasks: Seq<RecentTask>, i: int)
    requires
        0 <= i < tasks.len(),
    ensures
        latest_first(tasks).contains(tasks[i]),
    decreases tasks.len(),
{
    let rest = tasks.drop_last();
    let before = latest_first(rest);
    let t = tasks.last();
    let k = newer_count(before, t.modified_at) as int;
    lemma_newer_count_bounds(before, t.modified_at);
    let after = before.insert(k, t);
    if i < rest.len() {
        assert(rest[i] == tasks[i]);
        lemma_sorted_keeps(rest, i);
        let m = choose|m: int| 0 <= m < before.len() && before[m] == tasks[i];
        if m < k {
            assert(after[m] == tasks[i]);
        } else {
            assert(after[m + 1] == tasks[i]);
        }
    } else {
        assert(after[k] == tasks[i]);
    }
}

proof fn lemma_video_position_bounds(tasks: Seq<RecentTask>, path: Seq<char>)
    ensures
        0 <= video_position(tasks, path) <= tasks.len(),
        video_position(tasks, path) < tasks.len() ==> tasks[video_position(
            tasks,
            path,
        )].video_path@ == path,
        forall|j: int|
            0 <= j < video_position(tasks, path) ==> (#[trigger] tasks[j]).video_path@ != path,
    decreases tasks.len(),
{
    if tasks.len() > 0 && tasks[0].video_path@ != path {
        let rest = tasks.drop_first();
        lemma_video_position_bounds(rest, path);
        assert forall|j: int| 0 <= j < video_position(tasks, path) implies (
        #[trigger] tasks[j]).video_path@ != path by {
            if j > 0 {
                assert(rest[j - 1] == tasks[j]);
            }
        }
    }
}

/// Whether the video of a task is in the list, with a task at least as late.
pub open spec fn is_covered(t: RecentTask, list: Seq<RecentTask>) -> bool {
    exists|j: int|
        0 <= j < list.len() && (#[trigger] list[j]).video_path@ == t.video_path@
            && list[j].modified_at >= t.modified_at
}

/// Whether the list has eight tasks that are all at least as late as the given
/// one.
pub open spec fn is_outranked(t: RecentTask, list: Seq<RecentTask>) -> bool {
    list.len() == 8 && forall|j: int|
        0 <= j < 8 ==> (#[trigger] list[j]).modified_at >= t.modified_at
}

proof fn lemma_newest_per_video(tasks: Seq<RecentTask>)
    ensures
        one_per_video(newest_per_video(tasks)),
        forall|i: int|
            0 <= i < newest_per_video(tasks).len() ==> tasks.contains(
                #[trigger] newest_per_video(tasks)[i],
            ),
        forall|i: int|
            0 <= i < tasks.len() ==> is_covered(#[trigger] tasks[i], newest_per_video(tasks)),
    decreases tasks.len(),
{
    if tasks.len() > 0 {
        let rest = tasks.drop_last();
        lemma_newest_per_video(rest);
        let before = newest_per_video(rest);
        let t = tasks.last();
        let k = video_position(before, t.video_path@);
        lemma_video_position_bounds(before, t.video_path@);
        let after = newest_per_video(tasks);
        assert(tasks[tasks.len() - 1] == t);
        assert forall|i: int| 0 <= i < after.len() implies tasks.contains(
            #[trigger] after[i],
        ) by {
            if i < before.len() && after[i] == before[i] {
                assert(rest.contains(before[i]));
                let m = choose|m: int| 0 <= m < rest.len() && rest[m] == before[i];
                assert(tasks[m] == after[i]);
            }
        }
        assert forall|i: int| 0 <= i < tasks.len() implies is_covered(
            #[trigger] tasks[i],
            after,
        ) by {
            if i < rest.len() {
                assert(rest[i] == tasks[i]);
                assert(is_covered(rest[i], before));
                let j = choose|j: int|
                    0 <= j < before.len() && (#[trigger] before[j]).video_path@
                        == rest[i].video_path@ && before[j].modified_at >= rest[i].modified_at;
                assert(after[j].video_path@ == tasks[i].video_path@);
            } else {
                assert(after[k].video_path@ == t.video_path@);
            }
        }
    }
}

proof fn lemma_front_keeps_order(tasks: Seq<RecentTask>, n: int)
    requires
        0 <= n <= tasks.len(),
        is_latest_first(tasks),
        one_per_video(tasks),
    ensures
        is_latest_first(tasks.take(n)),
        one_per_video(tasks.take(n)),
{
    let front = tasks.take(n);
    assert forall|i: int, j: int| 0 <= i < j < front.len() implies (
    #[trigger] front[i]).modified_at >= (#[trigger] front[j]).modified_at by {
        assert(tasks[i].modified_at >= tasks[j].modified_at);
    }
    assert forall|i: int, j: int| 0 <= i < j < front.len() implies (
    #[trigger] front[i]).video_path@ != (#[trigger] front[j]).video_path@ by {
        assert(tasks[i].video_path@ != tasks[j].video_path@);
    }
}

proof fn lemma_shown_covers(kept: Seq<RecentTask>, t: RecentTask, n: int)
    requires
        is_covered(t, kept),
        n == (if latest_first(kept).len() <= 8 {
            latest_first(kept).len() as int
        } else {
            8
        }),
    ensures
        is_covered(t, latest_first(kept).take(n)) || is_outranked(t, latest_first(kept).take(n)),
{
    let sorted = latest_first(kept);
    let shown = sorted.take(n);
    let m = choose|m: int|
        0 <= m < kept.len() && (#[trigger] kept[m]).video_path@ == t.video_path@
            && kept[m].modified_at >= t.modified_at;
    lemma_latest_first(kept);
    lemma_sorted_keeps(kept, m);
    let p = choose|p: int| 0 <= p < sorted.len() && sorted[p] == kept[m];
    if p < n {
        assert(shown[p] == kept[m]);
    } else {
        assert forall|j: int| 0 <= j < 8 implies (#[trigger] shown[j]).modified_at
            >= t.modified_at by {
            assert(sorted[j].modified_at >= sorted[p].modified_at);
        }
    }
}

/// The tasks that are shown are in order, the latest first; no video occurs
/// twice; there are eight at most; each is one of the given ones; and a task
/// that is not shown is of a video that is shown with a task at least as late,
/// or is no later than each of eight that are shown.
pub proof fn shown_tasks_are_the_latest(tasks: Seq<RecentTask>)
    ensures
        is_latest_first(shown_tasks(tasks)),
        one_per_video(shown_tasks(tasks)),
        shown_tasks(tasks).len() <= 8,
        forall|i: int|
            0 <= i < shown_tasks(tasks).len() ==> tasks.contains(#[trigger] shown_tasks(tasks)[i]),
        forall|i: int|
            0 <= i < tasks.len() ==> is_covered(#[trigger] tasks[i], shown_tasks(tasks))
                || is_outranked(tasks[i], shown_tasks(tasks)),
{
    let kept = newest_per_video(tasks);
    let sorted = latest_first(kept);
    let shown = shown_tasks(tasks);
    let n: int = if sorted.len() <= 8 {
        sorted.len() as int
    } else {
        8
    };
    assert(shown =~= sorted.take(n));
    lemma_newest_per_video(tasks);
    lemma_latest_first(kept);
    lemma_one_per_video_sorted(kept);
    lemma_front_keeps_order(sorted, n);
    assert forall|i: int| 0 <= i < shown.len() implies tasks.contains(#[trigger] shown[i]) by {
        assert(shown[i] == sorted[i]);
        assert(kept.contains(sorted[i]));
        let m = choose|m: int| 0 <= m < kept.len() && kept[m] == sorted[i];
        assert(tasks.contains(kept[m]));
    }
    assert forall|i: int| 0 <= i < tasks.len() implies is_covered(#[trigger] tasks[i], shown)
        || is_outranked(tasks[i], shown) by {
        lemma_shown_covers(kept, tasks[i], n);
    }
}

proof fn lemma_one_per_video_sorted(tasks: Seq<RecentTask>)
    requires
        one_per_video(tasks),
    ensures
        one_per_video(latest_first(tasks)),
        forall|i: int|
            0 <= i < latest_first(tasks).len() ==> tasks.contains(
                #[trigger] latest_first(tasks)[i],
            ),
    decreases tasks.len(),
{
    if tasks.len() > 0 {
        let rest = tasks.drop_last();
        let t = tasks.last();
        assert(tasks[tasks.len() - 1] == t);
        assert forall|i: int, j: int| 0 <= i < j < rest.len() implies (
        #[trigger] rest[i]).video_path@ != (#[trigger] rest[j]).video_path@ by {
            assert(tasks[i].video_path@ != tasks[j].video_path@);
        }
        lemma_one_per_video_sorted(rest);
        let before = latest_first(rest);
        lemma_newer_count_bounds(before, t.modified_at);
        let k = newer_count(before, t.modified_at) as int;
        let after = before.insert(k, t);
        assert forall|i: int| 0 <= i < before.len() implies (#[trigger] before[i]).video_path@
            != t.video_path@ by {
            assert(rest.contains(before[i]));
            let m = choose|m: int| 0 <= m < rest.len() && rest[m] == before[i];
            assert(tasks[m].video_path@ != tasks[tasks.len() - 1].video_path@);
        }
        assert forall|i: int| 0 <= i < after.len() implies tasks.contains(#[trigger] after[i]) by {
            if i != k {
                let b = if i < k {
                    i
                } else {
                    i - 1
                };
                assert(after[i] == before[b]);
                assert(rest.contains(before[b]));
                let m = choose|m: int| 0 <= m < rest.len() && rest[m] == before[b];
                assert(tasks[m] == after[i]);
            }
        }
        assert forall|i: int, j: int| 0 <= i < j < after.len() implies (
        #[trigger] after[i]).video_path@ != (#[trigger] after[j]).video_path@ by {
            let a = if i < k {
                i
            } else {
                i - 1
            };
            let b = if j < k {
                j
            } else {
                j - 1
            };
            if i != k && j != k {
                assert(before[a].video_path@ != before[b].video_path@);
            } else if i == k {
                assert(before[b].video_path@ != t.video_path@);
            } else {
                assert(before[a].video_path@ != t.video_path@);
            }
        }
    }
}

/// How subtitles are exported.
#[derive(Debug, Clone, Copy, PartialEq, Eq, Structural)]
pub enum ExportFormat {
    Srt,
    Vtt,
}

/// What is asked of the user where subtitles are saved.
#[derive(Debug)]
pub struct ExportDialog {
    pub format: ExportFormat,
    pub extension: String,
    pub title: String,
    pub file_name: String,
    pub filter_name: String,
}

/// Chooses how subtitles are exported.
pub fn export_subtitle(format: &str) -> (r: Result<ExportDialog, String>)
    ensures
        match r {
            Ok(d) => {
                &&& d.format == ExportFormat::Srt <==> format@ == "srt"@
                &&& d.format == ExportFormat::Vtt ==> format@ == "vtt"@
                &&& d.extension@ == format@
                &&& d.file_name@ == "output."@ + format@
                &&& d.title@ == (if d.format == ExportFormat::Srt {
                    "Save SRT subtitle"@
                } else {
                    "Save VTT subtitle"@
                })
                &&& d.filter_name@ == (if d.format == ExportFormat::Srt {
                    "SRT Subtitle"@
                } else {
                    "VTT Subtitle"@
                })
            },
            Err(e) => format@ != "srt"@ && format@ != "vtt"@ && e@ == "Unsupported format: "@
                + format@,
        },
{
    if text_eq(format, "srt") {
        Ok(
            ExportDialog {
                format: ExportFormat::Srt,
                extension: format.to_owned(),
                title: "Save SRT subtitle".to_owned(),
                file_name: cat("output.", format),
                filter_name: "SRT Subtitle".to_owned(),
            },
        )
    } else if text_eq(format, "vtt") {
        proof {
            reveal_strlit("srt");
            reveal_strlit("vtt");
            assert("srt"@[0] != "vtt"@[0]);
        }
        Ok(
            ExportDialog {
                format: ExportFormat::Vtt,
                extension: format.to_owned(),
                title: "Save VTT subtitle".to_owned(),
                file_name: cat("output.", format),
                filter_name: "VTT Subtitle".to_owned(),
            },
        )
    } else {
        Err(cat("Unsupported format: ", format))
    }
}

/// What is missing in the settings of speech recognition.
pub open spec fn asr_config_complaint(c: AppConfigView) -> Option<Seq<char>> {
    if c.asr.api_key.len() == 0 {
        Some("ASR API Key 未配置"@)
    } else if c.asr.workspace_id is None {
        Some("ASR Workspace ID 未配置（北京区域必填）"@)
    } else {
        match c.oss {
            None => Some("OSS 配置未设置（文件转写需要 OSS 托管音频）"@),
            Some(o) => if o.endpoint.len() == 0 || o.bucket.len() == 0 || o.access_key_id.len()
                == 0 || o.access_key_secret.len() == 0 {
                Some("OSS 配置不完整"@)
            } else {
                None
            },
        }
    }
}

/// Checks that the settings of speech recognition are complete.
pub fn test_asr_connection(config: &AppConfig) -> (r: Result<String, String>)
    ensures
        match r {
            Ok(s) => asr_config_complaint(config@) is None && s@
                == "ASR 配置验证通过（API Key、Workspace ID、OSS 配置已设置）"@,
            Err(e) => asr_config_complaint(config@) == Some(e@),
        },
        r is Ok <==> config.asr.api_key@.len() > 0 && config.asr.workspace_id is Some
            && config.oss is Some && config.oss->0.endpoint@.len() > 0
            && config.oss->0.bucket@.len() > 0 && config.oss->0.access_key_id@.len() > 0
            && config.oss->0.access_key_secret@.len() > 0,
        config.asr.api_key@.len() == 0 ==> r is Err && r->Err_0@ == "ASR API Key 未配置"@,
        config.asr.api_key@.len() > 0 && config.asr.workspace_id is None ==> r is Err && r->Err_0@
            == "ASR Workspace ID 未配置（北京区域必填）"@,
        config.asr.api_key@.len() > 0 && config.asr.workspace_id is Some && config.oss is None
            ==> r is Err && r->Err_0@ == "OSS 配置未设置（文件转写需要 OSS 托管音频）"@,
        r is Err && config.asr.api_key@.len() > 0 && config.asr.workspace_id is Some
            && config.oss is Some ==> r->Err_0@ == "OSS 配置不完整"@,
{
    if config.asr.api_key.as_str().is_empty() {
        return Err("ASR API Key 未配置".to_owned());
    }
    if config.asr.workspace_id.is_none() {
        return Err("ASR Workspace ID 未配置（北京区域必填）".to_owned());
    }
    match &config.oss {
        None => Err("OSS 配置未设置（文件转写需要 OSS 托管音频）".to_owned()),
        Some(o) => {
            if o.endpoint.as_str().is_empty() || o.bucket.as_str().is_empty()
                || o.access_key_id.as_str().is_empty() || o.access_key_secret.as_str().is_empty() {
                Err("OSS 配置不完整".to_owned())
            } else {
                Ok(
                    "ASR 配置验证通过（API Key、Workspace ID、OSS 配置已设置）".to_owned(),
                )
            }
        },
    }
}

/// What is told of a test of the connection to the translator.
pub fn test_translate_connection(outcome: &Result<(), Error>) -> (r: Result<String, String>)
    ensures
        match *outcome {
            Ok(()) => r is Ok && r->Ok_0@ == "翻译连接成功"@,
            Err(e) => r is Err && r->Err_0@ == "翻译连接失败: "@ + error_text(e),
        },
{
    match outcome {
        Ok(()) => Ok("翻译连接成功".to_owned()),
        Err(e) => {
            let cause = e.message();
            Err(cat("翻译连接失败: ", cause.as_str()))
        },
    }
}

/// The translator of the settings.
pub fn build_translate_provider(config: &AppConfig, timeout_secs: u64) -> (r:
    OpenAiCompatibleProvider)
    ensures
        r.base_url@ == provider_preset(config.translate.provider@).0,
        r.model == config.translate.model,
        r.api_key == config.translate.api_key,
        r.timeout_secs == timeout_secs,
{
    let (base_url, _) = translate_provider_preset(config.translate.provider.as_str());
    OpenAiCompatibleProvider {
        base_url: base_url.to_owned(),
        model: config.translate.model.clone(),
        api_key: config.translate.api_key.clone(),
        timeout_secs,
    }
}

/// The settings that the results of a file's task depend on.
pub fn file_fingerprint(config: &AppConfig, source_language: &str) -> (r: CheckpointFingerprint)
    ensures
        r@ == (FingerprintView {
            source_language: source_language@,
            target_lang: config.translate.target_lang@,
            translate_provider: config.translate.provider@,
            translate_model: config.translate.model@,
            asr_model: config.asr.file_model@,
        }),
        r.source_language@ == source_language@,
        r.target_lang == config.translate.target_lang,
        r.translate_provider == config.translate.provider,
        r.translate_model == config.translate.model,
        r.asr_model == config.asr.file_model,
{
    CheckpointFingerprint {
        source_language: source_language.to_owned(),
        target_lang: config.translate.target_lang.clone(),
        translate_provider: config.translate.provider.clone(),
        translate_model: config.translate.model.clone(),
        asr_model: config.asr.file_model.clone(),
    }
}

/// Whether the video that is to be stopped is the one that is processed.
pub fn is_running(running: &Option<String>, video_path: &str) -> (r: bool)
    ensures
        r == (opt_text(*running) == Some(video_path@)),
{
    match running {
        Some(p) => text_eq(p.as_str(), video_path),
        None => false,
    }
}

/// A task is offered to go on exactly where it was run with the settings of
/// today and has sentences, and counts as complete exactly where all of them
/// are besides.
pub proof fn only_matching_tasks_are_offered<T>(c: CheckpointView<T>, settings: AppConfigView)
    ensures
        offered_state(Some(c), settings) != TaskState::Fresh <==> same_settings(
            c.fingerprint@,
            settings,
        ) && c.segments.len() > 0,
        offered_state(Some(c), settings) == TaskState::Completed <==> same_settings(
            c.fingerprint@,
            settings,
        ) && all_completed(c.segments),
        offered_state(Some(c), settings) != TaskState::Fresh <==> c.segments.len() > 0
            && c.fingerprint.target_lang@ == settings.translate.target_lang
            && c.fingerprint.translate_provider@ == settings.translate.provider
            && c.fingerprint.translate_model@ == settings.translate.model
            && c.fingerprint.asr_model@ == settings.asr.file_model,
        offered_state(None::<CheckpointView<T>>, settings) == TaskState::Fresh,
{
}

/// A task is fresh without any sentence, complete where all of its sentences
/// are, and under way otherwise; and its share is that of its completed
/// sentences, whatever its state.
pub proof fn task_share_is_that_of_its_sentences<T>(c: CheckpointView<T>)
    requires
        c.segments.len() <= usize::MAX,
    ensures
        task_state_of(c) == TaskState::Fresh <==> c.segments.len() == 0,
        task_state_of(c) == TaskState::Completed <==> c.segments.len() > 0 && completed_in(
            c.segments,
        ) == c.segments.len(),
        task_percent_of(c).denom > 0,
        c.segments.len() == 0 ==> task_percent_of(c).numer == 0,
        task_percent_of(c).numer * c.segments.len() == completed_in(c.segments)
            * task_percent_of(c).denom,
{
    complete_means_all_counted(c.segments);
    let p = task_percent_of(c);
    let n = c.segments.len() as int;
    let done = completed_in(c.segments) as int;
    if task_state_of(c) == TaskState::Translating {
        assert(p.numer == done && p.denom == n);
    } else if n > 0 {
        assert(p.numer * n == done * p.denom) by (nonlinear_arith)
            requires
                p.numer == 1,
                p.denom == 1,
                n == done,
        ;
    } else {
        assert(p.numer * n == done * p.denom) by (nonlinear_arith)
            requires
                n == 0,
                done == 0,
        ;
    }
}

/// One more task of a video that is there replaces the one that is there
/// exactly where it was written later, in its place; one of another video
/// comes last.
pub proof fn later_task_replaces_earlier(tasks: Seq<RecentTask>, t: RecentTask, i: int)
    ensures
        newest_per_video(Seq::<RecentTask>::empty()).len() == 0,
        ({
            let before = newest_per_video(tasks);
            let after = newest_per_video(tasks.push(t));
            &&& 0 <= i < before.len() && before[i].video_path@ == t.video_path@ && t.modified_at
                > before[i].modified_at ==> after == before.update(i, t)
            &&& 0 <= i < before.len() && before[i].video_path@ == t.video_path@ && t.modified_at
                <= before[i].modified_at ==> after == before
            &&& (forall|j: int|
                0 <= j < before.len() ==> (#[trigger] before[j]).video_path@ != t.video_path@)
                ==> after == before.push(t)
        }),
{
    let before = newest_per_video(tasks);
    assert(tasks.push(t).drop_last() =~= tasks);
    lemma_newest_per_video(tasks);
    if 0 <= i < before.len() && before[i].video_path@ == t.video_path@ {
        assert forall|j: int| 0 <= j < i implies (#[trigger] before[j]).video_path@
            != t.video_path@ by {
            assert(before[j].video_path@ != before[i].video_path@);
        }
        lemma_video_position(before, t.video_path@, i);
    }
    if forall|j: int|
        0 <= j < before.len() ==> (#[trigger] before[j]).video_path@ != t.video_path@ {
        lemma_video_position(before, t.video_path@, before.len() as int);
    }
}

/// One more task takes its place behind those that were written at the same
/// time or later, and before those that were written earlier.
pub proof fn tasks_of_one_time_keep_their_order(tasks: Seq<RecentTask>, t: RecentTask, k: int)
    requires
        0 <= k <= latest_first(tasks).len(),
        forall|j: int|
            0 <= j < k ==> (#[trigger] latest_first(tasks)[j]).modified_at >= t.modified_at,
        k < latest_first(tasks).len() ==> latest_first(tasks)[k].modified_at < t.modified_at,
    ensures
        latest_first(Seq::<RecentTask>::empty()).len() == 0,
        latest_first(tasks.push(t)) == latest_first(tasks).insert(k, t),
{
    assert(tasks.push(t).drop_last() =~= tasks);
    lemma_newer_count(latest_first(tasks), t.modified_at, k);
}

} // verus!
