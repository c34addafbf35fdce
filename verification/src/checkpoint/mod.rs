//! Checkpoints: the event log that lets an interrupted task go on.
//!
//! The log is text, one record a line. The first line describes the task; each
//! further line is an event of one sentence. After recognition every sentence
//! is written as pending; each translated sentence adds a line with the same
//! id. On reading, the lines of one id are folded into one: the status is that
//! of the latest line, and a field that a later line holds replaces the
//! earlier one. A line that cannot be read, such as the torn end of a crashed
//! write, is skipped. Writing the whole log anew leaves one line per sentence.

use crate::text::{
    clone_opt_text, lemma_numeral_injective, lemma_split_extend, lemma_split_nonempty, lines,
    lines_spec, numeral, split_spec, strip_cr_spec, texts, trim, trim_spec, write_numeral,
};
use vstd::prelude::*;
use vstd::string::*;
use vstd::utf8::*;

verus! {

/// How far one sentence has come.
#[derive(Debug, Clone, Copy, PartialEq, Eq, Structural)]
pub enum SegmentStatus {
    Pending,
    Completed,
}

/// What is known of one sentence. `T` is a point in time.
#[derive(Debug)]
pub struct SegmentProgress<T> {
    pub segment_id: usize,
    pub start_time: Option<T>,
    pub end_time: Option<T>,
    pub status: SegmentStatus,
    pub source: Option<String>,
    pub translated: Option<String>,
    pub fallback: bool,
}

impl<T: Copy> Clone for SegmentProgress<T> {
    fn clone(&self) -> (r: Self)
        ensures
            r == *self,
    {
        SegmentProgress {
            segment_id: self.segment_id,
            start_time: self.start_time,
            end_time: self.end_time,
            status: self.status,
            source: clone_opt_text(&self.source),
            translated: clone_opt_text(&self.translated),
            fallback: self.fallback,
        }
    }
}

/// The settings that the results of a task depend on. A change of the source
/// language or of the recognition model voids the recognised sentences; a
/// change of another field voids the translations only.
#[derive(Debug)]
pub struct CheckpointFingerprint {
    pub source_language: String,
    pub target_lang: String,
    pub translate_provider: String,
    pub translate_model: String,
    pub asr_model: String,
}

/// The texts of [`CheckpointFingerprint`].
pub struct FingerprintView {
    pub source_language: Seq<char>,
    pub target_lang: Seq<char>,
    pub translate_provider: Seq<char>,
    pub translate_model: Seq<char>,
    pub asr_model: Seq<char>,
}

impl View for CheckpointFingerprint {
    type V = FingerprintView;

    open spec fn view(&self) -> FingerprintView {
        FingerprintView {
            source_language: self.source_language@,
            target_lang: self.target_lang@,
            translate_provider: self.translate_provider@,
            translate_model: self.translate_model@,
            asr_model: self.asr_model@,
        }
    }
}

impl Clone for CheckpointFingerprint {
    fn clone(&self) -> (r: Self)
        ensures
            r == *self,
    {
        CheckpointFingerprint {
            source_language: self.source_language.clone(),
            target_lang: self.target_lang.clone(),
            translate_provider: self.translate_provider.clone(),
            translate_model: self.translate_model.clone(),
            asr_model: self.asr_model.clone(),
        }
    }
}

/// The fingerprint of settings that are not known.
pub open spec fn unknown_settings() -> FingerprintView {
    FingerprintView {
        source_language: ""@,
        target_lang: ""@,
        translate_provider: ""@,
        translate_model: ""@,
        asr_model: ""@,
    }
}

impl Default for CheckpointFingerprint {
    fn default() -> (r: Self)
        ensures
            r@ == unknown_settings(),
            r.source_language@.len() == 0 && r.target_lang@.len() == 0,
            r.translate_provider@.len() == 0 && r.translate_model@.len() == 0,
            r.asr_model@.len() == 0,
    {
        proof {
            reveal_strlit("");
        }
        CheckpointFingerprint {
            source_language: "".to_owned(),
            target_lang: "".to_owned(),
            translate_provider: "".to_owned(),
            translate_model: "".to_owned(),
            asr_model: "".to_owned(),
        }
    }
}

/// The first record of a log: which task it is of.
#[derive(Debug)]
pub struct CheckpointMeta {
    pub task_id: String,
    pub video_path: String,
    pub fingerprint: CheckpointFingerprint,
}

/// The state of a task, its sentences in ascending order of their ids.
#[derive(Debug)]
pub struct Checkpoint<T> {
    pub task_id: String,
    pub video_path: String,
    pub fingerprint: CheckpointFingerprint,
    pub segments: Vec<SegmentProgress<T>>,
}

/// What a checkpoint holds.
#[verifier::ext_equal]
pub struct CheckpointView<T> {
    pub task_id: String,
    pub video_path: String,
    pub fingerprint: CheckpointFingerprint,
    pub segments: Seq<SegmentProgress<T>>,
}

impl<T> View for Checkpoint<T> {
    type V = CheckpointView<T>;

    open spec fn view(&self) -> CheckpointView<T> {
        CheckpointView {
            task_id: self.task_id,
            video_path: self.video_path,
            fingerprint: self.fingerprint,
            segments: self.segments@,
        }
    }
}

/// A share of a whole.
#[derive(Debug, Clone, Copy, PartialEq, Eq, Structural)]
pub struct Fraction {
    pub numer: usize,
    pub denom: usize,
}

/// `a` where it is there, `b` otherwise.
pub open spec fn either<A>(a: Option<A>, b: Option<A>) -> Option<A> {
    if a is Some {
        a
    } else {
        b
    }
}

/// One sentence after a further line of the log: the status and the fallback
/// mark are those of the line, another field only where the line holds it.
pub open spec fn folded<T>(existing: SegmentProgress<T>, next: SegmentProgress<T>) -> SegmentProgress<
    T,
> {
    SegmentProgress {
        segment_id: existing.segment_id,
        start_time: either(next.start_time, existing.start_time),
        end_time: either(next.end_time, existing.end_time),
        status: next.status,
        source: either(next.source, existing.source),
        translated: either(next.translated, existing.translated),
        fallback: next.fallback,
    }
}

/// Folds a further line of the log into the sentence that it is of.
pub fn fold_into<T>(existing: &mut SegmentProgress<T>, next: SegmentProgress<T>)
    ensures
        *final(existing) == folded(*old(existing), next),
        final(existing).segment_id == old(existing).segment_id,
        final(existing).status == next.status && final(existing).fallback == next.fallback,
        final(existing).source == (if next.source is Some {
            next.source
        } else {
            old(existing).source
        }),
        final(existing).translated == (if next.translated is Some {
            next.translated
        } else {
            old(existing).translated
        }),
        final(existing).start_time == (if next.start_time is Some {
            next.start_time
        } else {
            old(existing).start_time
        }),
        final(existing).end_time == (if next.end_time is Some {
            next.end_time
        } else {
            old(existing).end_time
        }),
{
    if next.start_time.is_some() {
        existing.start_time = next.start_time;
    }
    if next.end_time.is_some() {
        existing.end_time = next.end_time;
    }
    if next.source.is_some() {
        existing.source = next.source;
    }
    if next.translated.is_some() {
        existing.translated = next.translated;
    }
    existing.status = next.status;
    existing.fallback = next.fallback;
}

/// What a log says of one sentence: its lines folded in their order. A record
/// that could not be read counts for nothing.
pub open spec fn state_of<T>(records: Seq<Option<SegmentProgress<T>>>, id: usize) -> Option<
    SegmentProgress<T>,
>
    decreases records.len(),
{
    if records.len() == 0 {
        None
    } else {
        let before = state_of(records.drop_last(), id);
        match records.last() {
            Some(next) => if next.segment_id == id {
                match before {
                    Some(existing) => Some(folded(existing, next)),
                    None => Some(next),
                }
            } else {
                before
            },
            None => before,
        }
    }
}

/// The ids of the sentences ascend strictly.
pub open spec fn ascending<T>(segments: Seq<SegmentProgress<T>>) -> bool {
    forall|i: int, j: int|
        0 <= i < j < segments.len() ==> (#[trigger] segments[i]).segment_id < (
        #[trigger] segments[j]).segment_id
}

/// Whether a sentence with the given id is among them.
pub open spec fn has_segment<T>(segments: Seq<SegmentProgress<T>>, id: usize) -> bool {
    exists|i: int| 0 <= i < segments.len() && (#[trigger] segments[i]).segment_id == id
}

/// Whether `segments` is what a log folds to: in ascending order exactly the
/// sentences that the log speaks of, each in the state that it says.
pub open spec fn folds_to<T>(
    records: Seq<Option<SegmentProgress<T>>>,
    segments: Seq<SegmentProgress<T>>,
) -> bool {
    &&& ascending(segments)
    &&& forall|i: int|
        0 <= i < segments.len() ==> state_of(records, (#[trigger] segments[i]).segment_id) == Some(
            segments[i],
        )
    &&& forall|id: usize| #[trigger]
        state_of(records, id) is Some ==> has_segment(segments, id)
}

/// The position of the first sentence whose id is not below `id`.
fn position<T>(segments: &Vec<SegmentProgress<T>>, id: usize) -> (r: usize)
    requires
        ascending(segments@),
    ensures
        r <= segments.len(),
        forall|i: int| 0 <= i < r ==> (#[trigger] segments[i]).segment_id < id,
        forall|i: int| r <= i < segments.len() ==> (#[trigger] segments[i]).segment_id >= id,
{
    let mut low: usize = 0;
    let mut high: usize = segments.len();
    while low < high
        invariant
            low <= high <= segments.len(),
            ascending(segments@),
            forall|i: int| 0 <= i < low ==> (#[trigger] segments[i]).segment_id < id,
            forall|i: int| high <= i < segments.len() ==> (#[trigger] segments[i]).segment_id >= id,
        decreases high - low,
    {
        let mid: usize = low + (high - low) / 2;
        if segments[mid].segment_id < id {
            low = mid + 1;
        } else {
            high = mid;
        }
    }
    low
}

/// Folds one record into the sentences that the records before it fold to.
fn fold_record<T>(
    segments: &mut Vec<SegmentProgress<T>>,
    next: SegmentProgress<T>,
    before: Ghost<Seq<Option<SegmentProgress<T>>>>,
)
    requires
        folds_to(before@, old(segments)@),
    ensures
        folds_to(before@.push(Some(next)), final(segments)@),
{
    let ghost start = segments@;
    let ghost after = before@.push(Some(next));
    let at: usize = position(segments, next.segment_id);
    proof {
        assert(after.drop_last() =~= before@);
    }
    if at < segments.len() && segments[at].segment_id == next.segment_id {
        let ghost old_seg = start[at as int];
        fold_into(&mut segments[at], next);
        proof {
            assert(segments@ =~= start.update(at as int, folded(old_seg, next)));
            assert forall|i: int| 0 <= i < segments@.len() implies state_of(
                after,
                (#[trigger] segments@[i]).segment_id,
            ) == Some(segments@[i]) by {
                assert(state_of(before@, start[i].segment_id) == Some(start[i]));
            }
            assert forall|id: usize| #[trigger] state_of(after, id) is Some implies has_segment(
                segments@,
                id,
            ) by {
                if id == next.segment_id {
                    assert(segments@[at as int].segment_id == id);
                } else {
                    assert(state_of(before@, id) is Some);
                    assert(has_segment(start, id));
                    let i = choose|i: int|
                        0 <= i < start.len() && (#[trigger] start[i]).segment_id == id;
                    assert(segments@[i].segment_id == id);
                }
            }
        }
    } else {
        segments.insert(at, next);
        proof {
            assert(segments@ =~= start.insert(at as int, next));
            assert(!has_segment(start, next.segment_id));
            assert(state_of(before@, next.segment_id) is None);
            assert forall|i: int| 0 <= i < segments@.len() implies state_of(
                after,
                (#[trigger] segments@[i]).segment_id,
            ) == Some(segments@[i]) by {
                if i < at {
                    assert(segments@[i] == start[i]);
                } else if i > at {
                    assert(segments@[i] == start[i - 1]);
                }
            }
            assert forall|id: usize| #[trigger] state_of(after, id) is Some implies has_segment(
                segments@,
                id,
            ) by {
                if id == next.segment_id {
                    assert(segments@[at as int].segment_id == id);
                } else {
                    assert(state_of(before@, id) is Some);
                    assert(has_segment(start, id));
                    let i = choose|i: int|
                        0 <= i < start.len() && (#[trigger] start[i]).segment_id == id;
                    let k = if i < at {
                        i
                    } else {
                        i + 1
                    };
                    assert(segments@[k] == start[i]);
                }
            }
            assert forall|i: int, j: int| 0 <= i < j < segments@.len() implies (
            #[trigger] segments@[i]).segment_id < (#[trigger] segments@[j]).segment_id by {
                let a = if i < at {
                    start[i]
                } else if i == at {
                    next
                } else {
                    start[i - 1]
                };
                let b = if j < at {
                    start[j]
                } else if j == at {
                    next
                } else {
                    start[j - 1]
                };
                assert(segments@[i] == a && segments@[j] == b);
            }
        }
    }
}

/// Folds the records of a log.
pub fn fold_log<T>(records: Vec<Option<SegmentProgress<T>>>) -> (r: Vec<SegmentProgress<T>>)
    ensures
        folds_to(records@, r@),
{
    let ghost all = records@;
    let mut out: Vec<SegmentProgress<T>> = Vec::new();
    for record in it: records.into_iter()
        invariant
            it.seq() == all,
            folds_to(all.take(it.index()), out@),
    {
        let ghost before = all.take(it.index());
        proof {
            assert(all.take(it.index() + 1) =~= before.push(record));
            assert(before.push(record).drop_last() =~= before);
        }
        match record {
            Some(next) => fold_record(&mut out, next, Ghost(before)),
            None => {
                proof {
                    assert forall|id: usize| #[trigger]
                        state_of(before.push(None), id) == state_of(before, id) by {}
                }
            },
        }
    }
    proof {
        assert(all.take(all.len() as int) =~= all);
    }
    out
}

/// The records of a log that holds one for each sentence.
pub open spec fn as_records<T>(segments: Seq<SegmentProgress<T>>) -> Seq<
    Option<SegmentProgress<T>>,
> {
    segments.map_values(|s: SegmentProgress<T>| Some(s))
}

/// The lines that hold more than white space.
pub open spec fn filled(list: Seq<Seq<char>>) -> Seq<Seq<char>>
    decreases list.len(),
{
    if list.len() == 0 {
        list
    } else if trim_spec(list.last()).len() == 0 {
        filled(list.drop_last())
    } else {
        filled(list.drop_last()).push(list.last())
    }
}

/// The records of a log text.
pub open spec fn log_records(content: Seq<char>) -> Seq<Seq<char>> {
    filled(lines_spec(content))
}

/// A log taken apart: the record of the task and those of its sentences.
#[derive(Debug)]
pub struct LogText {
    pub meta: String,
    pub records: Vec<String>,
}

/// Takes a log apart. A log without any record is as good as none.
pub fn split_log(content: &str) -> (r: Option<LogText>)
    ensures
        match r {
            Some(log) => texts(log.records@).insert(0, log.meta@) == log_records(content@),
            None => log_records(content@).len() == 0,
        },
{
    let all = lines(content);
    let ghost views = texts(all@);
    let mut out: Vec<String> = Vec::new();
    let mut i: usize = 0;
    while i < all.len()
        invariant
            i <= all.len(),
            views == texts(all@),
            texts(out@) == filled(views.take(i as int)),
        decreases all.len() - i,
    {
        let t = trim(all[i].as_str());
        proof {
            assert(views.take(i + 1).drop_last() =~= views.take(i as int));
            assert(views.take(i + 1).last() == all@[i as int]@);
        }
        if !t.as_str().is_empty() {
            let ghost before = out@;
            out.push(all[i].clone());
            proof {
                assert(texts(out@) =~= texts(before).push(all@[i as int]@));
            }
        }
        i += 1;
    }
    proof {
        assert(views.take(views.len() as int) =~= views);
    }
    if out.len() == 0 {
        None
    } else {
        let ghost whole = out@;
        let meta = out.remove(0);
        proof {
            assert(texts(out@).insert(0, meta@) =~= texts(whole));
        }
        Some(LogText { meta, records: out })
    }
}

/// The given lines, each with its line feed.
pub open spec fn terminated(list: Seq<Seq<char>>) -> Seq<char>
    decreases list.len(),
{
    if list.len() == 0 {
        Seq::empty()
    } else {
        terminated(list.drop_last()) + list.last() + seq!['\n']
    }
}

/// Writes lines, each with its line feed.
fn write_lines(start: String, list: &Vec<String>) -> (r: String)
    ensures
        r@ == start@ + terminated(texts(list@)),
{
    let mut out = start;
    let ghost views = texts(list@);
    let mut i: usize = 0;
    proof {
        assert(start@ =~= start@ + terminated(views.take(0)));
    }
    while i < list.len()
        invariant
            i <= list.len(),
            views == texts(list@),
            out@ == start@ + terminated(views.take(i as int)),
        decreases list.len() - i,
    {
        out.append(list[i].as_str());
        out.push('\n');
        proof {
            assert(views.take(i + 1).drop_last() =~= views.take(i as int));
            assert(views.take(i + 1).last() == list@[i as int]@);
            assert(out@ =~= start@ + terminated(views.take(i + 1)));
        }
        i += 1;
    }
    proof {
        assert(views.take(views.len() as int) =~= views);
    }
    out
}

/// How many of the sentences are completed.
pub open spec fn completed_in<T>(segments: Seq<SegmentProgress<T>>) -> nat
    decreases segments.len(),
{
    if segments.len() == 0 {
        0
    } else {
        completed_in(segments.drop_last()) + (if segments.last().status
            == SegmentStatus::Completed {
            1nat
        } else {
            0
        })
    }
}

/// Whether there are sentences and all of them are completed.
pub open spec fn all_completed<T>(segments: Seq<SegmentProgress<T>>) -> bool {
    &&& segments.len() > 0
    &&& forall|i: int|
        0 <= i < segments.len() ==> (#[trigger] segments[i]).status == SegmentStatus::Completed
}

impl<T> Checkpoint<T> {
    /// A checkpoint of a task of which nothing is known yet.
    pub fn new(task_id: String, video_path: String, fingerprint: CheckpointFingerprint) -> (r: Self)
        ensures
            r.task_id == task_id,
            r.video_path == video_path,
            r.fingerprint == fingerprint,
            r.segments@.len() == 0,
    {
        Checkpoint { task_id, video_path, fingerprint, segments: Vec::new() }
    }

    /// The checkpoint that the records of a log make. Without a readable
    /// record of the task there is none; the log is then put aside.
    pub fn load(meta: Option<CheckpointMeta>, records: Vec<Option<SegmentProgress<T>>>) -> (r: Option<
        Self,
    >)
        ensures
            match r {
                Some(c) => {
                    &&& meta is Some
                    &&& c.task_id == meta->0.task_id
                    &&& c.video_path == meta->0.video_path
                    &&& c.fingerprint == meta->0.fingerprint
                    &&& folds_to(records@, c.segments@)
                },
                None => meta is None,
            },
    {
        match meta {
            Some(m) => Some(
                Checkpoint {
                    task_id: m.task_id,
                    video_path: m.video_path,
                    fingerprint: m.fingerprint,
                    segments: fold_log(records),
                },
            ),
            None => None,
        }
    }

    /// The record of the task.
    pub fn meta(&self) -> (r: CheckpointMeta)
        ensures
            r.task_id == self.task_id,
            r.video_path == self.video_path,
            r.fingerprint == self.fingerprint,
    {
        CheckpointMeta {
            task_id: self.task_id.clone(),
            video_path: self.video_path.clone(),
            fingerprint: self.fingerprint.clone(),
        }
    }

    /// The log that replaces the old one, given the line of the task and one
    /// line for each sentence.
    pub fn save(&self, meta_line: &str, segment_lines: &Vec<String>) -> (r: String)
        requires
            segment_lines@.len() == self.segments@.len(),
        ensures
            r@ == terminated(texts(segment_lines@).insert(0, meta_line@)),
    {
        let mut start = meta_line.to_owned();
        start.push('\n');
        let r = write_lines(start, segment_lines);
        proof {
            let views = texts(segment_lines@);
            assert(start@ =~= meta_line@ + seq!['\n']);
            lemma_terminated_insert(meta_line@, views);
        }
        r
    }

    /// The text that is added to a log for further records.
    pub fn append_updates(update_lines: &Vec<String>) -> (r: String)
        ensures
            r@ == terminated(texts(update_lines@)),
    {
        let r = write_lines(String::new(), update_lines);
        proof {
            assert(r@ =~= terminated(texts(update_lines@)));
        }
        r
    }

    /// Folds a further record into the checkpoint, as reading the log with
    /// that record at its end would.
    pub fn apply(&mut self, next: SegmentProgress<T>)
        requires
            ascending(old(self).segments@),
        ensures
            final(self)@ == (CheckpointView { segments: final(self).segments@, ..old(self)@ }),
            folds_to(as_records(old(self).segments@).push(Some(next)), final(self).segments@),
    {
        proof {
            saved_segments_fold_back(self.segments@);
        }
        fold_record(&mut self.segments, next, Ghost(as_records(old(self).segments@)));
    }

    /// How many sentences are completed.
    pub fn completed_count(&self) -> (r: usize)
        ensures
            r == completed_in(self.segments@),
            r <= self.segments@.len(),
    {
        let mut n: usize = 0;
        let mut i: usize = 0;
        while i < self.segments.len()
            invariant
                n <= i <= self.segments.len(),
                n == completed_in(self.segments@.take(i as int)),
            decreases self.segments.len() - i,
        {
            proof {
                assert(self.segments@.take(i + 1).drop_last() =~= self.segments@.take(i as int));
            }
            if self.segments[i].status == SegmentStatus::Completed {
                n += 1;
            }
            i += 1;
        }
        proof {
            assert(self.segments@.take(self.segments@.len() as int) =~= self.segments@);
        }
        n
    }

    /// Whether there are sentences and all of them are completed.
    pub fn is_all_completed(&self) -> (r: bool)
        ensures
            r == all_completed(self.segments@),
    {
        if self.segments.len() == 0 {
            return false;
        }
        let mut i: usize = 0;
        while i < self.segments.len()
            invariant
                i <= self.segments.len(),
                forall|j: int|
                    0 <= j < i ==> (#[trigger] self.segments[j]).status == SegmentStatus::Completed,
            decreases self.segments.len() - i,
        {
            if self.segments[i].status != SegmentStatus::Completed {
                return false;
            }
            i += 1;
        }
        true
    }

    /// The share of the sentences that are completed; nothing of nothing is
    /// nothing.
    pub fn percent(&self) -> (r: Fraction)
        ensures
            r.denom > 0,
            r.numer <= r.denom,
            if self.segments@.len() == 0 {
                r == (Fraction { numer: 0, denom: 1 })
            } else {
                r.numer == completed_in(self.segments@) && r.denom == self.segments@.len()
            },
    {
        if self.segments.len() == 0 {
            Fraction { numer: 0, denom: 1 }
        } else {
            Fraction { numer: self.completed_count(), denom: self.segments.len() }
        }
    }
}

proof fn lemma_terminated_insert(first: Seq<char>, rest: Seq<Seq<char>>)
    ensures
        terminated(rest.insert(0, first)) == first + seq!['\n'] + terminated(rest),
    decreases rest.len(),
{
    let all = rest.insert(0, first);
    if rest.len() == 0 {
        assert(all.drop_last() =~= rest);
        assert(terminated(all) =~= first + seq!['\n'] + terminated(rest));
    } else {
        lemma_terminated_insert(first, rest.drop_last());
        assert(all.drop_last() =~= rest.drop_last().insert(0, first));
        assert(all.last() == rest.last());
        assert(terminated(all) =~= first + seq!['\n'] + terminated(rest));
    }
}

/// Whether a text can stand as one record of a log: it is one line, and not
/// blank. Every JSON object written on one line is such a text.
pub open spec fn is_record(line: Seq<char>) -> bool {
    &&& !line.contains('\n')
    &&& line.len() > 0
    &&& line.last() != '\r'
    &&& trim_spec(line).len() > 0
}

/// Whether a log is empty or its last line is closed by a line feed.
pub open spec fn is_closed(content: Seq<char>) -> bool {
    content.len() == 0 || content.last() == '\n'
}

proof fn lemma_closed_split(s: Seq<char>)
    requires
        is_closed(s),
    ensures
        split_spec(s, '\n').len() > 0,
        split_spec(s, '\n').last().len() == 0,
{
    lemma_split_nonempty(s, '\n');
}

proof fn lemma_lines_push(s: Seq<char>, line: Seq<char>)
    requires
        is_closed(s),
        !line.contains('\n'),
        line.len() > 0 ==> line.last() != '\r',
    ensures
        lines_spec(s + line + seq!['\n']) == lines_spec(s).push(line),
{
    lemma_closed_split(s);
    lemma_split_extend(s, line, '\n');
    let base = split_spec(s, '\n');
    let whole = s + line + seq!['\n'];
    assert(whole.drop_last() =~= s + line);
    assert(base.last() + line =~= line);
    assert(split_spec(whole, '\n') =~= base.drop_last().push(line).push(Seq::empty()));
    assert(split_spec(whole, '\n').drop_last() =~= base.drop_last().push(line));
    assert(lines_spec(whole) =~= lines_spec(s).push(strip_cr_spec(line)));
}

proof fn lemma_records_append(content: Seq<char>, list: Seq<Seq<char>>)
    requires
        is_closed(content),
        forall|i: int| 0 <= i < list.len() ==> is_record(#[trigger] list[i]),
    ensures
        is_closed(content + terminated(list)),
        log_records(content + terminated(list)) == log_records(content) + list,
    decreases list.len(),
{
    if list.len() == 0 {
        assert(content + terminated(list) =~= content);
        assert(log_records(content) + list =~= log_records(content));
    } else {
        let shorter = list.drop_last();
        assert forall|i: int| 0 <= i < shorter.len() implies is_record(#[trigger] shorter[i]) by {
            assert(shorter[i] == list[i]);
        }
        lemma_records_append(content, shorter);
        let before = content + terminated(shorter);
        assert(content + terminated(list) =~= before + list.last() + seq!['\n']);
        assert(is_record(list[list.len() - 1]));
        lemma_lines_push(before, list.last());
        assert(lines_spec(before).push(list.last()).drop_last() =~= lines_spec(before));
        assert(log_records(content + terminated(list)) =~= log_records(before).push(list.last()));
        assert((log_records(content) + shorter).push(list.last()) =~= log_records(content) + list);
    }
}

/// A log that was written whole is taken apart into the lines that it was
/// written from.
pub proof fn saved_log_splits_back(meta_line: Seq<char>, segment_lines: Seq<Seq<char>>)
    requires
        is_record(meta_line),
        forall|i: int| 0 <= i < segment_lines.len() ==> is_record(#[trigger] segment_lines[i]),
    ensures
        log_records(terminated(segment_lines.insert(0, meta_line))) == segment_lines.insert(
            0,
            meta_line,
        ),
{
    let all = segment_lines.insert(0, meta_line);
    assert forall|i: int| 0 <= i < all.len() implies is_record(#[trigger] all[i]) by {
        if i > 0 {
            assert(all[i] == segment_lines[i - 1]);
        }
    }
    let nothing = Seq::<char>::empty();
    lemma_records_append(nothing, all);
    assert(nothing + terminated(all) =~= terminated(all));
    assert(lines_spec(nothing) =~= Seq::<Seq<char>>::empty());
    assert(log_records(nothing) + all =~= all);
}

/// What is added to a closed log follows the records that it had, and the log
/// stays closed.
pub proof fn appended_records_follow(content: Seq<char>, update_lines: Seq<Seq<char>>)
    requires
        is_closed(content),
        forall|i: int| 0 <= i < update_lines.len() ==> is_record(#[trigger] update_lines[i]),
    ensures
        is_closed(content + terminated(update_lines)),
        log_records(content + terminated(update_lines)) == log_records(content) + update_lines,
{
    lemma_records_append(content, update_lines);
}

proof fn lemma_state_of_whole<T>(segments: Seq<SegmentProgress<T>>, n: int, id: usize)
    requires
        ascending(segments),
        0 <= n <= segments.len(),
    ensures
        ({
            let records = as_records(segments).take(n);
            match state_of(records, id) {
                Some(s) => exists|i: int|
                    0 <= i < n && (#[trigger] segments[i]).segment_id == id && s == segments[i],
                None => forall|i: int| 0 <= i < n ==> (#[trigger] segments[i]).segment_id != id,
            }
        }),
    decreases n,
{
    let all = as_records(segments);
    if n > 0 {
        lemma_state_of_whole(segments, n - 1, id);
        assert(all.take(n).drop_last() =~= all.take(n - 1));
        assert(all.take(n).last() == Some(segments[n - 1]));
    }
}

/// Records that are the sentences of a checkpoint, one each, fold to those
/// sentences: a log that was written whole reads back as it was.
pub proof fn saved_segments_fold_back<T>(segments: Seq<SegmentProgress<T>>)
    requires
        ascending(segments),
    ensures
        folds_to(as_records(segments), segments),
{
    let all = as_records(segments);
    assert(all.take(all.len() as int) =~= all);
    assert forall|i: int| 0 <= i < segments.len() implies state_of(
        all,
        (#[trigger] segments[i]).segment_id,
    ) == Some(segments[i]) by {
        lemma_state_of_whole(segments, segments.len() as int, segments[i].segment_id);
    }
    assert forall|id: usize| #[trigger] state_of(all, id) is Some implies has_segment(
        segments,
        id,
    ) by {
        lemma_state_of_whole(segments, segments.len() as int, id);
    }
}

/// A log folds to one list of sentences only.
pub proof fn fold_is_unique<T>(
    records: Seq<Option<SegmentProgress<T>>>,
    a: Seq<SegmentProgress<T>>,
    b: Seq<SegmentProgress<T>>,
)
    requires
        folds_to(records, a),
        folds_to(records, b),
    ensures
        a == b,
{
    lemma_same_ids(records, a, b, 0);
    lemma_same_ids(records, b, a, 0);
    assert(a =~= b);
}

/// Two folds of one log agree from position `n` on, as far as the first goes.
proof fn lemma_same_ids<T>(
    records: Seq<Option<SegmentProgress<T>>>,
    a: Seq<SegmentProgress<T>>,
    b: Seq<SegmentProgress<T>>,
    n: int,
)
    requires
        folds_to(records, a),
        folds_to(records, b),
        0 <= n <= a.len(),
        n <= b.len(),
        forall|i: int| 0 <= i < n ==> a[i] == b[i],
    ensures
        a.len() <= b.len(),
        forall|i: int| n <= i < a.len() ==> a[i] == b[i],
    decreases a.len() - n,
{
    if n < a.len() {
        let id = a[n].segment_id;
        assert(state_of(records, id) is Some);
        assert(has_segment(b, id));
        let k = choose|k: int| 0 <= k < b.len() && (#[trigger] b[k]).segment_id == id;
        assert(k >= n) by {
            if k < n {
                assert(a[k] == b[k]);
                assert(a[k].segment_id < a[n].segment_id);
            }
        }
        if k > n {
            let other = b[n].segment_id;
            assert(other < id);
            assert(state_of(records, other) is Some);
            assert(has_segment(a, other));
            let m = choose|m: int| 0 <= m < a.len() && (#[trigger] a[m]).segment_id == other;
            if m < n {
                assert(a[m] == b[m]);
                assert(b[m].segment_id < b[n].segment_id);
            } else if m > n {
                assert(a[n].segment_id < a[m].segment_id);
            }
        }
        assert(state_of(records, id) == Some(a[n]));
        assert(state_of(records, id) == Some(b[n]));
        lemma_same_ids(records, a, b, n + 1);
    }
}

/// A checkpoint that was saved loads as it was: the log is taken apart into the
/// lines that it was written from, and where these read as the sentences that
/// they were written for, the sentences are those of the checkpoint.
pub proof fn saved_checkpoint_loads_back<T>(
    segments: Seq<SegmentProgress<T>>,
    meta_line: Seq<char>,
    segment_lines: Seq<Seq<char>>,
    loaded: Seq<SegmentProgress<T>>,
)
    requires
        ascending(segments),
        is_record(meta_line),
        segment_lines.len() == segments.len(),
        forall|i: int| 0 <= i < segment_lines.len() ==> is_record(#[trigger] segment_lines[i]),
        folds_to(as_records(segments), loaded),
    ensures
        log_records(terminated(segment_lines.insert(0, meta_line))) == segment_lines.insert(
            0,
            meta_line,
        ),
        loaded == segments,
{
    saved_log_splits_back(meta_line, segment_lines);
    saved_segments_fold_back(segments);
    fold_is_unique(as_records(segments), loaded, segments);
}

/// After a further record of a sentence the sentence has the status of that
/// record, and keeps what the record does not hold.
pub proof fn latest_record_decides<T>(
    records: Seq<Option<SegmentProgress<T>>>,
    next: SegmentProgress<T>,
)
    ensures
        ({
            let after = state_of(records.push(Some(next)), next.segment_id);
            let before = state_of(records, next.segment_id);
            &&& after is Some
            &&& after->0.segment_id == next.segment_id
            &&& after->0.status == next.status && after->0.fallback == next.fallback
            &&& before is None ==> after->0 == next
            &&& next.source is Some ==> after->0.source == next.source
            &&& next.start_time is Some ==> after->0.start_time == next.start_time
            &&& next.end_time is Some ==> after->0.end_time == next.end_time
            &&& next.translated is Some ==> after->0.translated == next.translated
            &&& before is Some && next.source is None ==> after->0.source == before->0.source
            &&& before is Some && next.start_time is None ==> after->0.start_time
                == before->0.start_time
            &&& before is Some && next.end_time is None ==> after->0.end_time
                == before->0.end_time
            &&& before is Some && next.translated is None ==> after->0.translated
                == before->0.translated
        }),
{
    assert(records.push(Some(next)).drop_last() =~= records);
    lemma_state_has_id(records, next.segment_id);
}

proof fn lemma_state_has_id<T>(records: Seq<Option<SegmentProgress<T>>>, id: usize)
    ensures
        state_of(records, id) is Some ==> state_of(records, id)->0.segment_id == id,
    decreases records.len(),
{
    if records.len() > 0 {
        lemma_state_has_id(records.drop_last(), id);
    }
}

/// A record changes the sentence that it is of, and no other: every other
/// sentence of a checkpoint is there after it as before it, and the sentence
/// itself has what the record holds.
pub proof fn applied_record_changes_one_sentence<T>(
    before: Seq<SegmentProgress<T>>,
    next: SegmentProgress<T>,
    after: Seq<SegmentProgress<T>>,
)
    requires
        ascending(before),
        folds_to(as_records(before).push(Some(next)), after),
    ensures
        forall|i: int|
            0 <= i < before.len() && (#[trigger] before[i]).segment_id != next.segment_id
                ==> after.contains(before[i]),
        forall|i: int|
            0 <= i < after.len() && (#[trigger] after[i]).segment_id != next.segment_id
                ==> before.contains(after[i]),
        has_segment(after, next.segment_id),
        forall|i: int|
            0 <= i < after.len() && (#[trigger] after[i]).segment_id == next.segment_id ==> {
                &&& after[i].status == next.status && after[i].fallback == next.fallback
                &&& next.source is Some ==> after[i].source == next.source
                &&& next.translated is Some ==> after[i].translated == next.translated
                &&& next.start_time is Some ==> after[i].start_time == next.start_time
                &&& next.end_time is Some ==> after[i].end_time == next.end_time
            },
{
    let records = as_records(before);
    let longer = records.push(Some(next));
    saved_segments_fold_back(before);
    assert(longer.drop_last() =~= records);
    latest_record_decides(records, next);
    assert(state_of(longer, next.segment_id) is Some);
    assert forall|i: int|
        0 <= i < before.len() && (#[trigger] before[i]).segment_id
            != next.segment_id implies after.contains(before[i]) by {
        let id = before[i].segment_id;
        assert(state_of(records, id) == Some(before[i]));
        assert(state_of(longer, id) == Some(before[i]));
        let j = choose|j: int| 0 <= j < after.len() && (#[trigger] after[j]).segment_id == id;
        assert(state_of(longer, after[j].segment_id) == Some(after[j]));
    }
    assert forall|i: int|
        0 <= i < after.len() && (#[trigger] after[i]).segment_id
            != next.segment_id implies before.contains(after[i]) by {
        let id = after[i].segment_id;
        assert(state_of(longer, id) == Some(after[i]));
        assert(state_of(records, id) == Some(after[i]));
        let j = choose|j: int| 0 <= j < before.len() && (#[trigger] before[j]).segment_id == id;
        assert(state_of(records, before[j].segment_id) == Some(before[j]));
    }
    assert forall|i: int|
        0 <= i < after.len() && (#[trigger] after[i]).segment_id == next.segment_id implies {
        &&& after[i].status == next.status && after[i].fallback == next.fallback
        &&& next.source is Some ==> after[i].source == next.source
        &&& next.translated is Some ==> after[i].translated == next.translated
        &&& next.start_time is Some ==> after[i].start_time == next.start_time
        &&& next.end_time is Some ==> after[i].end_time == next.end_time
    } by {
        assert(state_of(longer, after[i].segment_id) == Some(after[i]));
    }
}

/// A log is written line by line, each line ended by one line feed, and read
/// back line by line, less the blank ones.
pub proof fn log_is_made_of_lines(list: Seq<Seq<char>>, line: Seq<char>)
    ensures
        terminated(Seq::<Seq<char>>::empty()).len() == 0,
        terminated(list.push(line)) == terminated(list) + line + seq!['\n'],
        filled(Seq::<Seq<char>>::empty()).len() == 0,
        trim_spec(line).len() == 0 ==> filled(list.push(line)) == filled(list),
        trim_spec(line).len() > 0 ==> filled(list.push(line)) == filled(list).push(line),
{
    assert(list.push(line).drop_last() =~= list);
}

/// The count of completed sentences grows by one with each completed one.
pub proof fn completed_sentences_are_counted<T>(
    segments: Seq<SegmentProgress<T>>,
    next: SegmentProgress<T>,
)
    ensures
        completed_in(Seq::<SegmentProgress<T>>::empty()) == 0,
        next.status is Completed ==> completed_in(segments.push(next)) == completed_in(segments)
            + 1,
        next.status is Pending ==> completed_in(segments.push(next)) == completed_in(segments),
{
    assert(segments.push(next).drop_last() =~= segments);
}

/// A record of one sentence leaves every other sentence as it was, and a
/// record that cannot be read leaves all of them.
pub proof fn other_records_stay<T>(
    records: Seq<Option<SegmentProgress<T>>>,
    next: Option<SegmentProgress<T>>,
    id: usize,
)
    requires
        next is Some ==> next->0.segment_id != id,
    ensures
        state_of(records.push(next), id) == state_of(records, id),
{
    assert(records.push(next).drop_last() =~= records);
}

/// A log and the checkpoint that it folds to stay in step: where a record is
/// folded into the checkpoint and appended to the log, the log folds to the
/// checkpoint again.
pub proof fn applied_record_keeps_log_in_step<T>(
    records: Seq<Option<SegmentProgress<T>>>,
    before: Seq<SegmentProgress<T>>,
    next: SegmentProgress<T>,
    after: Seq<SegmentProgress<T>>,
)
    requires
        folds_to(records, before),
        folds_to(as_records(before).push(Some(next)), after),
    ensures
        folds_to(records.push(Some(next)), after),
{
    let whole = as_records(before);
    saved_segments_fold_back(before);
    assert(whole.push(Some(next)).drop_last() =~= whole);
    assert(records.push(Some(next)).drop_last() =~= records);
    assert forall|id: usize| #[trigger] state_of(records.push(Some(next)), id) == state_of(
        whole.push(Some(next)),
        id,
    ) by {
        assert(state_of(records, id) == state_of(whole, id)) by {
            if state_of(records, id) is Some {
                assert(has_segment(before, id));
            }
            if state_of(whole, id) is Some {
                assert(has_segment(before, id));
            }
            if has_segment(before, id) {
                let i = choose|i: int|
                    0 <= i < before.len() && (#[trigger] before[i]).segment_id == id;
                assert(state_of(records, before[i].segment_id) == Some(before[i]));
                assert(state_of(whole, before[i].segment_id) == Some(before[i]));
            }
        }
    }
    assert forall|i: int| 0 <= i < after.len() implies state_of(
        records.push(Some(next)),
        (#[trigger] after[i]).segment_id,
    ) == Some(after[i]) by {
        assert(state_of(whole.push(Some(next)), after[i].segment_id) == Some(after[i]));
    }
    assert forall|id: usize| #[trigger] state_of(
        records.push(Some(next)),
        id,
    ) is Some implies has_segment(after, id) by {
        assert(state_of(whole.push(Some(next)), id) is Some);
    }
}

/// A task is complete exactly where there are sentences and the count of the
/// completed ones is the count of all.
pub proof fn complete_means_all_counted<T>(segments: Seq<SegmentProgress<T>>)
    ensures
        completed_in(segments) <= segments.len(),
        all_completed(segments) <==> segments.len() > 0 && completed_in(segments)
            == segments.len(),
    decreases segments.len(),
{
    if segments.len() > 0 {
        let shorter = segments.drop_last();
        complete_means_all_counted(shorter);
        assert(segments.last() == segments[segments.len() - 1]);
        assert(forall|i: int| 0 <= i < shorter.len() ==> shorter[i] == segments[i]);
        if all_completed(segments) {
            if shorter.len() > 0 {
                assert(all_completed(shorter)) by {
                    assert forall|i: int| 0 <= i < shorter.len() implies (
                    #[trigger] shorter[i]).status == SegmentStatus::Completed by {
                        assert(segments[i] == shorter[i]);
                    }
                }
            }
        }
        if completed_in(segments) == segments.len() {
            assert forall|i: int| 0 <= i < segments.len() implies (#[trigger] segments[i]).status
                == SegmentStatus::Completed by {
                if i < shorter.len() {
                    assert(shorter[i] == segments[i]);
                }
            }
        }
    }
}

/// The bytes of a number, least significant first.
pub open spec fn le_bytes(n: nat, count: nat) -> Seq<u8>
    decreases count,
{
    if count == 0 {
        Seq::empty()
    } else {
        seq![(n % 256) as u8] + le_bytes(n / 256, (count - 1) as nat)
    }
}

/// One step of the FNV-1a hash.
pub open spec fn fnv_step(hash: u64, byte: u8) -> u64 {
    (((hash ^ (byte as u64)) * 0x100000001b3) % 0x1_0000_0000_0000_0000) as u64
}

/// The FNV-1a hash of some bytes, from a given state on.
pub open spec fn fnv(hash: u64, bytes: Seq<u8>) -> u64
    decreases bytes.len(),
{
    if bytes.len() == 0 {
        hash
    } else {
        fnv_step(fnv(hash, bytes.drop_last()), bytes.last())
    }
}

fn fnv_feed(hash: u64, bytes: &[u8]) -> (r: u64)
    ensures
        r == fnv(hash, bytes@),
{
    let mut h: u64 = hash;
    let mut i: usize = 0;
    while i < bytes.len()
        invariant
            i <= bytes.len(),
            h == fnv(hash, bytes@.take(i as int)),
        decreases bytes.len() - i,
    {
        proof {
            assert(bytes@.take(i + 1).drop_last() =~= bytes@.take(i as int));
        }
        h = (h ^ (bytes[i] as u64)).wrapping_mul(0x100000001b3);
        i += 1;
    }
    proof {
        assert(bytes@.take(bytes@.len() as int) =~= bytes@);
    }
    h
}

fn push_le(out: &mut Vec<u8>, n: u128, count: usize)
    ensures
        final(out)@ == old(out)@ + le_bytes(n as nat, count as nat),
{
    let ghost start = out@;
    let mut rest: u128 = n;
    let mut left: usize = count;
    proof {
        assert(start + le_bytes(n as nat, count as nat) =~= out@ + le_bytes(
            rest as nat,
            left as nat,
        ));
    }
    while left > 0
        invariant
            start + le_bytes(n as nat, count as nat) == out@ + le_bytes(rest as nat, left as nat),
        decreases left,
    {
        let ghost before = out@;
        out.push((rest % 256) as u8);
        proof {
            assert(before + le_bytes(rest as nat, left as nat) =~= out@ + le_bytes(
                (rest / 256) as nat,
                (left - 1) as nat,
            ));
        }
        rest = rest / 256;
        left -= 1;
    }
    proof {
        assert(out@ + le_bytes(rest as nat, 0) =~= out@);
    }
}

/// The bytes that a task is told apart by: the path, the size and the time of
/// the last change of its file.
pub open spec fn task_bytes(video_path: Seq<char>, size: u64, modified_nanos: u128) -> Seq<u8> {
    encode_utf8(video_path) + le_bytes(size as nat, 8) + le_bytes(modified_nanos as nat, 16)
}

proof fn lemma_fnv_concat(hash: u64, a: Seq<u8>, b: Seq<u8>)
    ensures
        fnv(fnv(hash, a), b) == fnv(hash, a + b),
    decreases b.len(),
{
    if b.len() == 0 {
        assert(a + b =~= a);
    } else {
        lemma_fnv_concat(hash, a, b.drop_last());
        assert((a + b).drop_last() =~= a + b.drop_last());
    }
}

/// The id of a task: a hash of what its file is told apart by, as a
/// hexadecimal numeral.
pub open spec fn task_id_text(video_path: Seq<char>, size: u64, modified_nanos: u128) -> Seq<
    char,
> {
    numeral(fnv(0xcbf29ce484222325, task_bytes(video_path, size, modified_nanos)) as nat, 16)
}

/// The id of a task: the FNV-1a hash of what its file is told apart by, as a
/// hexadecimal numeral. The same file gives the same id.
pub fn compute_task_id(video_path: &str, size: u64, modified_nanos: u128) -> (r: String)
    ensures
        r@ == task_id_text(video_path@, size, modified_nanos),
        r@ == numeral(
            fnv(
                0xcbf29ce484222325,
                encode_utf8(video_path@) + le_bytes(size as nat, 8) + le_bytes(
                    modified_nanos as nat,
                    16,
                ),
            ) as nat,
            16,
        ),
{
    let mut tail: Vec<u8> = Vec::new();
    push_le(&mut tail, size as u128, 8);
    push_le(&mut tail, modified_nanos, 16);
    let h: u64 = fnv_feed(0xcbf29ce484222325, video_path.as_bytes());
    let h: u64 = fnv_feed(h, tail.as_slice());
    proof {
        lemma_fnv_concat(0xcbf29ce484222325, encode_utf8(video_path@), tail@);
        assert(encode_utf8(video_path@) + tail@ =~= task_bytes(video_path@, size, modified_nanos));
    }
    write_numeral(h, 16)
}

/// Multiplying by the prime of FNV-1a loses nothing: it has an inverse.
proof fn lemma_fnv_prime(x: u64, y: u64)
    requires
        x != y,
    ensures
        (x * 0x100000001b3) % 0x1_0000_0000_0000_0000 != (y * 0x100000001b3)
            % 0x1_0000_0000_0000_0000,
{
    let m: int = 0x1_0000_0000_0000_0000;
    let p: int = 0x100000001b3;
    let q: int = 0xce965057aff6957b;
    let t: int = 887285111055;
    let d: int = x - y;
    if (x * p) % m == (y * p) % m {
        let k: int = (x * p) / m - (y * p) / m;
        assert(d * p == k * m) by (nonlinear_arith)
            requires
                m == 0x1_0000_0000_0000_0000,
                p == 0x100000001b3,
                d == x - y,
                k == (x * p) / m - (y * p) / m,
                (x * p) % m == (y * p) % m,
        ;
        assert(p * q == 1 + t * m);
        assert(d == m * (k * q - d * t)) by (nonlinear_arith)
            requires
                d * p == k * m,
                p * q == 1 + t * m,
        ;
        let c: int = k * q - d * t;
        assert(c == 0) by (nonlinear_arith)
            requires
                d == m * c,
                -m < d < m,
                m > 0,
        ;
    }
}

proof fn lemma_fnv_step(g: u64, h: u64, a: u8, b: u8)
    requires
        (g == h && a != b) || (g != h && a == b),
    ensures
        fnv_step(g, a) != fnv_step(h, b),
{
    let x: u64 = g ^ (a as u64);
    let y: u64 = h ^ (b as u64);
    assert(x != y) by (bit_vector)
        requires
            x == g ^ (a as u64),
            y == h ^ (b as u64),
            (g == h && a != b) || (g != h && a == b),
    ;
    lemma_fnv_prime(x, y);
}

proof fn lemma_fnv_differs(hash: u64, a: Seq<u8>, b: Seq<u8>, i: int)
    requires
        a.len() == b.len(),
        0 <= i < a.len(),
        a[i] != b[i],
        forall|j: int| 0 <= j < a.len() && j != i ==> a[j] == b[j],
    ensures
        fnv(hash, a) != fnv(hash, b),
    decreases a.len(),
{
    let x = a.drop_last();
    let y = b.drop_last();
    if i == a.len() - 1 {
        assert(x =~= y);
    } else {
        lemma_fnv_differs(hash, x, y, i);
    }
    lemma_fnv_step(fnv(hash, x), fnv(hash, y), a.last(), b.last());
}

/// Files that are told apart by a single byte have tasks of different ids.
pub proof fn one_byte_changes_task_id(
    path: Seq<char>,
    size: u64,
    nanos: u128,
    other_path: Seq<char>,
    other_size: u64,
    other_nanos: u128,
    i: int,
)
    requires
        ({
            let a = task_bytes(path, size, nanos);
            let b = task_bytes(other_path, other_size, other_nanos);
            &&& a.len() == b.len()
            &&& 0 <= i < a.len()
            &&& a[i] != b[i]
            &&& forall|j: int| 0 <= j < a.len() && j != i ==> a[j] == b[j]
        }),
    ensures
        task_id_text(path, size, nanos) != task_id_text(other_path, other_size, other_nanos),
{
    let a = task_bytes(path, size, nanos);
    let b = task_bytes(other_path, other_size, other_nanos);
    lemma_fnv_differs(0xcbf29ce484222325, a, b, i);
    if task_id_text(path, size, nanos) == task_id_text(other_path, other_size, other_nanos) {
        lemma_numeral_injective(
            fnv(0xcbf29ce484222325, a) as nat,
            fnv(0xcbf29ce484222325, b) as nat,
            16,
        );
    }
}

/// The id of a task changes with the size of its file, and with the time of
/// its last change, where only the lowest byte of the number changes.
pub proof fn small_changes_change_task_id(
    path: Seq<char>,
    size: u64,
    other_size: u64,
    nanos: u128,
    other_nanos: u128,
)
    ensures
        size != other_size && size / 256 == other_size / 256 ==> task_id_text(path, size, nanos)
            != task_id_text(path, other_size, nanos),
        nanos != other_nanos && nanos / 256 == other_nanos / 256 ==> task_id_text(
            path,
            size,
            nanos,
        ) != task_id_text(path, size, other_nanos),
{
    let front = encode_utf8(path);
    let n = front.len() as int;
    if size != other_size && size / 256 == other_size / 256 {
        let a = task_bytes(path, size, nanos);
        let b = task_bytes(path, other_size, nanos);
        lemma_le_len(size as nat, 8);
        lemma_le_len(other_size as nat, 8);
        assert(size % 256 != other_size % 256);
        lemma_le_tail(size as nat, other_size as nat, 8);
        assert forall|j: int| 0 <= j < a.len() && j != n implies a[j] == b[j] by {
            if n < j < n + 8 {
                assert(a[j] == le_bytes(size as nat, 8)[j - n]);
                assert(b[j] == le_bytes(other_size as nat, 8)[j - n]);
            }
        }
        one_byte_changes_task_id(path, size, nanos, path, other_size, nanos, n);
    }
    if nanos != other_nanos && nanos / 256 == other_nanos / 256 {
        let a = task_bytes(path, size, nanos);
        let b = task_bytes(path, size, other_nanos);
        lemma_le_len(size as nat, 8);
        lemma_le_len(nanos as nat, 16);
        lemma_le_len(other_nanos as nat, 16);
        assert(nanos % 256 != other_nanos % 256);
        lemma_le_tail(nanos as nat, other_nanos as nat, 16);
        assert forall|j: int| 0 <= j < a.len() && j != n + 8 implies a[j] == b[j] by {
            if n + 8 < j {
                assert(a[j] == le_bytes(nanos as nat, 16)[j - n - 8]);
                assert(b[j] == le_bytes(other_nanos as nat, 16)[j - n - 8]);
            }
        }
        one_byte_changes_task_id(path, size, nanos, path, size, other_nanos, n + 8);
    }
}

proof fn lemma_le_len(n: nat, count: nat)
    ensures
        le_bytes(n, count).len() == count,
    decreases count,
{
    if count > 0 {
        lemma_le_len(n / 256, (count - 1) as nat);
    }
}

proof fn lemma_le_tail(a: nat, b: nat, count: nat)
    requires
        count > 0,
        a / 256 == b / 256,
        a % 256 != b % 256,
    ensures
        le_bytes(a, count)[0] != le_bytes(b, count)[0],
        forall|j: int|
            0 < j < count ==> #[trigger] le_bytes(a, count)[j] == le_bytes(b, count)[j],
{
    lemma_le_len(a, count);
    lemma_le_len(b, count);
    let rest = le_bytes(a / 256, (count - 1) as nat);
    assert(le_bytes(a, count).drop_first() =~= rest);
    assert(le_bytes(b, count).drop_first() =~= rest);
    assert forall|j: int| 0 < j < count implies #[trigger] le_bytes(a, count)[j] == le_bytes(
        b,
        count,
    )[j] by {
        assert(le_bytes(a, count).drop_first()[j - 1] == le_bytes(b, count).drop_first()[j - 1]);
    }
}

/// The number that some bytes make, least significant first.
pub open spec fn le_value(bytes: Seq<u8>) -> nat
    decreases bytes.len(),
{
    if bytes.len() == 0 {
        0
    } else {
        bytes[0] as nat + 256 * le_value(bytes.drop_first())
    }
}

/// How many numbers that many bytes can tell apart.
pub open spec fn byte_range(count: nat) -> nat
    decreases count,
{
    if count == 0 {
        1
    } else {
        256 * byte_range((count - 1) as nat)
    }
}

/// The bytes of a number make the number again, least significant first, where
/// there are enough of them.
pub proof fn le_bytes_read_back(n: nat, count: nat)
    requires
        n < byte_range(count),
    ensures
        le_bytes(n, count).len() == count,
        le_value(le_bytes(n, count)) == n,
    decreases count,
{
    lemma_le_len(n, count);
    if count > 0 {
        le_bytes_read_back(n / 256, (count - 1) as nat);
        assert(le_bytes(n, count).drop_first() =~= le_bytes(n / 256, (count - 1) as nat));
    }
}

/// The hash is that of FNV-1a: each byte is mixed into what the bytes before
/// it gave, and the whole is multiplied by the prime.
pub proof fn hash_takes_byte_by_byte(hash: u64, bytes: Seq<u8>, next: u8)
    ensures
        fnv(hash, Seq::empty()) == hash,
        fnv(hash, bytes.push(next)) == ((fnv(hash, bytes) ^ (next as u64)) * 0x100000001b3)
            % 0x1_0000_0000_0000_0000,
{
    assert(bytes.push(next).drop_last() =~= bytes);
}

} // verus!
