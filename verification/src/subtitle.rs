//! Subtitle entries, and the files that they are exported to.

use crate::text::{
    cat3, cat5, decimal, digits_value, lemma_join_regroups, lemma_middle_part,
    lemma_numeral_digits, lemma_zeros_in_front, numeral, u64_to_decimal,
};
use vstd::prelude::*;
use vstd::string::*;

verus! {

/// A point of a recording: in seconds, in whatever form the caller counts
/// them, and in whole milliseconds.
#[derive(Debug, Clone, Copy)]
pub struct TimePoint<S> {
    pub seconds: S,
    pub wall_ms: i64,
}

/// How settled the source text of a subtitle is.
#[derive(Debug, Clone, Copy, PartialEq, Eq, Structural)]
pub enum SubtitleStatus {
    Final,
}

/// One subtitle: when it is shown, what was said, and its translation.
#[derive(Debug)]
pub struct SubtitleEntry<S> {
    pub content_start: S,
    pub content_end: S,
    pub wall_start: i64,
    pub wall_end: i64,
    pub source: String,
    pub translated: String,
    pub status: SubtitleStatus,
}

impl<S: Copy> Clone for SubtitleEntry<S> {
    fn clone(&self) -> (r: Self)
        ensures
            r == *self,
    {
        SubtitleEntry {
            content_start: self.content_start,
            content_end: self.content_end,
            wall_start: self.wall_start,
            wall_end: self.wall_end,
            source: self.source.clone(),
            translated: self.translated.clone(),
            status: self.status,
        }
    }
}

/// A number with zeros in front, in the given number of digits at least.
pub open spec fn padded(n: int, digits: nat) -> Seq<char> {
    let text = decimal(n);
    if text.len() >= digits {
        text
    } else {
        Seq::new((digits - text.len()) as nat, |i: int| '0') + text
    }
}

/// A time as hours, minutes, seconds and milliseconds; a time before the
/// beginning counts as the beginning.
pub open spec fn clock_text(ms: i64, mark: Seq<char>) -> Seq<char> {
    let t = if ms < 0 {
        0
    } else {
        ms as int
    };
    padded(t / 3600000, 2) + ":"@ + padded(t / 60000 % 60, 2) + ":"@ + padded(t / 1000 % 60, 2)
        + mark + padded(t % 1000, 3)
}

/// The span of time in which a subtitle is shown.
pub open spec fn span_text<S>(e: SubtitleEntry<S>, mark: Seq<char>) -> Seq<char> {
    clock_text(e.wall_start, mark) + " --> "@ + clock_text(e.wall_end, mark)
}

/// The lines of a subtitle: what was said and, where there is one, its
/// translation.
pub open spec fn cue_text<S>(e: SubtitleEntry<S>) -> Seq<char> {
    if e.translated@.len() == 0 {
        e.source@
    } else {
        e.source@ + "\n"@ + e.translated@
    }
}

/// The subtitles as an SRT file: numbered from one, an empty line after each.
pub open spec fn srt_text<S>(entries: Seq<SubtitleEntry<S>>) -> Seq<char>
    decreases entries.len(),
{
    if entries.len() == 0 {
        Seq::empty()
    } else {
        let e = entries.last();
        srt_text(entries.drop_last()) + (decimal(entries.len() as int) + "\n"@ + span_text(
            e,
            ","@,
        ) + "\n"@ + (cue_text(e) + "\n"@ + "\n"@))
    }
}

/// The subtitles of a WebVTT file, an empty line after each.
pub open spec fn vtt_cues<S>(entries: Seq<SubtitleEntry<S>>) -> Seq<char>
    decreases entries.len(),
{
    if entries.len() == 0 {
        Seq::empty()
    } else {
        let e = entries.last();
        vtt_cues(entries.drop_last()) + (span_text(e, "."@) + "\n"@ + cue_text(e) + "\n"@ + "\n"@)
    }
}

/// The subtitles as a WebVTT file.
pub open spec fn vtt_text<S>(entries: Seq<SubtitleEntry<S>>) -> Seq<char> {
    "WEBVTT\n\n"@ + vtt_cues(entries)
}

fn pad(n: u64, digits: usize) -> (r: String)
    ensures
        r@ == padded(n as int, digits as nat),
{
    let text = u64_to_decimal(n);
    let len: usize = text.as_str().unicode_len();
    let mut out = String::new();
    if len < digits {
        let missing: usize = digits - len;
        let mut i: usize = 0;
        while i < missing
            invariant
                i <= missing,
                out@ == Seq::new(i as nat, |j: int| '0'),
            decreases missing - i,
        {
            out.push('0');
            proof {
                assert(out@ =~= Seq::new((i + 1) as nat, |j: int| '0'));
            }
            i += 1;
        }
    }
    out.append(text.as_str());
    proof {
        assert(out@ =~= padded(n as int, digits as nat));
    }
    out
}

fn clock(ms: i64, mark: &str) -> (r: String)
    ensures
        r@ == clock_text(ms, mark@),
{
    let t: u64 = if ms < 0 {
        0
    } else {
        ms as u64
    };
    let hours = pad(t / 3600000, 2);
    let minutes = pad(t / 60000 % 60, 2);
    let seconds = pad(t / 1000 % 60, 2);
    let millis = pad(t % 1000, 3);
    let front = cat5(hours.as_str(), ":", minutes.as_str(), ":", seconds.as_str());
    cat3(front.as_str(), mark, millis.as_str())
}

fn span<S>(e: &SubtitleEntry<S>, mark: &str) -> (r: String)
    ensures
        r@ == span_text(*e, mark@),
{
    let start = clock(e.wall_start, mark);
    let end = clock(e.wall_end, mark);
    cat3(start.as_str(), " --> ", end.as_str())
}

fn cue<S>(e: &SubtitleEntry<S>) -> (r: String)
    ensures
        r@ == cue_text(*e),
{
    if e.translated.as_str().is_empty() {
        e.source.clone()
    } else {
        cat3(e.source.as_str(), "\n", e.translated.as_str())
    }
}

/// Writes subtitles as an SRT file.
pub fn generate_srt<S>(entries: &Vec<SubtitleEntry<S>>) -> (r: String)
    ensures
        r@ == srt_text(entries@),
{
    let mut out = String::new();
    let mut i: usize = 0;
    proof {
        assert(out@ =~= srt_text(entries@.take(0)));
    }
    while i < entries.len()
        invariant
            i <= entries.len(),
            out@ == srt_text(entries@.take(i as int)),
        decreases entries.len() - i,
    {
        let e = &entries[i];
        let number = u64_to_decimal(i as u64 + 1);
        let times = span(e, ",");
        let text = cue(e);
        let closed = cat3(text.as_str(), "\n", "\n");
        let block = cat5(number.as_str(), "\n", times.as_str(), "\n", closed.as_str());
        out.append(block.as_str());
        proof {
            assert(entries@.take(i + 1).drop_last() =~= entries@.take(i as int));
            assert(entries@.take(i + 1).last() == *e);
        }
        i += 1;
    }
    proof {
        assert(entries@.take(entries@.len() as int) =~= entries@);
    }
    out
}

/// Writes subtitles as a WebVTT file.
pub fn generate_vtt<S>(entries: &Vec<SubtitleEntry<S>>) -> (r: String)
    ensures
        r@ == vtt_text(entries@),
{
    let mut out = String::new();
    let mut i: usize = 0;
    proof {
        assert(out@ =~= vtt_cues(entries@.take(0)));
    }
    while i < entries.len()
        invariant
            i <= entries.len(),
            out@ == vtt_cues(entries@.take(i as int)),
        decreases entries.len() - i,
    {
        let e = &entries[i];
        let times = span(e, ".");
        let text = cue(e);
        let block = cat5(times.as_str(), "\n", text.as_str(), "\n", "\n");
        out.append(block.as_str());
        proof {
            assert(entries@.take(i + 1).drop_last() =~= entries@.take(i as int));
            assert(entries@.take(i + 1).last() == *e);
        }
        i += 1;
    }
    proof {
        assert(entries@.take(entries@.len() as int) =~= entries@);
    }
    let mut file = "WEBVTT\n\n".to_owned();
    file.append(out.as_str());
    file
}

/// The time that a clock text tells, in milliseconds, given the length of the
/// mark before its last three digits.
pub open spec fn clock_value(text: Seq<char>, mark: nat) -> Option<int> {
    let n = text.len() as int;
    let k = mark as int;
    match (
        digits_value(text.take(n - 9 - k)),
        digits_value(text.subrange(n - 8 - k, n - 6 - k)),
        digits_value(text.subrange(n - 5 - k, n - 3 - k)),
        digits_value(text.skip(n - 3)),
    ) {
        (Some(h), Some(m), Some(s), Some(f)) => Some(
            (h * 3600000 + m * 60000 + s * 1000 + f) as int,
        ),
        _ => None,
    }
}

proof fn lemma_padded(n: nat, digits: nat)
    ensures
        digits_value(padded(n as int, digits)) == Some(n),
        padded(n as int, digits).len() >= digits,
        n < 100 && digits == 2 ==> padded(n as int, digits).len() == 2,
        n < 1000 && digits == 3 ==> padded(n as int, digits).len() == 3,
{
    let text = decimal(n as int);
    lemma_numeral_digits(n);
    if text.len() < digits {
        lemma_zeros_in_front(text, (digits - text.len()) as nat);
    }
    if n < 1000 {
        reveal_with_fuel(numeral, 3);
        assert(numeral(n, 10).len() == if n < 10 {
            1int
        } else if n < 100 {
            2
        } else {
            3
        });
    }
}

proof fn lemma_clock_sum(t: nat)
    ensures
        t / 3600000 * 3600000 + t / 60000 % 60 * 60000 + t / 1000 % 60 * 1000 + t % 1000 == t,
{
}

proof fn lemma_clock_pieces(
    hours: Seq<char>,
    minutes: Seq<char>,
    seconds: Seq<char>,
    mark: Seq<char>,
    millis: Seq<char>,
)
    requires
        minutes.len() == 2,
        seconds.len() == 2,
        millis.len() == 3,
    ensures
        ({
            let text = hours + ":"@ + minutes + ":"@ + seconds + mark + millis;
            let n = text.len() as int;
            let k = mark.len() as int;
            &&& n == hours.len() + 9 + k
            &&& text.take(n - 9 - k) == hours
            &&& text.subrange(n - 8 - k, n - 6 - k) == minutes
            &&& text.subrange(n - 5 - k, n - 3 - k) == seconds
            &&& text.subrange(n - 3 - k, n - 3) == mark
            &&& text.skip(n - 3) == millis
            &&& text[n - 9 - k] == ':' && text[n - 6 - k] == ':'
        }),
{
    reveal_strlit(":");
    let colon = ":"@;
    let text = hours + colon + minutes + colon + seconds + mark + millis;
    let n = text.len() as int;
    let k = mark.len() as int;
    let to_minutes = hours + colon + minutes;
    let to_seconds = to_minutes + colon + seconds;
    lemma_middle_part(to_seconds, mark, millis);
    lemma_middle_part(to_seconds + mark, millis, Seq::empty());
    assert(text + Seq::<char>::empty() =~= text);
    assert(text.skip(n - 3) =~= text.subrange(n - 3, n));
    let from_mark = mark + millis;
    lemma_join_regroups(to_seconds, mark, millis);
    lemma_middle_part(to_minutes + colon, seconds, from_mark);
    let from_seconds = seconds + from_mark;
    lemma_join_regroups(to_minutes + colon, seconds, from_mark);
    lemma_middle_part(to_minutes, colon, from_seconds);
    assert(text.subrange(n - 6 - k, n - 5 - k)[0] == text[n - 6 - k]);
    let from_colon = colon + from_seconds;
    lemma_join_regroups(to_minutes, colon, from_seconds);
    lemma_middle_part(hours + colon, minutes, from_colon);
    let from_minutes = minutes + from_colon;
    lemma_join_regroups(hours + colon, minutes, from_colon);
    lemma_middle_part(hours, colon, from_minutes);
    assert(text.subrange(n - 9 - k, n - 8 - k)[0] == text[n - 9 - k]);
    lemma_middle_part(Seq::empty(), hours, colon + from_minutes);
    lemma_join_regroups(hours, colon, from_minutes);
    assert(Seq::<char>::empty() + hours =~= hours);
    assert(text.take(n - 9 - k) =~= text.subrange(0, n - 9 - k));
}

/// A clock text tells its time: hours in two digits at least, minutes and
/// seconds in two digits each and below sixty, milliseconds in three, and the
/// sum of them all is the time that was written. So two times never have the
/// same text.
pub proof fn clock_reads_back(ms: i64, mark: Seq<char>)
    requires
        ms >= 0,
    ensures
        ({
            let text = clock_text(ms, mark);
            let n = text.len() as int;
            let k = mark.len() as int;
            &&& n >= 11 + k
            &&& clock_value(text, mark.len()) == Some(ms as int)
            &&& digits_value(text.subrange(n - 8 - k, n - 6 - k))->0 < 60
            &&& digits_value(text.subrange(n - 5 - k, n - 3 - k))->0 < 60
            &&& text[n - 9 - k] == ':' && text[n - 6 - k] == ':'
            &&& text.subrange(n - 3 - k, n - 3) == mark
        }),
{
    let t = ms as nat;
    let h = t / 3600000;
    let m = t / 60000 % 60;
    let s = t / 1000 % 60;
    let f = t % 1000;
    lemma_padded(h, 2);
    lemma_padded(m, 2);
    lemma_padded(s, 2);
    lemma_padded(f, 3);
    reveal_strlit(":");
    let text = clock_text(ms, mark);
    let n = text.len() as int;
    let k = mark.len() as int;
    lemma_clock_pieces(
        padded(h as int, 2),
        padded(m as int, 2),
        padded(s as int, 2),
        mark,
        padded(f as int, 3),
    );
    lemma_clock_sum(t);
}

/// A time before the beginning is shown as the beginning.
pub proof fn clock_begins_at_zero(ms: i64, mark: Seq<char>)
    requires
        ms <= 0,
    ensures
        clock_value(clock_text(ms, mark), mark.len()) == Some(0int),
{
    clock_reads_back(0, mark);
    assert(clock_text(ms, mark) == clock_text(0, mark));
}

/// An SRT file without subtitles is empty. One more subtitle adds its number,
/// which counts from one, then the times at which it begins and ends, with a
/// comma before the milliseconds, then what was said, then the translation
/// where there is one, and an empty line.
pub proof fn srt_grows_by_cues<S>(entries: Seq<SubtitleEntry<S>>, e: SubtitleEntry<S>)
    ensures
        srt_text(Seq::<SubtitleEntry<S>>::empty()).len() == 0,
        e.translated@.len() == 0 ==> srt_text(entries.push(e)) == srt_text(entries) + decimal(
            entries.len() + 1int,
        ) + "\n"@ + clock_text(e.wall_start, ","@) + " --> "@ + clock_text(e.wall_end, ","@)
            + "\n"@ + e.source@ + "\n"@ + "\n"@,
        e.translated@.len() > 0 ==> srt_text(entries.push(e)) == srt_text(entries) + decimal(
            entries.len() + 1int,
        ) + "\n"@ + clock_text(e.wall_start, ","@) + " --> "@ + clock_text(e.wall_end, ","@)
            + "\n"@ + e.source@ + "\n"@ + e.translated@ + "\n"@ + "\n"@,
{
    assert(entries.push(e).drop_last() =~= entries);
    let t = srt_text(entries);
    let number = decimal(entries.len() + 1int);
    let line = "\n"@;
    let numbered = t + number + line;
    let times = span_text(e, ","@);
    let cue = cue_text(e);
    lemma_join_regroups(t, number, line);
    lemma_join_regroups(t, number + line, times);
    lemma_join_regroups(t, number + line + times, line);
    lemma_join_regroups(t, number + line + times + line, cue + line + line);
    lemma_span_regroups(numbered, e, ","@);
    lemma_cue_regroups(numbered + times + line, e);
}

proof fn lemma_span_regroups<S>(front: Seq<char>, e: SubtitleEntry<S>, mark: Seq<char>)
    ensures
        front + span_text(e, mark) == front + clock_text(e.wall_start, mark) + " --> "@
            + clock_text(e.wall_end, mark),
{
    let start = clock_text(e.wall_start, mark);
    lemma_join_regroups(front, start + " --> "@, clock_text(e.wall_end, mark));
    lemma_join_regroups(front, start, " --> "@);
}

proof fn lemma_cue_regroups<S>(front: Seq<char>, e: SubtitleEntry<S>)
    ensures
        front + (cue_text(e) + "\n"@ + "\n"@) == (if e.translated@.len() == 0 {
            front + e.source@ + "\n"@ + "\n"@
        } else {
            front + e.source@ + "\n"@ + e.translated@ + "\n"@ + "\n"@
        }),
{
    let line = "\n"@;
    let cue = cue_text(e);
    lemma_join_regroups(front, cue + line, line);
    lemma_join_regroups(front, cue, line);
    lemma_join_regroups(front, e.source@ + line, e.translated@);
    lemma_join_regroups(front, e.source@, line);
}

/// A WebVTT file without subtitles is its heading. One more subtitle adds the
/// times at which it begins and ends, with a point before the milliseconds,
/// then what was said, then the translation where there is one, and an empty
/// line.
pub proof fn vtt_grows_by_cues<S>(entries: Seq<SubtitleEntry<S>>, e: SubtitleEntry<S>)
    ensures
        vtt_text(Seq::<SubtitleEntry<S>>::empty()) == "WEBVTT\n\n"@,
        e.translated@.len() == 0 ==> vtt_text(entries.push(e)) == vtt_text(entries) + clock_text(
            e.wall_start,
            "."@,
        ) + " --> "@ + clock_text(e.wall_end, "."@) + "\n"@ + e.source@ + "\n"@ + "\n"@,
        e.translated@.len() > 0 ==> vtt_text(entries.push(e)) == vtt_text(entries) + clock_text(
            e.wall_start,
            "."@,
        ) + " --> "@ + clock_text(e.wall_end, "."@) + "\n"@ + e.source@ + "\n"@ + e.translated@
            + "\n"@ + "\n"@,
{
    assert(entries.push(e).drop_last() =~= entries);
    assert(vtt_text(Seq::<SubtitleEntry<S>>::empty()) =~= "WEBVTT\n\n"@);
    let t = vtt_text(entries);
    let line = "\n"@;
    let times = span_text(e, "."@);
    let cue = cue_text(e);
    let added = times + line + cue + line + line;
    lemma_join_regroups("WEBVTT\n\n"@, vtt_cues(entries), added);
    lemma_join_regroups(t, times + line + cue + line, line);
    lemma_join_regroups(t, times + line + cue, line);
    lemma_join_regroups(t, times + line, cue);
    lemma_join_regroups(t, times, line);
    let timed = t + times + line;
    lemma_join_regroups(timed, cue + line, line);
    lemma_join_regroups(timed, cue, line);
    lemma_span_regroups(t, e, "."@);
    lemma_cue_regroups(timed, e);
}

/// Two times never have the same text.
pub proof fn clock_tells_times_apart(a: i64, b: i64, mark: Seq<char>)
    requires
        a >= 0,
        b >= 0,
        a != b,
    ensures
        clock_text(a, mark) != clock_text(b, mark),
{
    clock_reads_back(a, mark);
    clock_reads_back(b, mark);
}

} // verus!
