//! Capturing a device on Windows: its format, and the loop that empties its
//! buffer.

use crate::audio::AudioChunk;
use crate::error::Error;
use crate::text::{cat, cat3, cat5, decimal, u64_to_decimal};
use vstd::prelude::*;

verus! {

/// The format tag of samples that are floating-point numbers.
pub const WAVE_FORMAT_IEEE_FLOAT: u16 = 3;

/// The format tag of a format that is described by a sub-format.
pub const WAVE_FORMAT_EXTENSIBLE: u16 = 65534;

/// The sub-format of samples that are floating-point numbers.
pub const SUBTYPE_IEEE_FLOAT: u128 = 0x0000_0003_0000_0010_8000_00aa_0038_9b71;

/// The flag of a buffer that holds silence.
pub const BUFFER_SILENT: u32 = 2;

/// What is said where a thread cannot be set up for capturing.
pub open spec fn thread_setup_text(tag: Seq<char>, detail: Seq<char>) -> Seq<char> {
    "["@ + tag + "] CoInitializeEx(MTA) 失败: "@ + detail
        + "（音频捕获需在 MTA 线程初始化）"@
}

/// What becomes of setting up a thread for capturing.
pub fn caller_thread_com(tag: &str, outcome: Result<(), String>) -> (r: Result<(), Error>)
    ensures
        match outcome {
            Ok(()) => r is Ok,
            Err(detail) => r is Err && r->Err_0 is AudioSource && r->Err_0->AudioSource_0@
                == thread_setup_text(tag@, detail@),
        },
        outcome matches Err(detail) ==> r is Err && r->Err_0 is AudioSource
            && r->Err_0->AudioSource_0@ == "["@ + tag@ + "] CoInitializeEx(MTA) 失败: "@ + detail@
            + "（音频捕获需在 MTA 线程初始化）"@,
{
    match outcome {
        Ok(()) => Ok(()),
        Err(detail) => Err(
            Error::AudioSource(
                cat5(
                    "[",
                    tag,
                    "] CoInitializeEx(MTA) 失败: ",
                    detail.as_str(),
                    "（音频捕获需在 MTA 线程初始化）",
                ),
            ),
        ),
    }
}

/// The format of a device.
#[derive(Debug, Clone, Copy, PartialEq, Eq, Structural)]
pub struct MixFormat {
    pub tag: u16,
    pub channels: u16,
    pub rate: u32,
    /// The sub-format, where the tag says that there is one.
    pub sub_format: u128,
}

/// Whether the samples of a format are floating-point numbers.
pub open spec fn is_float_format(f: MixFormat) -> bool {
    f.tag == WAVE_FORMAT_IEEE_FLOAT || (f.tag == WAVE_FORMAT_EXTENSIBLE && f.sub_format
        == SUBTYPE_IEEE_FLOAT)
}

/// Whether the samples of a format are floating-point numbers.
pub fn mix_format_is_float(f: &MixFormat) -> (r: bool)
    ensures
        r == is_float_format(*f),
        r <==> f.tag == 3 || (f.tag == 0xfffe && f.sub_format
            == 0x0000_0003_0000_0010_8000_00aa_0038_9b71),
{
    f.tag == WAVE_FORMAT_IEEE_FLOAT || (f.tag == WAVE_FORMAT_EXTENSIBLE && f.sub_format
        == SUBTYPE_IEEE_FLOAT)
}

/// What is wrong with a format.
pub open spec fn format_error(tag: Seq<char>, f: MixFormat) -> Option<Seq<char>> {
    if f.channels == 0 || f.rate == 0 {
        Some(
            "["@ + tag + "] 无效 mix format（channels="@ + decimal(f.channels as int) + ", rate="@
                + decimal(f.rate as int) + "）"@,
        )
    } else if !is_float_format(f) {
        Some("["@ + tag + "] mix format 非 f32（tag="@ + decimal(f.tag as int) + "），不支持"@)
    } else {
        None
    }
}

/// Checks that a format can be captured.
pub fn check_mix_format(tag: &str, f: &MixFormat) -> (r: Result<(), Error>)
    ensures
        match format_error(tag@, *f) {
            Some(text) => r is Err && r->Err_0 is AudioSource && r->Err_0->AudioSource_0@ == text,
            None => r is Ok,
        },
        r is Ok <==> f.channels > 0 && f.rate > 0 && (f.tag == 3 || (f.tag == 0xfffe
            && f.sub_format == 0x0000_0003_0000_0010_8000_00aa_0038_9b71)),
        f.channels == 0 || f.rate == 0 ==> r is Err && r->Err_0->AudioSource_0@ == "["@ + tag@
            + "] 无效 mix format（channels="@ + decimal(f.channels as int) + ", rate="@ + decimal(
            f.rate as int,
        ) + "）"@,
        r is Err && f.channels > 0 && f.rate > 0 ==> r->Err_0->AudioSource_0@ == "["@ + tag@
            + "] mix format 非 f32（tag="@ + decimal(f.tag as int) + "），不支持"@,
{
    if f.channels == 0 || f.rate == 0 {
        let channels = u64_to_decimal(f.channels as u64);
        let rate = u64_to_decimal(f.rate as u64);
        let head = cat3("[", tag, "] 无效 mix format（channels=");
        let text = cat5(head.as_str(), channels.as_str(), ", rate=", rate.as_str(), "）");
        return Err(Error::AudioSource(text));
    }
    if !mix_format_is_float(f) {
        let number = u64_to_decimal(f.tag as u64);
        let head = cat3("[", tag, "] mix format 非 f32（tag=");
        let text = cat3(head.as_str(), number.as_str(), "），不支持");
        return Err(Error::AudioSource(text));
    }
    Ok(())
}

/// The microphone of the given name is missing.
pub fn microphone_missing(name: &str) -> (r: Error)
    ensures
        r is AudioSource,
        r->AudioSource_0@ == "未找到麦克风 "@ + name@,
{
    Error::AudioSource(cat("未找到麦克风 ", name))
}

/// A buffer that a device hands out.
#[derive(Debug, Clone, Copy, PartialEq, Eq, Structural)]
pub struct BufferInfo {
    pub frames: u32,
    pub flags: u32,
    /// Whether there is no data behind it.
    pub empty: bool,
}

/// What the capturing loop does next.
#[derive(Debug)]
pub enum LoopAction {
    /// Wait until there is data, for two hundred milliseconds at most.
    Wait,
    /// Ask how much data there is.
    QueryPadding,
    /// Ask for the buffer.
    GetBuffer,
    /// Convert that many samples of the buffer, or as many that are zero.
    Convert { samples: u64, silent: bool },
    /// Hand on a chunk.
    Send(AudioChunk),
    /// Give the buffer back.
    Release { frames: u32 },
    /// End the loop.
    Exit,
}

/// What the capturing loop waits for.
#[derive(Debug, Clone, Copy, PartialEq, Eq, Structural)]
pub enum LoopStage {
    Waiting,
    Querying,
    Fetching,
    Converting,
    Sending,
    Releasing,
    Over,
}

/// The loop that empties the buffer of a device.
#[derive(Debug)]
pub struct CaptureLoop {
    pub channels: u16,
    pub frames: u32,
    /// Whether the last chunk could be handed on.
    pub send_ok: bool,
    pub stage: LoopStage,
}

impl CaptureLoop {
    /// A loop that begins by waiting.
    pub fn new(channels: u16) -> (r: (CaptureLoop, LoopAction))
        ensures
            r.0 == (CaptureLoop {
                channels,
                frames: 0,
                send_ok: true,
                stage: LoopStage::Waiting,
            }),
            r.1 is Wait,
    {
        (
            CaptureLoop { channels, frames: 0, send_ok: true, stage: LoopStage::Waiting },
            LoopAction::Wait,
        )
    }

    fn exit(&mut self) -> (r: LoopAction)
        ensures
            *final(self) == (CaptureLoop { stage: LoopStage::Over, ..*old(self) }),
            r is Exit,
    {
        self.stage = LoopStage::Over;
        LoopAction::Exit
    }

    /// The wait is over.
    pub fn waited(&mut self, stop: bool) -> (r: LoopAction)
        requires
            old(self).stage == LoopStage::Waiting,
        ensures
            if stop {
                *final(self) == (CaptureLoop { stage: LoopStage::Over, ..*old(self) }) && r is Exit
            } else {
                *final(self) == (CaptureLoop { stage: LoopStage::Querying, ..*old(self) })
                    && r is QueryPadding
            },
    {
        if stop {
            return self.exit();
        }
        self.stage = LoopStage::Querying;
        LoopAction::QueryPadding
    }

    /// It is known how much data there is, or it could not be found out.
    pub fn padding(&mut self, frames: Option<u32>) -> (r: LoopAction)
        requires
            old(self).stage == LoopStage::Querying,
        ensures
            match frames {
                None => *final(self) == (CaptureLoop { stage: LoopStage::Over, ..*old(self) })
                    && r is Exit,
                Some(n) => if n == 0 {
                    *final(self) == (CaptureLoop { stage: LoopStage::Waiting, ..*old(self) })
                        && r is Wait
                } else {
                    *final(self) == (CaptureLoop { stage: LoopStage::Fetching, ..*old(self) })
                        && r is GetBuffer
                },
            },
    {
        match frames {
            None => self.exit(),
            Some(n) => if n == 0 {
                self.stage = LoopStage::Waiting;
                LoopAction::Wait
            } else {
                self.stage = LoopStage::Fetching;
                LoopAction::GetBuffer
            },
        }
    }

    /// The buffer is there, or could not be had. A buffer of silence counts
    /// as zeros, so that the timeline stays whole.
    pub fn fetched(&mut self, buffer: Option<BufferInfo>) -> (r: LoopAction)
        requires
            old(self).stage == LoopStage::Fetching,
        ensures
            match buffer {
                None => *final(self) == (CaptureLoop { stage: LoopStage::Over, ..*old(self) })
                    && r is Exit,
                Some(b) => {
                    &&& *final(self) == (CaptureLoop {
                        stage: LoopStage::Converting,
                        frames: b.frames,
                        send_ok: true,
                        ..*old(self)
                    })
                    &&& r matches LoopAction::Convert { samples, silent } && samples == b.frames
                        * old(self).channels && silent == ((b.flags & BUFFER_SILENT) != 0
                        || b.empty)
                },
            },
            buffer matches Some(b) ==> r matches LoopAction::Convert { samples, silent } && silent
                == ((b.flags & 2) != 0 || b.empty),
    {
        match buffer {
            None => self.exit(),
            Some(b) => {
                self.frames = b.frames;
                self.send_ok = true;
                self.stage = LoopStage::Converting;
                let frames: u64 = b.frames as u64;
                let channels: u64 = self.channels as u64;
                proof {
                    assert(frames * channels <= 0xffff_ffff * 0xffff) by (nonlinear_arith)
                        requires
                            frames <= 0xffff_ffff,
                            channels <= 0xffff,
                    ;
                }
                LoopAction::Convert {
                    samples: frames * channels,
                    silent: (b.flags & BUFFER_SILENT) != 0 || b.empty,
                }
            },
        }
    }

    /// The samples were converted. Where there are any, they are handed on as
    /// a chunk that begins where the ones before ended.
    pub fn converted(&mut self, pcm: Vec<i16>, clock: &mut MilliClock, wall_time_ms: i64) -> (r:
        LoopAction)
        requires
            old(self).stage == LoopStage::Converting,
            pcm@.len() * 1000 <= i64::MAX,
            old(clock).millis + pcm@.len() * 1000 / 16000 <= i64::MAX,
        ensures
            if pcm@.len() == 0 {
                &&& *final(self) == (CaptureLoop { stage: LoopStage::Releasing, ..*old(self) })
                &&& *final(clock) == *old(clock)
                &&& r matches LoopAction::Release { frames } && frames == old(self).frames
            } else {
                &&& *final(self) == (CaptureLoop { stage: LoopStage::Sending, ..*old(self) })
                &&& final(clock).millis == old(clock).millis + pcm@.len() * 1000 / 16000
                &&& r matches LoopAction::Send(chunk) && chunk.pcm@ == pcm@
                    && chunk.content_time_ms == old(clock).millis && chunk.wall_time_ms
                    == wall_time_ms
            },
    {
        if pcm.len() == 0 {
            self.stage = LoopStage::Releasing;
            return LoopAction::Release { frames: self.frames };
        }
        self.stage = LoopStage::Sending;
        let at: i64 = clock.stamp(pcm.len());
        LoopAction::Send(AudioChunk { pcm, content_time_ms: at, wall_time_ms })
    }

    /// The chunk was handed on, or nobody takes chunks any more.
    pub fn sent(&mut self, ok: bool) -> (r: LoopAction)
        requires
            old(self).stage == LoopStage::Sending,
        ensures
            *final(self) == (CaptureLoop {
                stage: LoopStage::Releasing,
                send_ok: ok,
                ..*old(self)
            }),
            r matches LoopAction::Release { frames } && frames == old(self).frames,
    {
        self.send_ok = ok;
        self.stage = LoopStage::Releasing;
        LoopAction::Release { frames: self.frames }
    }

    /// The buffer was given back, or could not be.
    pub fn released(&mut self, ok: bool) -> (r: LoopAction)
        requires
            old(self).stage == LoopStage::Releasing,
        ensures
            if ok && old(self).send_ok {
                *final(self) == (CaptureLoop { stage: LoopStage::Waiting, ..*old(self) })
                    && r is Wait
            } else {
                *final(self) == (CaptureLoop { stage: LoopStage::Over, ..*old(self) }) && r is Exit
            },
    {
        if ok && self.send_ok {
            self.stage = LoopStage::Waiting;
            LoopAction::Wait
        } else {
            self.exit()
        }
    }
}

/// The timeline of a capture that counts milliseconds.
#[derive(Debug, Clone, Copy, PartialEq, Eq, Structural)]
pub struct MilliClock {
    /// How many milliseconds were captured so far.
    pub millis: i64,
}

impl MilliClock {
    /// Counts further samples, and tells when they began.
    pub fn stamp(&mut self, count: usize) -> (r: i64)
        requires
            count * 1000 <= i64::MAX,
            old(self).millis + count * 1000 / 16000 <= i64::MAX,
        ensures
            r == old(self).millis,
            final(self).millis == old(self).millis + count * 1000 / 16000,
    {
        let at: i64 = self.millis;
        let length: i64 = count as i64 * 1000 / 16000;
        self.millis = at + length;
        at
    }
}

} // verus!
