//! The audio of a video file, cut out with ffmpeg.

use crate::audio::{bytes_samples, bytes_to_samples, AudioChunk};
use crate::error::Error;
use crate::text::{cat, cat3, texts};
use crate::wav_name::{path_hash, wav_name, wav_name_text};
use vstd::prelude::*;
use vstd::string::*;

verus! {

/// The operating systems that make a difference.
#[derive(Debug, Clone, Copy, PartialEq, Eq, Structural)]
pub enum Platform {
    MacOs,
    Windows,
    Other,
}

/// The name of the temporary file that the audio of a video is extracted to.
/// It depends on the path of the video alone: what an interrupted extraction
/// left behind is overwritten by the next.
pub fn temp_wav_name(video_path: &str) -> (r: String)
    ensures
        r@ == wav_name_text(path_hash(video_path@)),
{
    wav_name(video_path)
}

/// A place where a tool may be, and whether it is there.
#[derive(Debug)]
pub struct ToolCandidate {
    pub path: String,
    pub exists: bool,
}

/// The first place where a tool is; its bare name where it is at none.
pub open spec fn chosen_tool(candidates: Seq<ToolCandidate>, name: Seq<char>) -> Seq<char>
    decreases candidates.len(),
{
    if candidates.len() == 0 {
        name
    } else if candidates[0].exists {
        candidates[0].path@
    } else {
        chosen_tool(candidates.drop_first(), name)
    }
}

/// Chooses the place of a tool: the first of the candidates, which are the
/// application's own directory and then the usual ones, at which it is. Where
/// it is at none, the search is left to the system.
pub fn resolve_tool_in(candidates: &Vec<ToolCandidate>, name: &str) -> (r: String)
    ensures
        r@ == chosen_tool(candidates@, name@),
{
    let mut i: usize = 0;
    proof {
        assert(candidates@.skip(0) =~= candidates@);
    }
    while i < candidates.len()
        invariant
            i <= candidates.len(),
            chosen_tool(candidates@, name@) == chosen_tool(candidates@.skip(i as int), name@),
        decreases candidates.len() - i,
    {
        proof {
            assert(candidates@.skip(i as int)[0] == candidates@[i as int]);
            assert(candidates@.skip(i as int).drop_first() =~= candidates@.skip(i + 1));
        }
        if candidates[i].exists {
            return candidates[i].path.clone();
        }
        i += 1;
    }
    name.to_owned()
}

/// The usual directories of tools.
pub open spec fn tool_dirs_of(platform: Platform) -> Seq<Seq<char>> {
    if platform == Platform::MacOs {
        seq!["/opt/homebrew/bin"@, "/usr/local/bin"@]
    } else {
        Seq::empty()
    }
}

/// The usual directories of tools.
pub fn tool_dirs(platform: Platform) -> (r: Vec<String>)
    ensures
        texts(r@) == tool_dirs_of(platform),
        platform == Platform::MacOs ==> r@.len() == 2 && r@[0]@ == "/opt/homebrew/bin"@ && r@[1]@
            == "/usr/local/bin"@,
        platform != Platform::MacOs ==> r@.len() == 0,
{
    let mut out: Vec<String> = Vec::new();
    if platform == Platform::MacOs {
        out.push("/opt/homebrew/bin".to_owned());
        out.push("/usr/local/bin".to_owned());
    }
    proof {
        assert(texts(out@) =~= tool_dirs_of(platform));
    }
    out
}

/// The name of the program file of a tool.
pub fn tool_exe_name(name: &str, platform: Platform) -> (r: String)
    ensures
        r@ == if platform == Platform::Windows {
            name@ + ".exe"@
        } else {
            name@
        },
{
    if platform == Platform::Windows {
        cat(name, ".exe")
    } else {
        name.to_owned()
    }
}

/// What is said of a tool that could not be started.
pub open spec fn spawn_error_text(
    tool: Seq<char>,
    not_found: bool,
    detail: Seq<char>,
    platform: Platform,
) -> Seq<char> {
    if !not_found {
        tool + " 执行失败: "@ + detail
    } else if platform == Platform::MacOs {
        "未检测到 "@ + tool + "。请安装后重试：brew install ffmpeg"@
    } else {
        "未检测到 "@ + tool
            + "。应用自带的 ffmpeg 丢失，请重装本应用；或在系统 PATH 中安装 ffmpeg"@
    }
}

/// The error for a tool that could not be started: where it was not found, how
/// to get it, and otherwise the cause.
pub fn tool_spawn_error(tool: &str, not_found: bool, detail: &str, platform: Platform) -> (r: Error)
    ensures
        r is AudioSource,
        r->AudioSource_0@ == spawn_error_text(tool@, not_found, detail@, platform),
        !not_found ==> r->AudioSource_0@ == tool@ + " 执行失败: "@ + detail@,
        not_found && platform == Platform::MacOs ==> r->AudioSource_0@ == "未检测到 "@ + tool@
            + "。请安装后重试：brew install ffmpeg"@,
        not_found && platform != Platform::MacOs ==> r->AudioSource_0@ == "未检测到 "@ + tool@
            + "。应用自带的 ffmpeg 丢失，请重装本应用；或在系统 PATH 中安装 ffmpeg"@,
{
    if !not_found {
        Error::AudioSource(cat3(tool, " 执行失败: ", detail))
    } else if platform == Platform::MacOs {
        Error::AudioSource(cat3("未检测到 ", tool, "。请安装后重试：brew install ffmpeg"))
    } else {
        Error::AudioSource(
            cat3(
                "未检测到 ",
                tool,
                "。应用自带的 ffmpeg 丢失，请重装本应用；或在系统 PATH 中安装 ffmpeg",
            ),
        )
    }
}

/// The arguments with which ffprobe tells the length of a file.
pub open spec fn probe_args_of(path: Seq<char>) -> Seq<Seq<char>> {
    seq![
        "-v"@,
        "error"@,
        "-show_entries"@,
        "format=duration"@,
        "-of"@,
        "default=noprint_wrappers=1:nokey=1"@,
        path,
    ]
}

/// The arguments with which ffmpeg turns a stretch of a file into samples.
pub open spec fn segment_args_of(
    path: Seq<char>,
    start_secs: Seq<char>,
    length_secs: Seq<char>,
) -> Seq<Seq<char>> {
    seq![
        "-ss"@,
        start_secs,
        "-i"@,
        path,
        "-t"@,
        length_secs,
        "-vn"@,
        "-acodec"@,
        "pcm_s16le"@,
        "-ar"@,
        "16000"@,
        "-ac"@,
        "1"@,
        "-f"@,
        "s16le"@,
        "-"@,
    ]
}

/// The arguments with which ffmpeg extracts all audio of a file to another.
pub open spec fn extract_args_of(path: Seq<char>, output: Seq<char>) -> Seq<Seq<char>> {
    seq![
        "-i"@,
        path,
        "-vn"@,
        "-acodec"@,
        "pcm_s16le"@,
        "-ar"@,
        "16000"@,
        "-ac"@,
        "1"@,
        "-y"@,
        output,
    ]
}

/// Adds an argument.
fn arg(list: &mut Vec<String>, text: &str)
    ensures
        texts(final(list)@) == texts(old(list)@).push(text@),
{
    let ghost before = list@;
    list.push(text.to_owned());
    proof {
        assert(texts(list@) =~= texts(before).push(text@));
    }
}

/// The arguments with which ffprobe tells the length of a file.
pub fn probe_args(path: &str) -> (r: Vec<String>)
    ensures
        texts(r@) == probe_args_of(path@),
{
    let mut a: Vec<String> = Vec::new();
    arg(&mut a, "-v");
    arg(&mut a, "error");
    arg(&mut a, "-show_entries");
    arg(&mut a, "format=duration");
    arg(&mut a, "-of");
    arg(&mut a, "default=noprint_wrappers=1:nokey=1");
    arg(&mut a, path);
    proof {
        assert(texts(a@) =~= probe_args_of(path@));
    }
    a
}

/// The arguments with which ffmpeg turns a stretch of a file into samples; the
/// times are in seconds, as text.
pub fn segment_args(path: &str, start_secs: &str, length_secs: &str) -> (r: Vec<String>)
    ensures
        texts(r@) == segment_args_of(path@, start_secs@, length_secs@),
{
    let mut a: Vec<String> = Vec::new();
    arg(&mut a, "-ss");
    arg(&mut a, start_secs);
    arg(&mut a, "-i");
    arg(&mut a, path);
    arg(&mut a, "-t");
    arg(&mut a, length_secs);
    arg(&mut a, "-vn");
    arg(&mut a, "-acodec");
    arg(&mut a, "pcm_s16le");
    arg(&mut a, "-ar");
    arg(&mut a, "16000");
    arg(&mut a, "-ac");
    arg(&mut a, "1");
    arg(&mut a, "-f");
    arg(&mut a, "s16le");
    arg(&mut a, "-");
    proof {
        assert(texts(a@) =~= segment_args_of(path@, start_secs@, length_secs@));
    }
    a
}

/// The arguments with which ffmpeg extracts all audio of a file to another.
pub fn extract_args(path: &str, output: &str) -> (r: Vec<String>)
    ensures
        texts(r@) == extract_args_of(path@, output@),
{
    let mut a: Vec<String> = Vec::new();
    arg(&mut a, "-i");
    arg(&mut a, path);
    arg(&mut a, "-vn");
    arg(&mut a, "-acodec");
    arg(&mut a, "pcm_s16le");
    arg(&mut a, "-ar");
    arg(&mut a, "16000");
    arg(&mut a, "-ac");
    arg(&mut a, "1");
    arg(&mut a, "-y");
    arg(&mut a, output);
    proof {
        assert(texts(a@) =~= extract_args_of(path@, output@));
    }
    a
}

/// The longest time that is counted: what a number of seconds of sixty-four
/// bits and a second's nanoseconds can hold.
pub const MAX_NANOS: u128 = 18446744073709551615999999999;

/// How far one chunk is from the next, in nanoseconds: ten minutes.
pub const SEGMENT_NANOS: u128 = 600000000000;

/// How far a chunk reaches into the next, in nanoseconds: five seconds.
pub const OVERLAP_NANOS: u128 = 5000000000;

/// A video file that is read in chunks of ten minutes, each of which reaches
/// five seconds into the next. Times are in nanoseconds from its beginning.
#[derive(Debug)]
pub struct FileAudioSource {
    position: u128,
    total: u128,
}

/// The stretch of a file that is to be extracted.
#[derive(Debug, Clone, Copy, PartialEq, Eq, Structural)]
pub struct ChunkPlan {
    pub start: u128,
    pub length: u128,
}

/// The smaller of two numbers.
pub open spec fn least(a: int, b: int) -> int {
    if a < b {
        a
    } else {
        b
    }
}

/// Where the chunk that begins at a position ends.
pub open spec fn chunk_end(position: int, total: int) -> int {
    least(position + SEGMENT_NANOS + OVERLAP_NANOS, total)
}

/// Where the chunk after the one at a position begins.
pub open spec fn next_position(position: int, total: int) -> int {
    least(position + SEGMENT_NANOS, total)
}

impl FileAudioSource {
    /// Where the next chunk begins.
    pub closed spec fn position(self) -> int {
        self.position as int
    }

    /// How long the file is.
    pub closed spec fn total(self) -> int {
        self.total as int
    }

    #[verifier::type_invariant]
    closed spec fn inv(self) -> bool {
        self.position <= self.total <= MAX_NANOS
    }

    /// A file of the given length, at its beginning.
    pub fn new(total: u128) -> (r: Self)
        requires
            total <= MAX_NANOS,
        ensures
            r.position() == 0,
            r.total() == total,
    {
        FileAudioSource { position: 0, total }
    }

    /// The stretch that is to be extracted next.
    pub fn next_chunk(&self) -> (r: Result<ChunkPlan, Error>)
        ensures
            match r {
                Ok(p) => {
                    &&& self.position() < self.total()
                    &&& p.start == self.position()
                    &&& p.start + p.length == chunk_end(self.position(), self.total())
                },
                Err(e) => self.position() >= self.total() && e is AudioSource && e->AudioSource_0@
                    == "End of file"@,
            },
            r matches Ok(p) ==> p.length <= 605 * 1000 * 1000 * 1000 && (p.length == 605 * 1000
                * 1000 * 1000 || p.start + p.length == self.total()),
    {
        proof {
            use_type_invariant(self);
        }
        if self.position >= self.total {
            return Err(Error::AudioSource("End of file".to_owned()));
        }
        let remaining: u128 = self.total - self.position;
        let whole: u128 = SEGMENT_NANOS + OVERLAP_NANOS;
        let length: u128 = if whole < remaining {
            whole
        } else {
            remaining
        };
        Ok(ChunkPlan { start: self.position, length })
    }

    /// Takes in the extracted bytes, and moves on to the next chunk.
    pub fn chunk_extracted(&mut self, bytes: &[u8]) -> (r: AudioChunk)
        ensures
            final(self).total() == old(self).total(),
            final(self).position() == next_position(old(self).position(), old(self).total()),
            r.pcm@ == bytes_samples(bytes@),
            r.content_time_ms == (old(self).position() / 1000000) as i64,
            r.wall_time_ms == r.content_time_ms,
            old(self).position() + 600 * 1000 * 1000 * 1000 < old(self).total()
                ==> final(self).position() == old(self).position() + 600 * 1000 * 1000 * 1000,
            old(self).position() + 600 * 1000 * 1000 * 1000 >= old(self).total()
                ==> final(self).position() == old(self).total(),
    {
        proof {
            use_type_invariant(&*self);
        }
        let at: i64 = (self.position / 1000000) as i64;
        let moved: u128 = self.position + SEGMENT_NANOS;
        self.position = if moved < self.total {
            moved
        } else {
            self.total
        };
        AudioChunk { pcm: bytes_to_samples(bytes), content_time_ms: at, wall_time_ms: at }
    }

    /// Moves to a position.
    pub fn seek(&mut self, pos: u128) -> (r: Result<(), Error>)
        ensures
            final(self).total() == old(self).total(),
            match r {
                Ok(()) => pos <= old(self).total() && final(self).position() == pos,
                Err(e) => pos > old(self).total() && *final(self) == *old(self) && e is AudioSource
                    && e->AudioSource_0@ == "Seek position beyond file duration"@,
            },
    {
        if pos > self.total {
            return Err(Error::AudioSource("Seek position beyond file duration".to_owned()));
        }
        proof {
            use_type_invariant(&*self);
        }
        self.position = pos;
        Ok(())
    }

    /// Whether the position can be moved.
    pub fn supports_seek(&self) -> (r: bool)
        ensures
            r,
    {
        true
    }

    /// How long the file is.
    pub fn total_duration(&self) -> (r: Option<u128>)
        ensures
            r is Some,
            r->0 == self.total(),
    {
        Some(self.total)
    }
}

/// The chunks of a file leave no gap and reach its end: reading moves on, a
/// chunk reaches at least to where the next begins, and five seconds further
/// as far as the file goes.
pub proof fn chunks_leave_no_gap(position: int, total: int)
    requires
        0 <= position < total,
    ensures
        position < next_position(position, total) <= chunk_end(position, total) <= total,
        next_position(position, total) < total ==> chunk_end(position, total) == least(
            next_position(position, total) + OVERLAP_NANOS,
            total,
        ),
        next_position(position, total) == total ==> chunk_end(position, total) == total,
{
}

/// The tool that is run is the first that is there; where none is, the bare
/// name is left to the system.
pub proof fn first_tool_that_exists_is_chosen(
    candidates: Seq<ToolCandidate>,
    name: Seq<char>,
    i: int,
)
    requires
        0 <= i <= candidates.len(),
        forall|j: int| 0 <= j < i ==> !(#[trigger] candidates[j]).exists,
        i < candidates.len() ==> candidates[i].exists,
    ensures
        i < candidates.len() ==> chosen_tool(candidates, name) == candidates[i].path@,
        i == candidates.len() ==> chosen_tool(candidates, name) == name,
    decreases i,
{
    if i > 0 {
        assert(!candidates[0].exists);
        let rest = candidates.drop_first();
        assert forall|j: int| 0 <= j < i - 1 implies !(#[trigger] rest[j]).exists by {
            assert(rest[j] == candidates[j + 1]);
        }
        first_tool_that_exists_is_chosen(rest, name, i - 1);
    }
}

/// A stretch of a file is cut out where it is asked for: the beginning, the
/// file and the length follow their options, and the samples come out one
/// channel at sixteen thousand a second, sixteen bits each, low byte first.
pub proof fn stretch_is_cut_where_asked(
    path: Seq<char>,
    start_secs: Seq<char>,
    length_secs: Seq<char>,
)
    ensures
        ({
            let a = segment_args_of(path, start_secs, length_secs);
            &&& a.len() == 16
            &&& a[0] == "-ss"@ && a[1] == start_secs
            &&& a[2] == "-i"@ && a[3] == path
            &&& a[4] == "-t"@ && a[5] == length_secs
            &&& a[6] == "-vn"@
            &&& a[7] == "-acodec"@ && a[8] == "pcm_s16le"@
            &&& a[9] == "-ar"@ && a[10] == "16000"@
            &&& a[11] == "-ac"@ && a[12] == "1"@
            &&& a[13] == "-f"@ && a[14] == "s16le"@
            &&& a[15] == "-"@
        }),
{
}

/// The audio of a file goes to the file that is named last, which is
/// overwritten, and the length of a file is asked of the file that is named
/// last.
pub proof fn audio_goes_to_the_output(path: Seq<char>, output: Seq<char>)
    ensures
        ({
            let a = extract_args_of(path, output);
            &&& a.len() == 11
            &&& a[0] == "-i"@ && a[1] == path
            &&& a[2] == "-vn"@
            &&& a[3] == "-acodec"@ && a[4] == "pcm_s16le"@
            &&& a[5] == "-ar"@ && a[6] == "16000"@
            &&& a[7] == "-ac"@ && a[8] == "1"@
            &&& a[9] == "-y"@ && a[10] == output
        }),
        ({
            let a = probe_args_of(path);
            &&& a.len() == 7
            &&& a[0] == "-v"@ && a[1] == "error"@
            &&& a[2] == "-show_entries"@ && a[3] == "format=duration"@
            &&& a[4] == "-of"@ && a[5] == "default=noprint_wrappers=1:nokey=1"@
            &&& a[6] == path
        }),
{
}

} // verus!
