use pick_up_sound_text::asr::dashscope_filetrans::oss_object_name;
use pick_up_sound_text::audio::file::{
    extract_args, probe_args, resolve_tool_in, segment_args, temp_wav_name, tool_dirs,
    tool_exe_name, tool_spawn_error, Platform, ToolCandidate,
};
use pick_up_sound_text::audio::{bytes_to_samples, samples_to_bytes, AudioChunk, FileAudioSource};
use pick_up_sound_text::error::Error;
use std::hash::{Hash, Hasher};
use std::path::Path;

#[test]
fn test_audio_chunk_creation() {
    let chunk = AudioChunk { pcm: vec![0; 1600], content_time_ms: 0, wall_time_ms: 0 };
    assert_eq!(chunk.pcm.len(), 1600);
    assert_eq!(chunk.content_time_ms, 0);
}

#[test]
fn oss_object_name_is_deterministic_per_audio() {
    let a = "/tmp/shiyane-abc.wav";
    assert_eq!(oss_object_name(a), oss_object_name(a));
    assert_ne!(oss_object_name(a), oss_object_name("/tmp/other.wav"));
    let n = oss_object_name(a);
    assert!(n.starts_with("shiyane-") && n.ends_with(".wav"));
}

#[test]
fn names_are_hashes_of_paths() {
    let path = Path::new("/tmp/shiyane-abc.wav");
    let mut hasher = std::collections::hash_map::DefaultHasher::new();
    path.hash(&mut hasher);
    assert_eq!(
        oss_object_name("/tmp/shiyane-abc.wav"),
        format!("shiyane-{:x}.wav", hasher.finish())
    );
}

#[test]
fn temp_wav_path_is_deterministic_per_video() {
    let temp = Path::new("/tmp");
    let a = "/movies/test.mp4";
    assert_eq!(temp_wav_name(a), temp_wav_name(a));
    assert_ne!(temp_wav_name(a), temp_wav_name("/movies/other.mp4"));
    let p = temp.join(temp_wav_name(a));
    assert_eq!(p.extension().and_then(|e| e.to_str()), Some("wav"));
    assert!(p.file_name().unwrap().to_str().unwrap().starts_with("shiyane-"));
}

fn candidate(path: &str, exists: bool) -> ToolCandidate {
    ToolCandidate { path: path.to_string(), exists }
}

#[test]
fn resolve_tool_prefers_bundled_then_common_dirs_then_path() {
    assert_eq!(
        resolve_tool_in(
            &vec![candidate("/bundled/ffmpeg", true), candidate("/homebrew/ffmpeg", true)],
            "ffmpeg"
        ),
        "/bundled/ffmpeg"
    );
    assert_eq!(
        resolve_tool_in(
            &vec![candidate("/empty/ffmpeg", false), candidate("/homebrew/ffmpeg", true)],
            "ffmpeg"
        ),
        "/homebrew/ffmpeg"
    );
    assert_eq!(
        resolve_tool_in(
            &vec![candidate("/empty/ffmpeg", false), candidate("/empty/ffmpeg", false)],
            "ffmpeg"
        ),
        "ffmpeg"
    );
}

#[test]
fn bundled_tool_name_has_exe_suffix_on_windows() {
    assert_eq!(tool_exe_name("ffmpeg", Platform::Windows), "ffmpeg.exe");
    assert_eq!(tool_exe_name("ffmpeg", Platform::MacOs), "ffmpeg");
    assert_eq!(tool_exe_name("ffmpeg", Platform::Other), "ffmpeg");
}

#[test]
fn tools_are_looked_for_where_they_usually_are() {
    assert_eq!(tool_dirs(Platform::MacOs), vec!["/opt/homebrew/bin", "/usr/local/bin"]);
    assert!(tool_dirs(Platform::Windows).is_empty());
    assert!(tool_dirs(Platform::Other).is_empty());
}

fn text(e: Error) -> String {
    match e {
        Error::AudioSource(m) => m,
        other => panic!("{:?}", other),
    }
}

#[test]
fn a_missing_tool_is_explained() {
    assert_eq!(
        text(tool_spawn_error("ffprobe", true, "", Platform::MacOs)),
        "未检测到 ffprobe。请安装后重试：brew install ffmpeg"
    );
    assert_eq!(
        text(tool_spawn_error("ffmpeg", true, "", Platform::Windows)),
        "未检测到 ffmpeg。应用自带的 ffmpeg 丢失，请重装本应用；或在系统 PATH 中安装 ffmpeg"
    );
    assert_eq!(
        text(tool_spawn_error("ffprobe", false, "denied", Platform::MacOs)),
        "ffprobe 执行失败: denied"
    );
}

#[test]
fn tools_get_their_arguments() {
    assert_eq!(
        probe_args("/v.mp4"),
        vec![
            "-v",
            "error",
            "-show_entries",
            "format=duration",
            "-of",
            "default=noprint_wrappers=1:nokey=1",
            "/v.mp4"
        ]
    );
    assert_eq!(
        segment_args("/v.mp4", "600.000", "605.000"),
        vec![
            "-ss", "600.000", "-i", "/v.mp4", "-t", "605.000", "-vn", "-acodec", "pcm_s16le",
            "-ar", "16000", "-ac", "1", "-f", "s16le", "-"
        ]
    );
    assert_eq!(
        extract_args("/v.mp4", "/tmp/o.wav"),
        vec![
            "-i", "/v.mp4", "-vn", "-acodec", "pcm_s16le", "-ar", "16000", "-ac", "1", "-y",
            "/tmp/o.wav"
        ]
    );
}

#[test]
fn samples_are_little_endian() {
    let pcm = [0i16, 1, -1, 256, -256, 32767, -32768, 12345];
    let bytes = samples_to_bytes(&pcm);
    let expected: Vec<u8> = pcm.iter().flat_map(|s| s.to_le_bytes()).collect();
    assert_eq!(bytes, expected);
    assert_eq!(bytes_to_samples(&bytes), pcm.to_vec());
    assert_eq!(bytes_to_samples(&[1, 0, 2]), vec![1]);
}

const SECOND: u128 = 1_000_000_000;

#[test]
fn files_are_read_in_overlapping_chunks() {
    let mut source = FileAudioSource::new(1300 * SECOND);
    assert!(source.supports_seek());
    assert_eq!(source.total_duration(), Some(1300 * SECOND));

    let plan = source.next_chunk().unwrap();
    assert_eq!((plan.start, plan.length), (0, 605 * SECOND));
    let chunk = source.chunk_extracted(&[1, 0, 255, 255]);
    assert_eq!(chunk.pcm, vec![1, -1]);
    assert_eq!(chunk.content_time_ms, 0);

    let plan = source.next_chunk().unwrap();
    assert_eq!((plan.start, plan.length), (600 * SECOND, 605 * SECOND));
    let chunk = source.chunk_extracted(&[]);
    assert_eq!(chunk.content_time_ms, 600_000);
    assert_eq!(chunk.wall_time_ms, 600_000);

    let plan = source.next_chunk().unwrap();
    assert_eq!((plan.start, plan.length), (1200 * SECOND, 100 * SECOND));
    source.chunk_extracted(&[]);
    assert_eq!(text(source.next_chunk().unwrap_err()), "End of file");
}

#[test]
fn files_can_be_sought_within() {
    let mut source = FileAudioSource::new(10 * SECOND);
    assert!(source.seek(7 * SECOND).is_ok());
    let plan = source.next_chunk().unwrap();
    assert_eq!((plan.start, plan.length), (7 * SECOND, 3 * SECOND));
    assert_eq!(
        text(source.seek(10 * SECOND + 1).unwrap_err()),
        "Seek position beyond file duration"
    );
    assert_eq!(source.next_chunk().unwrap().start, 7 * SECOND);
    assert!(source.seek(10 * SECOND).is_ok());
    assert!(source.next_chunk().is_err());
}
