use pick_up_sound_text::audio::capture::macos;
use pick_up_sound_text::audio::capture::macos::{
    is_noise_name, is_noise_process, RunningApp, StartKind, SystemTarget,
};
use pick_up_sound_text::audio::capture::windows;
use pick_up_sound_text::audio::capture::windows::device::{
    caller_thread_com, check_mix_format, microphone_missing, mix_format_is_float, BufferInfo,
    CaptureLoop, LoopAction, LoopStage, MilliClock, MixFormat, SUBTYPE_IEEE_FLOAT,
};
use pick_up_sound_text::audio::capture::windows::process::{
    activation_outcome, activation_timeout, process_mix_format, process_tag, write_hresult,
    Activation,
};
use pick_up_sound_text::audio::capture::windows::session::{
    enumerate_audio_sessions, process_exe_name, SessionInfo,
};
use pick_up_sound_text::audio::capture::windows::StartPlan;
use pick_up_sound_text::audio::capture::{
    build_system_targets, capitalise, friendly_name_from_exe, group_pids_by_name, is_noise_session,
    list_microphone_targets, parse_pids, take_blocks, targets_of_sessions, CaptureKind,
    NamedSession, SampleClock,
    TARGET_SAMPLE_RATE,
};
use pick_up_sound_text::error::Error;

fn audio_error<T>(r: Result<T, Error>) -> String {
    match r {
        Err(Error::AudioSource(m)) => m,
        Err(e) => panic!("unexpected error {:?}", e),
        Ok(_) => panic!("expected an error"),
    }
}

#[test]
fn merges_same_name_pids() {
    let groups = group_pids_by_name(vec![
        ("微信".to_string(), 2120),
        ("Chrome".to_string(), 300),
        ("微信".to_string(), 10804),
    ]);
    assert_eq!(groups.len(), 2);
    assert_eq!(groups[0], ("微信".to_string(), vec![2120, 10804]));
    assert_eq!(groups[1], ("Chrome".to_string(), vec![300]));
}

const SELF_PID: u32 = 42;

#[test]
fn noise_exes_filtered() {
    assert!(is_noise_session("audiodg.exe", 1, SELF_PID));
    assert!(is_noise_session("svchost.exe", 2, SELF_PID));
    assert!(!is_noise_session("chrome.exe", 3, SELF_PID));
}

#[test]
fn every_system_exe_is_noise() {
    for exe in [
        "audiodg.exe",
        "svchost.exe",
        "csrss.exe",
        "dwm.exe",
        "runtimebroker.exe",
        "applicationframehost.exe",
        "searchhost.exe",
        "startmenuexperiencehost.exe",
        "shellexperiencehost.exe",
        "sihost.exe",
        "taskhostw.exe",
        "ctfmon.exe",
        "conhost.exe",
        "fontdrvhost.exe",
        "wudfhost.exe",
    ] {
        assert!(is_noise_session(exe, 1, SELF_PID));
    }
    assert!(!is_noise_session("Audiodg.exe", 1, SELF_PID));
}

#[test]
fn own_pid_filtered() {
    assert!(is_noise_session("shiyane.exe", SELF_PID, SELF_PID));
}

#[test]
fn exe_name_to_friendly() {
    assert_eq!(friendly_name_from_exe("chrome.exe"), "Chrome");
    assert_eq!(friendly_name_from_exe("cloudmusic.exe"), "Cloudmusic");
    assert_eq!(friendly_name_from_exe("QQ"), "QQ");
}

#[test]
fn friendly_names_of_unusual_files() {
    assert_eq!(friendly_name_from_exe(".exe"), "");
    assert_eq!(friendly_name_from_exe(""), "");
    assert_eq!(friendly_name_from_exe("ßeta.exe"), "SSeta");
    assert_eq!(friendly_name_from_exe("été.exe"), "Été");
    assert_eq!(friendly_name_from_exe("a.EXE"), "A.EXE");
}

#[test]
fn build_targets_merges_and_filters() {
    let targets = build_system_targets(
        vec![
            (100, "chrome.exe".to_string()),
            (200, "chrome.exe".to_string()),
            (300, "audiodg.exe".to_string()),
            (SELF_PID, "shiyane.exe".to_string()),
        ],
        SELF_PID,
    );
    assert_eq!(targets.len(), 1);
    assert_eq!(targets[0].id, "system:100,200");
    assert_eq!(targets[0].name, "Chrome");
}

#[test]
fn noise_is_told_in_any_case() {
    let targets = build_system_targets(
        vec![
            (1, "AudioDG.exe".to_string()),
            (2, "DWM.EXE".to_string()),
            (3, ".exe".to_string()),
            (4, "Player.exe".to_string()),
        ],
        SELF_PID,
    );
    assert_eq!(targets.len(), 1);
    assert_eq!(targets[0].id, "system:4");
    assert_eq!(targets[0].name, "Player");
    assert_eq!(targets[0].kind, CaptureKind::SystemAudio);
    assert_eq!(targets[0].icon_path, None);
}

const OWN_PID: i32 = 42;

#[test]
fn filters_autofill_helpers() {
    assert!(is_noise_process("自动填充 (Qoder)", "com.qoder.app", 1, OWN_PID));
    assert!(is_noise_process("自动填充 (微信)", "com.tencent.xinWeChat", 2, OWN_PID));
    assert!(is_noise_process("AutoFill(FlClash)", "com.follow.clash", 3, OWN_PID));
    assert!(is_noise_process("Autofill (Chrome)", "com.google.Chrome", 4, OWN_PID));
}

#[test]
fn filters_self() {
    assert!(is_noise_process("拾言", "com.usongon.shiyane", OWN_PID, OWN_PID));
    assert!(is_noise_process("Shiyane Helper", "com.usongon.shiyane", 50, OWN_PID));
}

#[test]
fn filters_apple_system_processes() {
    assert!(is_noise_process(
        "UserNotificationCenter",
        "com.apple.usernotifications.agent",
        7,
        OWN_PID
    ));
    assert!(is_noise_process("MenuBarAgent", "com.apple.menuagent", 8, OWN_PID));
    assert!(is_noise_process("CursorUIViewService", "com.apple.CursorUIService", 9, OWN_PID));
    assert!(is_noise_process("系统设置", "com.apple.systempreferences", 10, OWN_PID));
}

#[test]
fn keeps_audio_capable_apps() {
    assert!(!is_noise_process("Safari", "com.apple.Safari", 11, OWN_PID));
    assert!(!is_noise_process("音乐", "com.apple.Music", 12, OWN_PID));
    assert!(!is_noise_process("QuickTime Player", "com.apple.QuickTimePlayer", 13, OWN_PID));
    assert!(!is_noise_process("GarageBand", "com.apple.garageband10", 14, OWN_PID));
}

#[test]
fn keeps_third_party_apps() {
    assert!(!is_noise_process("微信", "com.tencent.xinWeChat", 15, OWN_PID));
    assert!(!is_noise_process("Google Chrome", "com.google.Chrome", 16, OWN_PID));
}

#[test]
fn helpers_are_told_with_space_in_front() {
    assert!(is_noise_process("  AUTOFILL x", "com.example", 1, OWN_PID));
    assert!(!is_noise_process(" 自动填充", "com.example", 1, OWN_PID));
    assert!(is_noise_process("x", "COM.Usongon.Shiyane", 1, OWN_PID));
}

#[test]
fn merged_ids_are_read_back() {
    let targets = build_system_targets(
        vec![(7, "a.exe".to_string()), (2147483647, "a.exe".to_string())],
        0,
    );
    assert_eq!(targets[0].id, "system:7,2147483647");
    match macos::read_system_target(&targets[0].id).unwrap() {
        SystemTarget::Programs(p) => assert_eq!(p, vec![7, 2147483647]),
        other => panic!("{:?}", other),
    }
    match windows::start_plan(&targets[0].id) {
        StartPlan::Programs { pids, failure } => {
            assert_eq!(pids, vec![7, 2147483647]);
            assert!(failure.is_none());
        }
        other => panic!("{:?}", other),
    }
}

#[test]
fn pid_lists_are_numbers_with_commas() {
    assert_eq!(parse_pids("1,-2,+3"), Some(vec![1, -2, 3]));
    assert_eq!(parse_pids(""), None);
    assert_eq!(parse_pids("1,,2"), None);
    assert_eq!(parse_pids("2147483648"), None);
    assert_eq!(parse_pids("-2147483648"), Some(vec![-2147483648]));
    assert_eq!(parse_pids(" 1"), None);
}

#[test]
fn system_targets_are_read_on_macos() {
    assert!(matches!(macos::read_system_target("system:all"), Ok(SystemTarget::Everything)));
    assert_eq!(
        audio_error(macos::read_system_target("system:x")),
        "无效的进程 ID: system:x"
    );
    assert_eq!(audio_error(macos::read_system_target("mic:a")), "未知的系统音频目标: mic:a");
    assert_eq!(
        macos::match_programs(&vec![5, 6, 7, 6], &vec![6, 9], "6,9").unwrap(),
        vec![1, 3]
    );
    assert_eq!(
        audio_error(macos::match_programs(&vec![5], &vec![6, 9], "6,9")),
        "找不到进程 ID 为 6,9 的应用"
    );
}

#[test]
fn microphones_are_found_by_name_on_macos() {
    assert_eq!(macos::microphone_name("mic:内置").unwrap(), "内置");
    assert_eq!(audio_error(macos::microphone_name("x:y")), "无效的麦克风目标 ID: x:y");
    let devices = vec!["a".to_string(), "b".to_string(), "b".to_string()];
    assert_eq!(macos::find_microphone(&devices, "b").unwrap(), 1);
    assert_eq!(audio_error(macos::find_microphone(&devices, "c")), "找不到麦克风: c");
}

#[test]
fn captures_begin_on_macos() {
    assert_eq!(macos::start_kind("system:1"), StartKind::System);
    assert_eq!(macos::start_kind("mic:x"), StartKind::Microphone);
    assert_eq!(macos::start_kind("other"), StartKind::Skip);
    assert_eq!(macos::targets_to_start(&vec![]), vec!["system:all"]);
    assert_eq!(macos::targets_to_start(&vec!["mic:a".to_string()]), vec!["mic:a"]);
    assert!(macos::check_started(1).is_ok());
    assert_eq!(audio_error(macos::check_started(0)), "没有成功启动任何音频采集源");
}

#[test]
fn targets_are_listed_on_macos() {
    let app = |name: &str, bundle: &str, pid: i32| RunningApp {
        name: name.to_string(),
        bundle_id: bundle.to_string(),
        pid,
    };
    let apps = vec![
        app("微信", "com.tencent.xinWeChat", 1),
        app("", "com.nameless", 2),
        app("Safari", "com.apple.Safari", 3),
        app("微信", "com.tencent.helper", 4),
        app("系统设置", "com.apple.systempreferences", 5),
    ];
    let mics = vec!["Mic".to_string(), "".to_string()];
    let targets = macos::list_targets(&mics, &Some(apps), OWN_PID);
    let ids: Vec<&str> = targets.iter().map(|t| t.id.as_str()).collect();
    assert_eq!(ids, vec!["mic:Mic", "system:all", "system:1,4", "system:3"]);
    let names: Vec<&str> = targets.iter().map(|t| t.name.as_str()).collect();
    assert_eq!(names, vec!["Mic", "系统音频（全部）", "微信", "Safari"]);
    assert_eq!(macos::list_targets(&mics, &None, OWN_PID).len(), 2);
}

#[test]
fn targets_are_listed_on_windows() {
    let targets = windows::list_targets(
        &vec!["Mic".to_string()],
        vec![(9, "vlc.exe".to_string()), (SELF_PID, "shiyane.exe".to_string())],
        SELF_PID,
    );
    let ids: Vec<&str> = targets.iter().map(|t| t.id.as_str()).collect();
    assert_eq!(ids, vec!["mic:Mic", "system:all", "system:9"]);
    assert_eq!(targets[0].kind, CaptureKind::Microphone);
    assert_eq!(targets[1].kind, CaptureKind::SystemAudio);
}

#[test]
fn microphones_without_a_name_are_left_out() {
    let targets = list_microphone_targets(&vec!["".to_string(), "b".to_string()]);
    assert_eq!(targets.len(), 1);
    assert_eq!(targets[0].id, "mic:b");
    assert_eq!(targets[0].name, "b");
}

#[test]
fn captures_begin_on_windows() {
    assert_eq!(audio_error(windows::check_targets(&vec![])), "未选择任何音源");
    assert!(windows::check_targets(&vec!["mic:x".to_string()]).is_ok());
    match windows::start_plan("mic:内置") {
        StartPlan::Microphone(n) => assert_eq!(n, "内置"),
        other => panic!("{:?}", other),
    }
    assert!(matches!(windows::start_plan("system:all"), StartPlan::Everything));
    match windows::start_plan("system:1,2,x,3") {
        StartPlan::Programs { pids, failure: Some(Error::AudioSource(m)) } => {
            assert_eq!(pids, vec![1, 2]);
            assert_eq!(m, "非法音源 id: system:1,2,x,3");
        }
        other => panic!("{:?}", other),
    }
    match windows::start_plan("system:-5") {
        StartPlan::Programs { pids, failure } => {
            assert!(pids.is_empty());
            assert!(failure.is_some());
        }
        other => panic!("{:?}", other),
    }
    match windows::start_plan("speaker") {
        StartPlan::Unknown(Error::AudioSource(m)) => {
            assert_eq!(m, "无法识别的音源 id: speaker")
        }
        other => panic!("{:?}", other),
    }
}

#[test]
fn sessions_that_play_are_listed() {
    let info = |active: bool, pid: u32, path: Option<&str>| SessionInfo {
        active,
        pid,
        image_path: path.map(|p| p.to_string()),
    };
    let sessions = enumerate_audio_sessions(&vec![
        info(true, 10, Some("C:\\Program Files\\App\\app.exe")),
        info(false, 11, Some("C:\\b.exe")),
        info(true, 0, Some("C:\\c.exe")),
        info(true, 12, None),
        info(true, 13, Some("d.exe")),
    ]);
    assert_eq!(sessions, vec![(10, "app.exe".to_string()), (13, "d.exe".to_string())]);
    assert_eq!(process_exe_name("a/b\\c"), "c");
    assert_eq!(process_exe_name("a/"), "");
    assert_eq!(process_exe_name(""), "");
}

#[test]
fn formats_are_checked_on_windows() {
    let format = |tag: u16, channels: u16, rate: u32, sub_format: u128| MixFormat {
        tag,
        channels,
        rate,
        sub_format,
    };
    assert!(check_mix_format("t", &format(3, 2, 48000, 0)).is_ok());
    assert!(check_mix_format("t", &format(0xfffe, 2, 48000, SUBTYPE_IEEE_FLOAT)).is_ok());
    assert_eq!(
        audio_error(check_mix_format("t", &format(0xfffe, 2, 48000, 1))),
        "[t] mix format 非 f32（tag=65534），不支持"
    );
    assert_eq!(
        audio_error(check_mix_format("t", &format(1, 0, 44100, 0))),
        "[t] 无效 mix format（channels=0, rate=44100）"
    );
    assert!(!mix_format_is_float(&format(1, 2, 48000, SUBTYPE_IEEE_FLOAT)));
    assert!(mix_format_is_float(&process_mix_format()));
    assert_eq!(process_mix_format().rate, 48000);
    match microphone_missing("x") {
        Error::AudioSource(m) => assert_eq!(m, "未找到麦克风 x"),
        other => panic!("{:?}", other),
    }
    assert!(caller_thread_com("t", Ok(())).is_ok());
    assert_eq!(
        audio_error(caller_thread_com("麦克风枚举", Err("e".to_string()))),
        "[麦克风枚举] CoInitializeEx(MTA) 失败: e（音频捕获需在 MTA 线程初始化）"
    );
}

#[test]
fn activations_end_in_a_client_or_an_error() {
    assert!(activation_outcome(&Activation::Result { code: 0, client: true }).is_ok());
    assert_eq!(
        audio_error(activation_outcome(&Activation::Result { code: -2147024894, client: false })),
        "进程 loopback 激活失败: hr=0x80070002"
    );
    assert_eq!(
        audio_error(activation_outcome(&Activation::Result { code: 1, client: false })),
        "激活成功（hr=0x00000001）但未取得 IAudioClient"
    );
    assert_eq!(
        audio_error(activation_outcome(&Activation::NoOperation("x".to_string()))),
        "ActivateCompleted 收到空 operation: x"
    );
    assert_eq!(
        audio_error(activation_outcome(&Activation::NoResult("x".to_string()))),
        "GetActivateResult 失败: x"
    );
    assert_eq!(write_hresult(-1), "0xffffffff");
    assert_eq!(write_hresult(-2147024894), format!("{:#010x}", -2147024894i32));
    assert_eq!(process_tag(77), "进程 77 loopback");
    match activation_timeout("t", true) {
        Error::AudioSource(m) => assert_eq!(m, "[t] 激活超时（5s, timed_out=true）"),
        other => panic!("{:?}", other),
    }
}

#[test]
fn the_capturing_loop_empties_the_buffer() {
    let (mut l, first) = CaptureLoop::new(2);
    let mut clock = MilliClock { millis: 0 };
    assert!(matches!(first, LoopAction::Wait));
    assert!(matches!(l.waited(false), LoopAction::QueryPadding));
    assert!(matches!(l.padding(Some(0)), LoopAction::Wait));
    l.waited(false);
    assert!(matches!(l.padding(Some(480)), LoopAction::GetBuffer));
    match l.fetched(Some(BufferInfo { frames: 480, flags: 2, empty: false })) {
        LoopAction::Convert { samples, silent } => {
            assert_eq!(samples, 960);
            assert!(silent);
        }
        other => panic!("{:?}", other),
    }
    match l.converted(vec![0; 320], &mut clock, 99) {
        LoopAction::Send(chunk) => {
            assert_eq!(chunk.pcm.len(), 320);
            assert_eq!(chunk.content_time_ms, 0);
            assert_eq!(chunk.wall_time_ms, 99);
        }
        other => panic!("{:?}", other),
    }
    assert_eq!(clock.millis, 20);
    assert!(matches!(l.sent(true), LoopAction::Release { frames: 480 }));
    assert!(matches!(l.released(true), LoopAction::Wait));

    l.waited(false);
    l.padding(Some(1));
    match l.fetched(Some(BufferInfo { frames: 1, flags: 1, empty: false })) {
        LoopAction::Convert { silent, .. } => assert!(!silent),
        other => panic!("{:?}", other),
    }
    assert!(matches!(l.converted(vec![], &mut clock, 0), LoopAction::Release { frames: 1 }));
    assert_eq!(clock.millis, 20);
    assert!(matches!(l.released(true), LoopAction::Wait));

    l.waited(false);
    l.padding(Some(1));
    l.fetched(Some(BufferInfo { frames: 1, flags: 0, empty: true }));
    l.converted(vec![1], &mut clock, 0);
    assert!(matches!(l.sent(false), LoopAction::Release { .. }));
    assert!(matches!(l.released(true), LoopAction::Exit));
    assert_eq!(l.stage, LoopStage::Over);
}

#[test]
fn the_capturing_loop_ends_where_asked_or_failed() {
    let (mut l, _) = CaptureLoop::new(1);
    assert!(matches!(l.waited(true), LoopAction::Exit));
    let (mut l, _) = CaptureLoop::new(1);
    l.waited(false);
    assert!(matches!(l.padding(None), LoopAction::Exit));
    let (mut l, _) = CaptureLoop::new(1);
    l.waited(false);
    l.padding(Some(1));
    assert!(matches!(l.fetched(None), LoopAction::Exit));
}

#[test]
fn samples_wait_until_a_block_is_whole() {
    let mut pending: Vec<f32> = vec![];
    assert!(take_blocks(&mut pending, &[0.1, 0.2], 3).is_empty());
    assert_eq!(pending, vec![0.1, 0.2]);
    let blocks = take_blocks(&mut pending, &[0.3, 0.4, 0.5, 0.6, 0.7], 3);
    assert_eq!(blocks, vec![vec![0.1, 0.2, 0.3], vec![0.4, 0.5, 0.6]]);
    assert_eq!(pending, vec![0.7]);
}

#[test]
fn samples_are_counted_at_sixteen_kilohertz() {
    assert_eq!(TARGET_SAMPLE_RATE, 16000);
    let mut clock = SampleClock::new();
    assert_eq!(clock.stamp(1600), 0);
    assert_eq!(clock.stamp(8), 100);
    assert_eq!(clock.stamp(8), 100);
    assert_eq!(clock.stamp(1), 101);
    assert_eq!(clock.samples, 1617);
}

#[test]
fn kinds_have_names() {
    assert_eq!(CaptureKind::SystemAudio.as_str(), "system_audio");
    assert_eq!(CaptureKind::Microphone.as_str(), "microphone");
}

#[test]
fn large_ids_are_offered_as_they_are_and_start() {
    let targets = build_system_targets(
        vec![
            (3_000_000_000, "chrome.exe".to_string()),
            (u32::MAX, "chrome.exe".to_string()),
            (7, "chrome.exe".to_string()),
        ],
        42,
    );
    assert_eq!(targets.len(), 1);
    assert_eq!(targets[0].name, "Chrome");
    assert_eq!(targets[0].id, "system:3000000000,4294967295,7");
    match windows::start_plan(&targets[0].id) {
        StartPlan::Programs { pids, failure: None } => {
            assert_eq!(pids, vec![3_000_000_000, u32::MAX, 7])
        }
        other => panic!("{:?}", other),
    }
}

#[test]
fn sessions_are_chosen_by_their_lowered_files() {
    let session = |pid: u32, name: &str, exe: &str| NamedSession {
        pid,
        name: name.to_string(),
        exe_lower: exe.to_string(),
    };
    let targets = targets_of_sessions(
        &vec![
            session(1, "Écran", "écran.exe"),
            session(2, "Audiodg", "audiodg.exe"),
            session(3, "", ".exe"),
            session(42, "Own", "own.exe"),
            session(4, "Écran", "écran.exe"),
        ],
        42,
    );
    assert_eq!(targets.len(), 1);
    assert_eq!(targets[0].id, "system:1,4");
    assert_eq!(capitalise("écran.exe", "É"), "Écran");
    assert_eq!(capitalise(".exe", "X"), "");
    assert_eq!(friendly_name_from_exe("écran.exe"), "Écran");
    assert_eq!(friendly_name_from_exe("ß"), "SS");
}

#[test]
fn helpers_are_told_by_their_lowered_names() {
    assert!(is_noise_name("ÀUTOFILL", "autofill", "com.x", 1, 2));
    assert!(!is_noise_name("ÀUTOFILL", "àutofill", "com.x", 1, 2));
    assert!(is_noise_name("x", "x", "com.apple.dock", 1, 2));
    assert!(!is_noise_process("ÀUTOFILL", "com.x", 1, 2));
}

#[test]
fn packets_of_any_size_give_the_same_blocks() {
    let samples: Vec<i32> = (0..20).collect();
    let mut whole = vec![-1];
    let all = take_blocks(&mut whole, &samples, 4);
    for cut in 0..=samples.len() {
        let mut pending = vec![-1];
        let mut blocks = take_blocks(&mut pending, &samples[..cut], 4);
        blocks.extend(take_blocks(&mut pending, &samples[cut..], 4));
        assert_eq!(blocks, all);
        assert_eq!(pending, whole);
    }
    assert_eq!(all.len(), 5);
    assert_eq!(whole, vec![19]);
}

#[test]
fn milliseconds_are_counted_to_the_end() {
    let mut clock = MilliClock { millis: i64::MAX - 100 };
    assert_eq!(clock.stamp(1600), i64::MAX - 100);
    assert_eq!(clock.millis, i64::MAX);
    assert_eq!(clock.stamp(15), i64::MAX);
    assert_eq!(clock.millis, i64::MAX);
}
