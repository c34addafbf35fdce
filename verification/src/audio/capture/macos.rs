//! Capturing on macOS: what the targets mean and which programs are offered.

use crate::audio::capture::{
    lemma_pid_list_begins, list_microphone_targets, lower_case, merged_ids_read_back,
    microphone_targets, parse_pids, pid_list, pids_in, program_views, system_targets,
    target_views, targets_of_programs, to_lower, whole_system, whole_system_target, widened,
    CaptureTarget, TargetView,
};
use crate::error::Error;
use crate::text::{
    ascii_lower_spec, cat, cat3, is_ascii_text, split_spec, starts_with, starts_with_spec,
    strip_prefix, text_eq, texts, to_ascii_lower, trim, trim_spec,
};
use vstd::prelude::*;
use vstd::string::*;

verus! {

/// What of the system's audio is captured.
#[derive(Debug)]
pub enum SystemTarget {
    /// All of it.
    Everything,
    /// That of the programs with these ids.
    Programs(Vec<i32>),
}

/// What a target of the system's audio says.
pub enum SystemTargetView {
    Everything,
    Programs(Seq<i32>),
}

impl View for SystemTarget {
    type V = SystemTargetView;

    open spec fn view(&self) -> SystemTargetView {
        match *self {
            SystemTarget::Everything => SystemTargetView::Everything,
            SystemTarget::Programs(p) => SystemTargetView::Programs(p@),
        }
    }
}

/// What the id of a target of the system's audio means, or what is wrong with
/// it.
pub open spec fn system_target_of(id: Seq<char>) -> Result<SystemTargetView, Seq<char>> {
    if id == "system:all"@ {
        Ok(SystemTargetView::Everything)
    } else if starts_with_spec(id, "system:"@) {
        match pids_in(split_spec(id.skip("system:"@.len() as int), ',')) {
            Some(p) => Ok(SystemTargetView::Programs(p)),
            None => Err("无效的进程 ID: "@ + id),
        }
    } else {
        Err("未知的系统音频目标: "@ + id)
    }
}

/// Reads the id of a target of the system's audio.
pub fn read_system_target(id: &str) -> (r: Result<SystemTarget, Error>)
    ensures
        match r {
            Ok(t) => system_target_of(id@) == Ok::<SystemTargetView, Seq<char>>(t@),
            Err(e) => e is AudioSource && system_target_of(id@) == Err::<
                SystemTargetView,
                Seq<char>,
            >(e->AudioSource_0@),
        },
{
    if text_eq(id, "system:all") {
        return Ok(SystemTarget::Everything);
    }
    match strip_prefix(id, "system:") {
        Some(list) => match parse_pids(list.as_str()) {
            Some(p) => Ok(SystemTarget::Programs(p)),
            None => Err(Error::AudioSource(cat("无效的进程 ID: ", id))),
        },
        None => Err(Error::AudioSource(cat("未知的系统音频目标: ", id))),
    }
}

/// The positions among the first `n` at which the wanted ids stand.
pub open spec fn wanted_positions(running: Seq<i32>, wanted: Seq<i32>, n: int) -> Seq<usize>
    decreases n,
{
    if n <= 0 {
        Seq::empty()
    } else {
        let before = wanted_positions(running, wanted, n - 1);
        if wanted.contains(running[n - 1]) {
            before.push((n - 1) as usize)
        } else {
            before
        }
    }
}

fn contains_pid(list: &Vec<i32>, pid: i32) -> (r: bool)
    ensures
        r == list@.contains(pid),
{
    let mut i: usize = 0;
    while i < list.len()
        invariant
            i <= list.len(),
            forall|j: int| 0 <= j < i ==> list[j] != pid,
        decreases list.len() - i,
    {
        if list[i] == pid {
            return true;
        }
        i += 1;
    }
    false
}

/// The positions at which the wanted programs stand among the running ones.
/// `list` is the text of the wanted ids. At least one has to be running.
pub fn match_programs(running: &Vec<i32>, wanted: &Vec<i32>, list: &str) -> (r: Result<
    Vec<usize>,
    Error,
>)
    ensures
        match r {
            Ok(v) => v@ == wanted_positions(running@, wanted@, running@.len() as int) && v@.len()
                > 0,
            Err(e) => wanted_positions(running@, wanted@, running@.len() as int).len() == 0
                && e is AudioSource && e->AudioSource_0@ == "找不到进程 ID 为 "@ + list@
                + " 的应用"@,
        },
{
    let mut out: Vec<usize> = Vec::new();
    let mut i: usize = 0;
    while i < running.len()
        invariant
            i <= running.len(),
            out@ == wanted_positions(running@, wanted@, i as int),
        decreases running.len() - i,
    {
        if contains_pid(wanted, running[i]) {
            out.push(i);
        }
        i += 1;
    }
    if out.len() == 0 {
        Err(Error::AudioSource(cat3("找不到进程 ID 为 ", list, " 的应用")))
    } else {
        Ok(out)
    }
}

/// The microphone that the id of a target names.
pub fn microphone_name(id: &str) -> (r: Result<String, Error>)
    ensures
        match r {
            Ok(name) => starts_with_spec(id@, "mic:"@) && name@ == id@.skip(
                "mic:"@.len() as int,
            ),
            Err(e) => !starts_with_spec(id@, "mic:"@) && e is AudioSource && e->AudioSource_0@
                == "无效的麦克风目标 ID: "@ + id@,
        },
{
    match strip_prefix(id, "mic:") {
        Some(name) => Ok(name),
        None => Err(Error::AudioSource(cat("无效的麦克风目标 ID: ", id))),
    }
}

/// The position of the first device of the given name.
pub fn find_microphone(devices: &Vec<String>, name: &str) -> (r: Result<usize, Error>)
    ensures
        match r {
            Ok(i) => {
                &&& i < devices@.len()
                &&& devices@[i as int]@ == name@
                &&& forall|j: int| 0 <= j < i ==> (#[trigger] devices@[j])@ != name@
            },
            Err(e) => {
                &&& forall|j: int| 0 <= j < devices@.len() ==> (#[trigger] devices@[j])@ != name@
                &&& e is AudioSource
                &&& e->AudioSource_0@ == "找不到麦克风: "@ + name@
            },
        },
{
    let mut i: usize = 0;
    while i < devices.len()
        invariant
            i <= devices.len(),
            forall|j: int| 0 <= j < i ==> (#[trigger] devices@[j])@ != name@,
        decreases devices.len() - i,
    {
        if text_eq(devices[i].as_str(), name) {
            return Ok(i);
        }
        i += 1;
    }
    Err(Error::AudioSource(cat("找不到麦克风: ", name)))
}

/// How the capture of one target is started.
#[derive(Debug, Clone, Copy, PartialEq, Eq, Structural)]
pub enum StartKind {
    System,
    Microphone,
    /// Not at all: the target is unknown.
    Skip,
}

/// How the capture of one target is started.
pub open spec fn start_kind_of(id: Seq<char>) -> StartKind {
    if starts_with_spec(id, "system:"@) {
        StartKind::System
    } else if starts_with_spec(id, "mic:"@) {
        StartKind::Microphone
    } else {
        StartKind::Skip
    }
}

/// How the capture of one target is started.
pub fn start_kind(id: &str) -> (r: StartKind)
    ensures
        r == start_kind_of(id@),
{
    if starts_with(id, "system:") {
        StartKind::System
    } else if starts_with(id, "mic:") {
        StartKind::Microphone
    } else {
        StartKind::Skip
    }
}

/// The targets that are captured: the chosen ones, or everything that the
/// system plays where none was chosen.
pub fn targets_to_start(target_ids: &Vec<String>) -> (r: Vec<String>)
    ensures
        texts(r@) == if target_ids@.len() == 0 {
            seq!["system:all"@]
        } else {
            texts(target_ids@)
        },
{
    let mut out: Vec<String> = Vec::new();
    if target_ids.len() == 0 {
        out.push("system:all".to_owned());
        proof {
            assert(texts(out@) =~= seq!["system:all"@]);
        }
    } else {
        let mut i: usize = 0;
        while i < target_ids.len()
            invariant
                i <= target_ids.len(),
                out@ == target_ids@.take(i as int),
            decreases target_ids.len() - i,
        {
            out.push(target_ids[i].clone());
            i += 1;
        }
        proof {
            assert(target_ids@.take(target_ids@.len() as int) =~= target_ids@);
        }
    }
    out
}

/// A capture has begun where at least one stream was started.
pub fn check_started(streams: usize) -> (r: Result<(), Error>)
    ensures
        match r {
            Ok(()) => streams > 0,
            Err(e) => streams == 0 && e is AudioSource && e->AudioSource_0@
                == "没有成功启动任何音频采集源"@,
        },
{
    if streams == 0 {
        Err(Error::AudioSource("没有成功启动任何音频采集源".to_owned()))
    } else {
        Ok(())
    }
}

/// Whether a bundle, its id in lower case, is one of Apple's programs that can
/// be heard.
pub open spec fn is_apple_audio_app(bundle: Seq<char>) -> bool {
    ||| starts_with_spec(bundle, "com.apple.safari"@)
    ||| starts_with_spec(bundle, "com.apple.music"@)
    ||| starts_with_spec(bundle, "com.apple.podcasts"@)
    ||| starts_with_spec(bundle, "com.apple.tv"@)
    ||| starts_with_spec(bundle, "com.apple.quicktimeplayer"@)
    ||| starts_with_spec(bundle, "com.apple.facetime"@)
    ||| starts_with_spec(bundle, "com.apple.voicememos"@)
    ||| starts_with_spec(bundle, "com.apple.maps"@)
    ||| starts_with_spec(bundle, "com.apple.garageband"@)
    ||| starts_with_spec(bundle, "com.apple.logic"@)
}

/// Whether a program is left out of the list, given its name also without
/// white space at either end and in lower case: helpers that fill in forms,
/// this program, and Apple's programs that cannot be heard.
pub open spec fn is_noise_given(
    name: Seq<char>,
    name_lower: Seq<char>,
    bundle_id: Seq<char>,
    pid: i32,
    own_pid: i32,
) -> bool {
    let bundle = ascii_lower_spec(bundle_id);
    ||| starts_with_spec(name, "自动填充"@)
    ||| starts_with_spec(name_lower, "autofill"@)
    ||| pid == own_pid
    ||| bundle == "com.usongon.shiyane"@
    ||| starts_with_spec(bundle, "com.apple."@) && !is_apple_audio_app(bundle)
}

/// Whether a program is left out of the list.
pub open spec fn is_noise(name: Seq<char>, bundle_id: Seq<char>, pid: i32, own_pid: i32) -> bool {
    is_noise_given(name, lower_case(trim_spec(name)), bundle_id, pid, own_pid)
}

/// Whether a program is left out of the list, given its name also without
/// white space at either end and in lower case.
pub fn is_noise_name(
    name: &str,
    name_lower: &str,
    bundle_id: &str,
    pid: i32,
    own_pid: i32,
) -> (r: bool)
    ensures
        r == is_noise_given(name@, name_lower@, bundle_id@, pid, own_pid),
{
    if starts_with(name, "自动填充") || starts_with(name_lower, "autofill") {
        return true;
    }
    let bundle_lower = to_ascii_lower(bundle_id);
    let bundle: &str = bundle_lower.as_str();
    if pid == own_pid || text_eq(bundle, "com.usongon.shiyane") {
        return true;
    }
    if !starts_with(bundle, "com.apple.") {
        return false;
    }
    !(starts_with(bundle, "com.apple.safari") || starts_with(bundle, "com.apple.music")
        || starts_with(bundle, "com.apple.podcasts") || starts_with(bundle, "com.apple.tv")
        || starts_with(bundle, "com.apple.quicktimeplayer") || starts_with(
        bundle,
        "com.apple.facetime",
    ) || starts_with(bundle, "com.apple.voicememos") || starts_with(bundle, "com.apple.maps")
        || starts_with(bundle, "com.apple.garageband") || starts_with(bundle, "com.apple.logic"))
}

/// Whether a program is left out of the list.
pub fn is_noise_process(name: &str, bundle_id: &str, pid: i32, own_pid: i32) -> (r: bool)
    ensures
        r == is_noise(name@, bundle_id@, pid, own_pid),
        is_ascii_text(trim_spec(name@)) ==> r == is_noise_given(
            name@,
            ascii_lower_spec(trim_spec(name@)),
            bundle_id@,
            pid,
            own_pid,
        ),
{
    let trimmed = trim(name);
    let name_lower = to_lower(trimmed.as_str());
    is_noise_name(name, name_lower.as_str(), bundle_id, pid, own_pid)
}

/// A running program.
#[derive(Debug)]
pub struct RunningApp {
    pub name: String,
    pub bundle_id: String,
    pub pid: i32,
}

/// The running programs that are offered.
pub open spec fn offered_programs(apps: Seq<RunningApp>, own_pid: i32) -> Seq<(Seq<char>, i64)>
    decreases apps.len(),
{
    if apps.len() == 0 {
        Seq::empty()
    } else {
        let before = offered_programs(apps.drop_last(), own_pid);
        let a = apps.last();
        if a.name@.len() == 0 || is_noise(a.name@, a.bundle_id@, a.pid, own_pid) {
            before
        } else {
            before.push((a.name@, a.pid as i64))
        }
    }
}

/// Everything that can be captured: the microphones, all of the system's
/// audio, and, where they are known, the running programs, those of one name
/// together.
pub open spec fn offered_targets(
    microphones: Seq<Seq<char>>,
    apps: Option<Seq<RunningApp>>,
    own_pid: i32,
) -> Seq<TargetView> {
    microphone_targets(microphones).push(whole_system_target()) + (match apps {
        Some(a) => system_targets(offered_programs(a, own_pid)),
        None => Seq::empty(),
    })
}

/// The running programs that are offered.
fn offer_programs(apps: &Vec<RunningApp>, own_pid: i32) -> (r: Vec<(String, i64)>)
    ensures
        program_views(r@) == offered_programs(apps@, own_pid),
{
    let mut kept: Vec<(String, i64)> = Vec::new();
    let mut i: usize = 0;
    proof {
        assert(program_views(kept@) =~= offered_programs(apps@.take(0), own_pid));
    }
    while i < apps.len()
        invariant
            i <= apps.len(),
            program_views(kept@) == offered_programs(apps@.take(i as int), own_pid),
        decreases apps.len() - i,
    {
        let a = &apps[i];
        let ghost before = kept@;
        proof {
            assert(apps@.take(i + 1).drop_last() =~= apps@.take(i as int));
            assert(apps@.take(i + 1).last() == *a);
        }
        if !(a.name.as_str().is_empty() || is_noise_process(
            a.name.as_str(),
            a.bundle_id.as_str(),
            a.pid,
            own_pid,
        )) {
            kept.push((a.name.clone(), a.pid as i64));
            proof {
                assert(program_views(kept@) =~= program_views(before).push(
                    (a.name@, a.pid as i64),
                ));
            }
        }
        i += 1;
    }
    proof {
        assert(apps@.take(apps@.len() as int) =~= apps@);
    }
    kept
}

/// Lists everything that can be captured.
pub fn list_targets(
    microphones: &Vec<String>,
    apps: &Option<Vec<RunningApp>>,
    own_pid: i32,
) -> (r: Vec<CaptureTarget>)
    ensures
        target_views(r@) == offered_targets(
            texts(microphones@),
            match *apps {
                Some(a) => Some(a@),
                None => None,
            },
            own_pid,
        ),
{
    let mut out = list_microphone_targets(microphones);
    let ghost mics = target_views(out@);
    let whole = whole_system();
    out.push(whole);
    proof {
        assert(target_views(out@) =~= mics.push(whole@));
    }
    let ghost first = out@;
    match apps {
        Some(a) => {
            let mut more = targets_of_programs(offer_programs(a, own_pid));
            let ghost added = more@;
            out.append(&mut more);
            proof {
                assert(target_views(out@) =~= target_views(first) + target_views(added));
            }
        },
        None => {
            proof {
                assert(target_views(out@) =~= target_views(out@) + Seq::<TargetView>::empty());
            }
        },
    }
    out
}

/// The id of a target that merges programs of one name stands for all of them,
/// and one that still runs is found again by it.
pub proof fn offered_program_is_found(pids: Seq<i32>, running: Seq<i32>, i: int)
    requires
        0 <= i < running.len(),
        pids.contains(running[i]),
    ensures
        system_target_of("system:"@ + pid_list(widened(pids))) == Ok::<
            SystemTargetView,
            Seq<char>,
        >(SystemTargetView::Programs(pids)),
        wanted_positions(running, pids, running.len() as int).len() > 0,
{
    let list = pid_list(widened(pids));
    let id = "system:"@ + list;
    reveal_strlit("system:");
    reveal_strlit("system:all");
    merged_ids_read_back(pids);
    assert(id.skip("system:"@.len() as int) =~= list);
    assert(id.take("system:"@.len() as int) =~= "system:"@);
    assert(id != "system:all"@) by {
        lemma_pid_list_begins(widened(pids));
        assert(id[7] == list[0]);
        assert("system:all"@[7] == 'a');
    }
    lemma_wanted(running, pids, running.len() as int, i);
}

proof fn lemma_wanted(running: Seq<i32>, wanted: Seq<i32>, n: int, i: int)
    requires
        0 <= i < n <= running.len(),
        wanted.contains(running[i]),
    ensures
        wanted_positions(running, wanted, n).len() > 0,
    decreases n,
{
    if i < n - 1 {
        lemma_wanted(running, wanted, n - 1, i);
    }
}

/// The id of a target tells how it is captured: everything, the programs of a
/// list, a microphone by its name, or not at all.
pub proof fn ids_tell_how_to_capture(rest: Seq<char>)
    ensures
        system_target_of("system:all"@) == Ok::<SystemTargetView, Seq<char>>(
            SystemTargetView::Everything,
        ),
        start_kind_of("system:"@ + rest) == StartKind::System,
        start_kind_of("mic:"@ + rest) == StartKind::Microphone,
        !starts_with_spec(rest, "system:"@) && !starts_with_spec(rest, "mic:"@) ==> start_kind_of(
            rest,
        ) == StartKind::Skip,
{
    reveal_strlit("system:");
    reveal_strlit("mic:");
    let system = "system:"@ + rest;
    let mic = "mic:"@ + rest;
    assert(system.take("system:"@.len() as int) =~= "system:"@);
    assert(mic.take("mic:"@.len() as int) =~= "mic:"@);
    if starts_with_spec(mic, "system:"@) {
        assert(mic.take("system:"@.len() as int)[0] == mic[0]);
    }
}

/// The programs that are captured are exactly those that run and are wanted,
/// in the order in which they run.
pub proof fn wanted_programs_are_found(running: Seq<i32>, wanted: Seq<i32>, n: int)
    requires
        0 <= n <= running.len(),
        running.len() <= usize::MAX,
    ensures
        forall|i: int|
            0 <= i < n ==> (wanted_positions(running, wanted, n).contains(i as usize)
                <==> wanted.contains(#[trigger] running[i])),
        forall|k: int|
            0 <= k < wanted_positions(running, wanted, n).len() ==> (#[trigger] wanted_positions(
                running,
                wanted,
                n,
            )[k]) < n,
        forall|j: int, k: int|
            0 <= j < k < wanted_positions(running, wanted, n).len() ==> (
            #[trigger] wanted_positions(running, wanted, n)[j]) < (#[trigger] wanted_positions(
                running,
                wanted,
                n,
            )[k]),
    decreases n,
{
    if n > 0 {
        wanted_programs_are_found(running, wanted, n - 1);
        let before = wanted_positions(running, wanted, n - 1);
        let after = wanted_positions(running, wanted, n);
        assert forall|i: int| 0 <= i < n implies (after.contains(i as usize) <==> wanted.contains(
            #[trigger] running[i],
        )) by {
            if i < n - 1 {
                if before.contains(i as usize) {
                    let k = choose|k: int| 0 <= k < before.len() && before[k] == i as usize;
                    assert(after[k] == i as usize);
                }
                if after.contains(i as usize) {
                    let k = choose|k: int| 0 <= k < after.len() && after[k] == i as usize;
                    assert(before[k] == i as usize);
                }
            } else if wanted.contains(running[n - 1]) {
                assert(after[before.len() as int] == i as usize);
            } else if after.contains(i as usize) {
                let k = choose|k: int| 0 <= k < after.len() && after[k] == i as usize;
                assert(before[k] < n - 1);
            }
        }
    }
}

/// A running program is offered under its name, in order, unless it has no
/// name or is left out.
pub proof fn running_programs_are_offered(apps: Seq<RunningApp>, a: RunningApp, own_pid: i32)
    ensures
        offered_programs(Seq::<RunningApp>::empty(), own_pid).len() == 0,
        a.name@.len() > 0 && !is_noise(a.name@, a.bundle_id@, a.pid, own_pid)
            ==> offered_programs(apps.push(a), own_pid) == offered_programs(apps, own_pid).push(
            (a.name@, a.pid as i64),
        ),
        a.name@.len() == 0 || is_noise(a.name@, a.bundle_id@, a.pid, own_pid)
            ==> offered_programs(apps.push(a), own_pid) == offered_programs(apps, own_pid),
{
    assert(apps.push(a).drop_last() =~= apps);
}

/// What is offered begins with the microphones, goes on with all that the
/// system plays, and ends with the programs where they are known.
pub proof fn microphones_come_first(
    microphones: Seq<Seq<char>>,
    apps: Seq<RunningApp>,
    own_pid: i32,
)
    ensures
        ({
            let n = microphone_targets(microphones).len() as int;
            let known = offered_targets(microphones, Some(apps), own_pid);
            let unknown = offered_targets(microphones, None, own_pid);
            &&& unknown.len() == n + 1
            &&& unknown.take(n) == microphone_targets(microphones)
            &&& unknown[n].id == "system:all"@ && unknown[n].name == "系统音频（全部）"@
            &&& known.take(n + 1) == unknown
            &&& known.skip(n + 1) == system_targets(offered_programs(apps, own_pid))
        }),
{
    let n = microphone_targets(microphones).len() as int;
    let known = offered_targets(microphones, Some(apps), own_pid);
    let unknown = offered_targets(microphones, None, own_pid);
    assert(unknown.take(n) =~= microphone_targets(microphones));
    assert(known.take(n + 1) =~= unknown);
    assert(known.skip(n + 1) =~= system_targets(offered_programs(apps, own_pid)));
}

/// A program is left out where it fills in forms, where it is this one, and
/// where it is one of Apple's that cannot be heard; no other is.
pub proof fn programs_are_left_out_for_a_reason(
    name: Seq<char>,
    name_lower: Seq<char>,
    bundle_id: Seq<char>,
    pid: i32,
    own_pid: i32,
)
    ensures
        starts_with_spec(name, "自动填充"@) || starts_with_spec(name_lower, "autofill"@)
            ==> is_noise_given(name, name_lower, bundle_id, pid, own_pid),
        pid == own_pid ==> is_noise_given(name, name_lower, bundle_id, pid, own_pid),
        ascii_lower_spec(bundle_id) == "com.usongon.shiyane"@ ==> is_noise_given(
            name,
            name_lower,
            bundle_id,
            pid,
            own_pid,
        ),
        is_noise_given(name, name_lower, bundle_id, pid, own_pid) && pid != own_pid
            && ascii_lower_spec(bundle_id) != "com.usongon.shiyane"@ && !starts_with_spec(
            name,
            "自动填充"@,
        ) && !starts_with_spec(name_lower, "autofill"@) ==> starts_with_spec(
            ascii_lower_spec(bundle_id),
            "com.apple."@,
        ),
        starts_with_spec(ascii_lower_spec(bundle_id), "com.apple."@) && !(starts_with_spec(
            ascii_lower_spec(bundle_id),
            "com.apple.safari"@,
        ) || starts_with_spec(ascii_lower_spec(bundle_id), "com.apple.music"@) || starts_with_spec(
            ascii_lower_spec(bundle_id),
            "com.apple.podcasts"@,
        ) || starts_with_spec(ascii_lower_spec(bundle_id), "com.apple.tv"@) || starts_with_spec(
            ascii_lower_spec(bundle_id),
            "com.apple.quicktimeplayer"@,
        ) || starts_with_spec(ascii_lower_spec(bundle_id), "com.apple.facetime"@)
            || starts_with_spec(ascii_lower_spec(bundle_id), "com.apple.voicememos"@)
            || starts_with_spec(ascii_lower_spec(bundle_id), "com.apple.maps"@)
            || starts_with_spec(ascii_lower_spec(bundle_id), "com.apple.garageband"@)
            || starts_with_spec(ascii_lower_spec(bundle_id), "com.apple.logic"@))
            ==> is_noise_given(name, name_lower, bundle_id, pid, own_pid),
{
}

/// A list of ids that cannot be read, and an id of another kind, is refused by
/// name.
pub proof fn unreadable_ids_are_refused(list: Seq<char>, id: Seq<char>)
    ensures
        list != "all"@ && pids_in(split_spec(list, ',')) is None ==> system_target_of(
            "system:"@ + list,
        ) == Err::<SystemTargetView, Seq<char>>("无效的进程 ID: "@ + ("system:"@ + list)),
        list != "all"@ && pids_in(split_spec(list, ',')) is Some ==> system_target_of(
            "system:"@ + list,
        ) == Ok::<SystemTargetView, Seq<char>>(
            SystemTargetView::Programs(pids_in(split_spec(list, ','))->0),
        ),
        id != "system:all"@ && !starts_with_spec(id, "system:"@) ==> system_target_of(id) == Err::<
            SystemTargetView,
            Seq<char>,
        >("未知的系统音频目标: "@ + id),
{
    reveal_strlit("system:");
    reveal_strlit("system:all");
    reveal_strlit("all");
    let whole = "system:"@ + list;
    assert(whole.take("system:"@.len() as int) =~= "system:"@);
    assert(whole.skip("system:"@.len() as int) =~= list);
    if whole == "system:all"@ {
        assert("system:all"@.skip("system:"@.len() as int) =~= "all"@);
    }
}

/// A target of the system's audio says what it holds.
pub proof fn system_targets_say_what_they_hold(pids: Vec<i32>)
    ensures
        SystemTarget::Everything@ == SystemTargetView::Everything,
        SystemTarget::Programs(pids)@ == SystemTargetView::Programs(pids@),
{
}

} // verus!
