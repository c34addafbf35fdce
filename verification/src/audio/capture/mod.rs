//! Capturing what the system plays and what a microphone hears.

pub mod macos;
pub mod windows;

use crate::text::{
    ascii_lower_spec, cat, decimal, ends_with_spec, from_chars, i64_to_decimal, is_ascii_text, join,
    join_spec, lemma_decimal_reads_back, lemma_join_splits_back, opt_text, parse_i32,
    parse_i32_spec, split, split_spec, strip_suffix, text_eq, texts, to_chars,
};
use vstd::prelude::*;
use vstd::string::*;

verus! {

/// The rate of the captured samples, in hertz.
pub const TARGET_SAMPLE_RATE: u32 = 16000;

/// Something that can be captured.
#[derive(Debug)]
pub struct CaptureTarget {
    pub id: String,
    pub name: String,
    pub kind: CaptureKind,
    pub icon_path: Option<String>,
}

/// What is captured.
#[derive(Debug, Clone, Copy, PartialEq, Eq, Structural)]
pub enum CaptureKind {
    SystemAudio,
    Microphone,
}

/// The texts of a [`CaptureTarget`].
pub struct TargetView {
    pub id: Seq<char>,
    pub name: Seq<char>,
    pub kind: CaptureKind,
    pub icon_path: Option<Seq<char>>,
}

impl View for CaptureTarget {
    type V = TargetView;

    open spec fn view(&self) -> TargetView {
        TargetView {
            id: self.id@,
            name: self.name@,
            kind: self.kind,
            icon_path: opt_text(self.icon_path),
        }
    }
}

/// The texts of targets.
pub open spec fn target_views(v: Seq<CaptureTarget>) -> Seq<TargetView> {
    v.map_values(|t: CaptureTarget| t@)
}

/// The names under which a kind is reported.
pub open spec fn kind_name(kind: CaptureKind) -> Seq<char> {
    match kind {
        CaptureKind::SystemAudio => "system_audio"@,
        CaptureKind::Microphone => "microphone"@,
    }
}

impl CaptureKind {
    /// The name under which this kind is reported.
    pub fn as_str(&self) -> (r: &'static str)
        ensures
            r@ == kind_name(*self),
            *self == CaptureKind::SystemAudio ==> r@ == "system_audio"@,
            *self == CaptureKind::Microphone ==> r@ == "microphone"@,
    {
        match self {
            CaptureKind::SystemAudio => "system_audio",
            CaptureKind::Microphone => "microphone",
        }
    }
}

/// `char::to_uppercase`: the upper case of a character, which may be several
/// characters.
pub uninterp spec fn upper_case(c: char) -> Seq<char>;

/// `str::to_lowercase`: a text in lower case.
pub uninterp spec fn lower_case(s: Seq<char>) -> Seq<char>;

/// An ASCII character in upper case.
pub open spec fn ascii_upper_char(c: char) -> char {
    if 'a' <= c <= 'z' {
        ((c as u32) - 32) as char
    } else {
        c
    }
}

/// `char::to_uppercase`, collected: a function of the character, of at least
/// one character. Of an ASCII character it is the ASCII upper case.
#[verifier::external_body]
fn to_upper(c: char) -> (r: String)
    ensures
        r@ == upper_case(c),
        r@.len() > 0,
        (c as u32) < 128 ==> r@ == seq![ascii_upper_char(c)],
{
    c.to_uppercase().to_string()
}

/// `str::to_lowercase`: a function of the text. Of an ASCII text the letters
/// are put in lower case.
#[verifier::external_body]
pub(crate) fn to_lower(s: &str) -> (r: String)
    ensures
        r@ == lower_case(s@),
        is_ascii_text(s@) ==> r@ == ascii_lower_spec(s@),
{
    s.to_lowercase()
}

/// The names and ids of programs.
pub open spec fn program_views<P>(apps: Seq<(String, P)>) -> Seq<(Seq<char>, P)> {
    apps.map_values(|a: (String, P)| (a.0@, a.1))
}

/// The names of programs, each once, in the order in which they first occur.
pub open spec fn first_names<P>(apps: Seq<(Seq<char>, P)>) -> Seq<Seq<char>>
    decreases apps.len(),
{
    if apps.len() == 0 {
        Seq::empty()
    } else {
        let before = first_names(apps.drop_last());
        if before.contains(apps.last().0) {
            before
        } else {
            before.push(apps.last().0)
        }
    }
}

/// The ids of the programs of one name, in order.
pub open spec fn pids_of<P>(apps: Seq<(Seq<char>, P)>, name: Seq<char>) -> Seq<P>
    decreases apps.len(),
{
    if apps.len() == 0 {
        Seq::empty()
    } else {
        let before = pids_of(apps.drop_last(), name);
        if apps.last().0 == name {
            before.push(apps.last().1)
        } else {
            before
        }
    }
}

/// The ids of programs, by name.
pub open spec fn grouped<P>(apps: Seq<(Seq<char>, P)>) -> Seq<(Seq<char>, Seq<P>)> {
    first_names(apps).map_values(|n: Seq<char>| (n, pids_of(apps, n)))
}

/// The texts of groups.
pub open spec fn group_views<P>(groups: Seq<(String, Vec<P>)>) -> Seq<(Seq<char>, Seq<P>)> {
    groups.map_values(|g: (String, Vec<P>)| (g.0@, g.1@))
}

proof fn lemma_first_names<P>(apps: Seq<(Seq<char>, P)>)
    ensures
        first_names(apps).no_duplicates(),
        forall|n: Seq<char>| #[trigger]
            first_names(apps).contains(n) <==> pids_of(apps, n).len() > 0,
    decreases apps.len(),
{
    if apps.len() > 0 {
        let rest = apps.drop_last();
        lemma_first_names(rest);
        let before = first_names(rest);
        let name = apps.last().0;
        assert forall|n: Seq<char>| #[trigger] first_names(apps).contains(n) <==> pids_of(
            apps,
            n,
        ).len() > 0 by {
            assert(before.contains(n) <==> pids_of(rest, n).len() > 0);
            if !before.contains(name) {
                if n == name {
                    assert(before.push(name)[before.len() as int] == n);
                } else if before.contains(n) {
                    let i = choose|i: int| 0 <= i < before.len() && before[i] == n;
                    assert(before.push(name)[i] == n);
                } else if before.push(name).contains(n) {
                    let i = choose|i: int|
                        0 <= i < before.push(name).len() && before.push(name)[i] == n;
                    assert(before[i] == n);
                }
            }
        }
    }
}

/// Groups programs by name: each name once, in the order in which the names
/// first occur, with its ids in order.
pub fn group_pids_by_name<P>(apps: Vec<(String, P)>) -> (r: Vec<(String, Vec<P>)>)
    ensures
        group_views(r@) == grouped(program_views(apps@)),
{
    let ghost all = program_views(apps@);
    let ghost source = apps@;
    let mut groups: Vec<(String, Vec<P>)> = Vec::new();
    proof {
        assert(group_views(groups@) =~= grouped(all.take(0)));
    }
    for app in it: apps.into_iter()
        invariant
            it.seq() == source,
            all == program_views(source),
            group_views(groups@) == grouped(all.take(it.index())),
    {
        let ghost seen = all.take(it.index());
        let ghost now = all.take(it.index() + 1);
        let ghost before = groups@;
        let ghost views = group_views(before);
        let (name, pid) = app;
        proof {
            assert(now =~= seen.push((name@, pid)));
            assert(now.drop_last() =~= seen);
            lemma_first_names(seen);
            assert(views == grouped(seen));
            assert(views.len() == first_names(seen).len());
            assert(before.len() == views.len());
        }
        let mut i: usize = 0;
        while i < groups.len() && !text_eq(groups[i].0.as_str(), name.as_str())
            invariant
                i <= groups.len(),
                groups@ == before,
                forall|j: int| 0 <= j < i ==> (#[trigger] before[j]).0@ != name@,
            decreases groups.len() - i,
        {
            i += 1;
        }
        if i < groups.len() {
            let mut group = groups.remove(i);
            group.1.push(pid);
            groups.insert(i, group);
            proof {
                let names = first_names(seen);
                assert(grouped(seen)[i as int].0 == names[i as int]);
                assert(names.contains(name@));
                assert(groups@ =~= before.update(i as int, groups@[i as int]));
                assert forall|j: int| 0 <= j < names.len() implies group_views(groups@)[j]
                    == grouped(now)[j] by {
                    assert(views[j] == grouped(seen)[j]);
                    if j != i {
                        assert(names[j] != names[i as int]);
                    }
                }
                assert(group_views(groups@) =~= grouped(now));
            }
        } else {
            let mut pids: Vec<P> = Vec::new();
            pids.push(pid);
            groups.push((name, pids));
            proof {
                let names = first_names(seen);
                assert(!names.contains(name@)) by {
                    if names.contains(name@) {
                        let j = choose|j: int| 0 <= j < names.len() && names[j] == name@;
                        assert(views[j].0 == names[j]);
                        assert(before[j].0@ == name@);
                    }
                }
                assert(pids_of(seen, name@).len() == 0);
                assert forall|j: int| 0 <= j < names.len() implies group_views(groups@)[j]
                    == grouped(now)[j] by {
                    assert(views[j] == grouped(seen)[j]);
                    assert(group_views(groups@)[j] == views[j]);
                    assert(names.contains(names[j]));
                }
                assert(pids_of(now, name@) =~= seq![pid]);
                assert(group_views(groups@) =~= grouped(now));
            }
        }
    }
    proof {
        assert(all.take(all.len() as int) =~= all);
    }
    groups
}

/// The ids of programs as one text, with commas between them.
pub open spec fn pid_list(pids: Seq<i64>) -> Seq<char> {
    join_spec(pids.map_values(|p: i64| decimal(p as int)), ","@)
}

/// The ids of programs as one text.
fn write_pids(pids: &Vec<i64>) -> (r: String)
    ensures
        r@ == pid_list(pids@),
{
    let mut list: Vec<String> = Vec::new();
    let mut i: usize = 0;
    while i < pids.len()
        invariant
            i <= pids.len(),
            list.len() == i,
            forall|j: int| 0 <= j < i ==> (#[trigger] list[j])@ == decimal(pids[j] as int),
        decreases pids.len() - i,
    {
        list.push(i64_to_decimal(pids[i]));
        i += 1;
    }
    proof {
        assert(texts(list@) =~= pids@.map_values(|p: i64| decimal(p as int)));
    }
    join(&list, ",")
}

/// The ids in a text, where all of its pieces are numbers.
pub open spec fn pids_in(pieces: Seq<Seq<char>>) -> Option<Seq<i32>>
    decreases pieces.len(),
{
    if pieces.len() == 0 {
        Some(Seq::empty())
    } else {
        match pids_in(pieces.drop_last()) {
            None => None,
            Some(before) => match parse_i32_spec(pieces.last()) {
                Some(p) => Some(before.push(p)),
                None => None,
            },
        }
    }
}

proof fn lemma_pids_in_prefix(pieces: Seq<Seq<char>>, n: int)
    requires
        0 <= n <= pieces.len(),
        pids_in(pieces.take(n)) is None,
    ensures
        pids_in(pieces) is None,
    decreases pieces.len() - n,
{
    if n == pieces.len() {
        assert(pieces.take(n) =~= pieces);
    } else {
        assert(pieces.take(n + 1).drop_last() =~= pieces.take(n));
        lemma_pids_in_prefix(pieces, n + 1);
    }
}

/// Reads ids with commas between them.
pub fn parse_pids(list: &str) -> (r: Option<Vec<i32>>)
    ensures
        match r {
            Some(v) => pids_in(split_spec(list@, ',')) == Some(v@),
            None => pids_in(split_spec(list@, ',')) is None,
        },
{
    let pieces = split(list, ',');
    let ghost views = texts(pieces@);
    let mut out: Vec<i32> = Vec::new();
    let mut i: usize = 0;
    proof {
        assert(pids_in(views.take(0)) == Some(out@));
    }
    while i < pieces.len()
        invariant
            i <= pieces.len(),
            views == texts(pieces@),
            views == split_spec(list@, ','),
            pids_in(views.take(i as int)) == Some(out@),
        decreases pieces.len() - i,
    {
        proof {
            assert(views.take(i + 1).drop_last() =~= views.take(i as int));
            assert(views.take(i + 1).last() == pieces@[i as int]@);
        }
        match parse_i32(pieces[i].as_str()) {
            Some(p) => out.push(p),
            None => {
                proof {
                    lemma_pids_in_prefix(views, i + 1);
                }
                return None;
            },
        }
        i += 1;
    }
    proof {
        assert(views.take(views.len() as int) =~= views);
    }
    Some(out)
}

proof fn lemma_decimals_parse(pids: Seq<i32>)
    ensures
        pids_in(pids.map_values(|p: i32| decimal(p as int))) == Some(pids),
    decreases pids.len(),
{
    let list = pids.map_values(|p: i32| decimal(p as int));
    if pids.len() == 0 {
        assert(pids =~= Seq::empty());
    } else {
        lemma_decimals_parse(pids.drop_last());
        assert(list.drop_last() =~= pids.drop_last().map_values(|p: i32| decimal(p as int)));
        lemma_decimal_reads_back(pids.last() as int);
        assert(pids.drop_last().push(pids.last()) =~= pids);
    }
}

/// A list of ids is split into their numerals again.
pub proof fn lemma_pid_list_splits(pids: Seq<i64>)
    requires
        pids.len() > 0,
    ensures
        split_spec(pid_list(pids), ',') == pids.map_values(|p: i64| decimal(p as int)),
{
    let list = pids.map_values(|p: i64| decimal(p as int));
    reveal_strlit(",");
    assert(","@ =~= seq![',']);
    assert forall|i: int| 0 <= i < list.len() implies !(#[trigger] list[i]).contains(',') by {
        lemma_decimal_reads_back(pids[i] as int);
        if list[i].contains(',') {
            let k = choose|k: int| 0 <= k < list[i].len() && list[i][k] == ',';
            assert(decimal(pids[i] as int)[k] == ',');
        }
    }
    lemma_join_splits_back(list, ',');
}

/// The ids of programs, as they are grouped and written.
pub open spec fn widened(pids: Seq<i32>) -> Seq<i64> {
    pids.map_values(|p: i32| p as i64)
}

/// The ids in the id of a target that merges programs of one name are read
/// back as they were.
pub proof fn merged_ids_read_back(pids: Seq<i32>)
    requires
        pids.len() > 0,
    ensures
        pids_in(split_spec(pid_list(widened(pids)), ',')) == Some(pids),
{
    lemma_pid_list_splits(widened(pids));
    assert(widened(pids).map_values(|p: i64| decimal(p as int)) =~= pids.map_values(
        |p: i32| decimal(p as int),
    ));
    lemma_decimals_parse(pids);
}

proof fn lemma_join_first(list: Seq<Seq<char>>, sep: Seq<char>)
    requires
        list.len() > 0,
        list[0].len() > 0,
    ensures
        join_spec(list, sep).len() > 0,
        join_spec(list, sep)[0] == list[0][0],
    decreases list.len(),
{
    if list.len() > 1 {
        assert(list.drop_last()[0] == list[0]);
        lemma_join_first(list.drop_last(), sep);
    }
}

/// A list of ids begins with a digit or a sign, so that it is not taken for a
/// word.
pub proof fn lemma_pid_list_begins(pids: Seq<i64>)
    requires
        pids.len() > 0,
    ensures
        pid_list(pids).len() > 0,
        pid_list(pids)[0] != 'a',
{
    let list = pids.map_values(|p: i64| decimal(p as int));
    lemma_decimal_reads_back(pids[0] as int);
    assert(list[0] == decimal(pids[0] as int));
    lemma_join_first(list, ","@);
}

/// Every group has a name that no other has, and at least one id.
pub proof fn groups_are_distinct_and_filled<P>(apps: Seq<(Seq<char>, P)>)
    ensures
        forall|i: int, j: int|
            0 <= i < j < grouped(apps).len() ==> (#[trigger] grouped(apps)[i]).0 != (
            #[trigger] grouped(apps)[j]).0,
        forall|i: int| 0 <= i < grouped(apps).len() ==> (#[trigger] grouped(apps)[i]).1.len() > 0,
{
    lemma_first_names(apps);
    let names = first_names(apps);
    assert forall|i: int| 0 <= i < grouped(apps).len() implies (
    #[trigger] grouped(apps)[i]).1.len() > 0 by {
        assert(names.contains(names[i]));
    }
}

/// The target for the programs of one name.
pub open spec fn system_target(group: (Seq<char>, Seq<i64>)) -> TargetView {
    TargetView {
        id: "system:"@ + pid_list(group.1),
        name: group.0,
        kind: CaptureKind::SystemAudio,
        icon_path: None,
    }
}

/// The targets for programs, by name.
pub open spec fn system_targets(apps: Seq<(Seq<char>, i64)>) -> Seq<TargetView> {
    grouped(apps).map_values(|g: (Seq<char>, Seq<i64>)| system_target(g))
}

/// Makes one target for the programs of each name.
pub(crate) fn targets_of_programs(apps: Vec<(String, i64)>) -> (r: Vec<CaptureTarget>)
    ensures
        target_views(r@) == system_targets(program_views(apps@)),
{
    let groups = group_pids_by_name(apps);
    let ghost views = grouped(program_views(apps@));
    let mut out: Vec<CaptureTarget> = Vec::new();
    let mut i: usize = 0;
    while i < groups.len()
        invariant
            i <= groups.len(),
            group_views(groups@) == views,
            out.len() == i,
            forall|j: int| 0 <= j < i ==> (#[trigger] out[j])@ == system_target(views[j]),
        decreases groups.len() - i,
    {
        let list = write_pids(&groups[i].1);
        proof {
            assert(views[i as int] == (groups@[i as int].0@, groups@[i as int].1@));
        }
        out.push(
            CaptureTarget {
                id: cat("system:", list.as_str()),
                name: groups[i].0.clone(),
                kind: CaptureKind::SystemAudio,
                icon_path: None,
            },
        );
        i += 1;
    }
    proof {
        assert(target_views(out@) =~= system_targets(program_views(apps@)));
    }
    out
}

/// The target for everything that the system plays.
pub open spec fn whole_system_target() -> TargetView {
    TargetView {
        id: "system:all"@,
        name: "系统音频（全部）"@,
        kind: CaptureKind::SystemAudio,
        icon_path: None,
    }
}

pub(crate) fn whole_system() -> (r: CaptureTarget)
    ensures
        r@ == whole_system_target(),
        r.id@ == "system:all"@,
        r.name@ == "系统音频（全部）"@,
        r.kind == CaptureKind::SystemAudio,
        r.icon_path is None,
{
    CaptureTarget {
        id: "system:all".to_owned(),
        name: "系统音频（全部）".to_owned(),
        kind: CaptureKind::SystemAudio,
        icon_path: None,
    }
}

/// The targets for microphones; one without a name is left out.
pub open spec fn microphone_targets(names: Seq<Seq<char>>) -> Seq<TargetView>
    decreases names.len(),
{
    if names.len() == 0 {
        Seq::empty()
    } else {
        let before = microphone_targets(names.drop_last());
        if names.last().len() == 0 {
            before
        } else {
            before.push(
                TargetView {
                    id: "mic:"@ + names.last(),
                    name: names.last(),
                    kind: CaptureKind::Microphone,
                    icon_path: None,
                },
            )
        }
    }
}

/// The targets for microphones; one without a name is left out.
pub fn list_microphone_targets(names: &Vec<String>) -> (r: Vec<CaptureTarget>)
    ensures
        target_views(r@) == microphone_targets(texts(names@)),
{
    let ghost all = texts(names@);
    let mut out: Vec<CaptureTarget> = Vec::new();
    let mut i: usize = 0;
    proof {
        assert(target_views(out@) =~= microphone_targets(all.take(0)));
    }
    while i < names.len()
        invariant
            i <= names.len(),
            all == texts(names@),
            target_views(out@) == microphone_targets(all.take(i as int)),
        decreases names.len() - i,
    {
        let ghost before = out@;
        proof {
            assert(all.take(i + 1).drop_last() =~= all.take(i as int));
            assert(all.take(i + 1).last() == names@[i as int]@);
        }
        if !names[i].as_str().is_empty() {
            let target = CaptureTarget {
                id: cat("mic:", names[i].as_str()),
                name: names[i].clone(),
                kind: CaptureKind::Microphone,
                icon_path: None,
            };
            out.push(target);
            proof {
                assert(target_views(out@) =~= target_views(before).push(target@));
            }
        }
        i += 1;
    }
    proof {
        assert(all.take(all.len() as int) =~= all);
    }
    out
}

/// Whether a program of the given name, in lower case, is one of the system's
/// that play nothing of interest.
pub open spec fn is_system_exe(exe: Seq<char>) -> bool {
    ||| exe == "audiodg.exe"@
    ||| exe == "svchost.exe"@
    ||| exe == "csrss.exe"@
    ||| exe == "dwm.exe"@
    ||| exe == "runtimebroker.exe"@
    ||| exe == "applicationframehost.exe"@
    ||| exe == "searchhost.exe"@
    ||| exe == "startmenuexperiencehost.exe"@
    ||| exe == "shellexperiencehost.exe"@
    ||| exe == "sihost.exe"@
    ||| exe == "taskhostw.exe"@
    ||| exe == "ctfmon.exe"@
    ||| exe == "conhost.exe"@
    ||| exe == "fontdrvhost.exe"@
    ||| exe == "wudfhost.exe"@
}

/// Whether an audio session is left out: that of this program, and those of
/// the system.
pub fn is_noise_session(exe_lower: &str, pid: u32, own_pid: u32) -> (r: bool)
    ensures
        r == (pid == own_pid || is_system_exe(exe_lower@)),
{
    pid == own_pid || text_eq(exe_lower, "audiodg.exe") || text_eq(exe_lower, "svchost.exe")
        || text_eq(exe_lower, "csrss.exe") || text_eq(exe_lower, "dwm.exe") || text_eq(
        exe_lower,
        "runtimebroker.exe",
    ) || text_eq(exe_lower, "applicationframehost.exe") || text_eq(exe_lower, "searchhost.exe")
        || text_eq(exe_lower, "startmenuexperiencehost.exe") || text_eq(
        exe_lower,
        "shellexperiencehost.exe",
    ) || text_eq(exe_lower, "sihost.exe") || text_eq(exe_lower, "taskhostw.exe") || text_eq(
        exe_lower,
        "ctfmon.exe",
    ) || text_eq(exe_lower, "conhost.exe") || text_eq(exe_lower, "fontdrvhost.exe") || text_eq(
        exe_lower,
        "wudfhost.exe",
    )
}

/// The name of a program file without its suffix.
pub open spec fn exe_stem(exe: Seq<char>) -> Seq<char> {
    if ends_with_spec(exe, ".exe"@) {
        exe.take(exe.len() - ".exe"@.len())
    } else {
        exe
    }
}

/// The name that is shown for a program file, given the first letter of its
/// name as a capital: without the suffix, and with the capital in front.
pub open spec fn capitalised(exe: Seq<char>, capital: Seq<char>) -> Seq<char> {
    let stem = exe_stem(exe);
    if stem.len() == 0 {
        Seq::empty()
    } else {
        capital + stem.skip(1)
    }
}

/// The name that is shown for a program file: without its suffix, and with a
/// capital letter in front.
pub open spec fn friendly_name(exe: Seq<char>) -> Seq<char> {
    capitalised(exe, upper_case(exe_stem(exe)[0]))
}

/// The name that is shown for a program file with an ASCII name.
pub open spec fn ascii_friendly_name(exe: Seq<char>) -> Seq<char> {
    capitalised(exe, seq![ascii_upper_char(exe_stem(exe)[0])])
}

/// The name of a program file without its suffix.
fn stem_chars(exe: &str) -> (r: Vec<char>)
    ensures
        r@ == exe_stem(exe@),
{
    match strip_suffix(exe, ".exe") {
        Some(s) => to_chars(s.as_str()),
        None => to_chars(exe),
    }
}

/// The name that is shown for a program file, given its first letter as a
/// capital.
pub fn capitalise(exe: &str, capital: &str) -> (r: String)
    ensures
        r@ == capitalised(exe@, capital@),
{
    let mut chars = stem_chars(exe);
    if chars.len() == 0 {
        let r = String::new();
        proof {
            assert(r@ =~= Seq::empty());
        }
        r
    } else {
        let rest_chars = chars.split_off(1);
        let rest = from_chars(&rest_chars);
        proof {
            assert(rest@ =~= exe_stem(exe@).skip(1));
        }
        cat(capital, rest.as_str())
    }
}

/// The name that is shown for a program file. It is empty only where the name
/// of the file is.
pub fn friendly_name_from_exe(exe: &str) -> (r: String)
    ensures
        r@ == friendly_name(exe@),
        r@.len() == 0 <==> exe_stem(exe@).len() == 0,
        is_ascii_text(exe@) ==> r@ == ascii_friendly_name(exe@),
{
    let chars = stem_chars(exe);
    if chars.len() == 0 {
        return capitalise(exe, "");
    }
    let first = to_upper(chars[0]);
    proof {
        assert(exe_stem(exe@)[0] == exe@[0]);
    }
    capitalise(exe, first.as_str())
}

/// The names and ids of audio sessions.
pub open spec fn session_views(sessions: Seq<(u32, String)>) -> Seq<(u32, Seq<char>)> {
    sessions.map_values(|s: (u32, String)| (s.0, s.1@))
}

/// An audio session with the texts that decide over it.
#[derive(Debug)]
pub struct NamedSession {
    pub pid: u32,
    /// The name that is shown for its program.
    pub name: String,
    /// The file of its program, in lower case.
    pub exe_lower: String,
}

/// The texts of a [`NamedSession`].
pub struct NamedSessionView {
    pub pid: u32,
    pub name: Seq<char>,
    pub exe_lower: Seq<char>,
}

impl View for NamedSession {
    type V = NamedSessionView;

    open spec fn view(&self) -> NamedSessionView {
        NamedSessionView { pid: self.pid, name: self.name@, exe_lower: self.exe_lower@ }
    }
}

/// The texts of audio sessions.
pub open spec fn named_views(sessions: Seq<NamedSession>) -> Seq<NamedSessionView> {
    sessions.map_values(|s: NamedSession| s@)
}

/// The programs that audio sessions stand for, under the names that are shown;
/// what is left out of the list does not count.
pub open spec fn kept_programs(sessions: Seq<NamedSessionView>, own_pid: u32) -> Seq<
    (Seq<char>, i64),
>
    decreases sessions.len(),
{
    if sessions.len() == 0 {
        Seq::empty()
    } else {
        let before = kept_programs(sessions.drop_last(), own_pid);
        let s = sessions.last();
        if s.name.len() == 0 || s.pid == own_pid || is_system_exe(s.exe_lower) {
            before
        } else {
            before.push((s.name, s.pid as i64))
        }
    }
}

/// The texts that decide over audio sessions, given their ids and files.
pub open spec fn named_sessions(sessions: Seq<(u32, Seq<char>)>) -> Seq<NamedSessionView> {
    sessions.map_values(
        |s: (u32, Seq<char>)|
            NamedSessionView { pid: s.0, name: friendly_name(s.1), exe_lower: lower_case(s.1) },
    )
}

/// The texts that decide over audio sessions of files with ASCII names.
pub open spec fn ascii_named_sessions(sessions: Seq<(u32, Seq<char>)>) -> Seq<
    NamedSessionView,
> {
    sessions.map_values(
        |s: (u32, Seq<char>)|
            NamedSessionView {
                pid: s.0,
                name: ascii_friendly_name(s.1),
                exe_lower: ascii_lower_spec(s.1),
            },
    )
}

/// The programs that audio sessions stand for, given their ids and files.
pub open spec fn session_programs(sessions: Seq<(u32, Seq<char>)>, own_pid: u32) -> Seq<
    (Seq<char>, i64),
> {
    kept_programs(named_sessions(sessions), own_pid)
}

/// The targets for audio sessions whose texts are known: one for the programs
/// of each name.
pub fn targets_of_sessions(sessions: &Vec<NamedSession>, own_pid: u32) -> (r: Vec<CaptureTarget>)
    ensures
        target_views(r@) == system_targets(kept_programs(named_views(sessions@), own_pid)),
{
    let ghost all = named_views(sessions@);
    let mut kept: Vec<(String, i64)> = Vec::new();
    let mut i: usize = 0;
    proof {
        assert(program_views(kept@) =~= kept_programs(all.take(0), own_pid));
    }
    while i < sessions.len()
        invariant
            i <= sessions.len(),
            all == named_views(sessions@),
            program_views(kept@) == kept_programs(all.take(i as int), own_pid),
        decreases sessions.len() - i,
    {
        let s = &sessions[i];
        let ghost before = kept@;
        proof {
            assert(all.take(i + 1).drop_last() =~= all.take(i as int));
            assert(all.take(i + 1).last() == s@);
        }
        if !(s.name.as_str().is_empty() || is_noise_session(
            s.exe_lower.as_str(),
            s.pid,
            own_pid,
        )) {
            kept.push((s.name.clone(), s.pid as i64));
            proof {
                assert(program_views(kept@) =~= program_views(before).push(
                    (s.name@, s.pid as i64),
                ));
            }
        }
        i += 1;
    }
    proof {
        assert(all.take(all.len() as int) =~= all);
    }
    targets_of_programs(kept)
}

/// The targets for audio sessions: one for the programs of each name.
pub fn build_system_targets(sessions: Vec<(u32, String)>, own_pid: u32) -> (r: Vec<CaptureTarget>)
    ensures
        target_views(r@) == system_targets(session_programs(session_views(sessions@), own_pid)),
        (forall|i: int| 0 <= i < sessions@.len() ==> is_ascii_text((#[trigger] sessions@[i]).1@))
            ==> target_views(r@) == system_targets(
            kept_programs(ascii_named_sessions(session_views(sessions@)), own_pid),
        ),
{
    let ghost all = named_sessions(session_views(sessions@));
    let ghost ascii = ascii_named_sessions(session_views(sessions@));
    let mut named: Vec<NamedSession> = Vec::new();
    let mut i: usize = 0;
    while i < sessions.len()
        invariant
            i <= sessions.len(),
            all == named_sessions(session_views(sessions@)),
            named.len() == i,
            forall|j: int| 0 <= j < i ==> (#[trigger] named[j])@ == all[j],
            ascii == ascii_named_sessions(session_views(sessions@)),
            forall|j: int|
                0 <= j < i && is_ascii_text(sessions@[j].1@) ==> (#[trigger] named[j])@ == ascii[j],
        decreases sessions.len() - i,
    {
        let exe: &str = sessions[i].1.as_str();
        let name = friendly_name_from_exe(exe);
        let exe_lower = to_lower(exe);
        named.push(NamedSession { pid: sessions[i].0, name, exe_lower });
        i += 1;
    }
    proof {
        assert(named_views(named@) =~= all);
        if forall|i: int| 0 <= i < sessions@.len() ==> is_ascii_text((#[trigger] sessions@[i]).1@) {
            assert(named_views(named@) =~= ascii);
        }
    }
    targets_of_sessions(&named, own_pid)
}

/// All blocks one after the other.
pub open spec fn flattened<F>(blocks: Seq<Vec<F>>) -> Seq<F>
    decreases blocks.len(),
{
    if blocks.len() == 0 {
        Seq::empty()
    } else {
        flattened(blocks.drop_last()) + blocks.last()@
    }
}

/// The whole blocks at the front of some samples.
pub open spec fn blocks_of<F>(samples: Seq<F>, size: nat) -> Seq<Seq<F>>
    decreases samples.len(),
{
    if size == 0 || samples.len() < size {
        Seq::empty()
    } else {
        seq![samples.take(size as int)] + blocks_of(samples.skip(size as int), size)
    }
}

/// What is left of some samples after their whole blocks.
pub open spec fn rest_of<F>(samples: Seq<F>, size: nat) -> Seq<F>
    decreases samples.len(),
{
    if size == 0 || samples.len() < size {
        samples
    } else {
        rest_of(samples.skip(size as int), size)
    }
}

/// The samples of blocks.
pub open spec fn block_views<F>(blocks: Seq<Vec<F>>) -> Seq<Seq<F>> {
    blocks.map_values(|b: Vec<F>| b@)
}

/// Adds samples to those that wait, and takes as many whole blocks from the
/// front as there are. A resampler takes whole blocks only; what is left waits
/// for more. No sample is lost, repeated or moved.
pub fn take_blocks<F: Copy>(pending: &mut Vec<F>, samples: &[F], size: usize) -> (r: Vec<Vec<F>>)
    requires
        size > 0,
    ensures
        block_views(r@) == blocks_of(old(pending)@ + samples@, size as nat),
        final(pending)@ == rest_of(old(pending)@ + samples@, size as nat),
        flattened(r@) + final(pending)@ == old(pending)@ + samples@,
        forall|i: int| 0 <= i < r@.len() ==> (#[trigger] r@[i])@.len() == size,
        final(pending)@.len() < size,
{
    let ghost start = pending@;
    let mut k: usize = 0;
    while k < samples.len()
        invariant
            k <= samples.len(),
            pending@ == start + samples@.take(k as int),
        decreases samples.len() - k,
    {
        pending.push(samples[k]);
        proof {
            assert(pending@ =~= start + samples@.take(k + 1));
        }
        k += 1;
    }
    proof {
        assert(samples@.take(samples@.len() as int) =~= samples@);
    }
    let ghost whole = start + samples@;
    let mut out: Vec<Vec<F>> = Vec::new();
    proof {
        assert(flattened(out@) + pending@ =~= whole);
        assert(block_views(out@) + blocks_of(pending@, size as nat) =~= blocks_of(
            whole,
            size as nat,
        ));
    }
    while pending.len() >= size
        invariant
            size > 0,
            flattened(out@) + pending@ == whole,
            block_views(out@) + blocks_of(pending@, size as nat) == blocks_of(whole, size as nat),
            rest_of(pending@, size as nat) == rest_of(whole, size as nat),
            forall|i: int| 0 <= i < out@.len() ==> (#[trigger] out@[i])@.len() == size,
        decreases pending.len(),
    {
        let ghost before = pending@;
        let ghost blocks = out@;
        let mut rest = pending.split_off(size);
        let mut block: Vec<F> = Vec::new();
        block.append(pending);
        pending.append(&mut rest);
        out.push(block);
        proof {
            assert(out@.drop_last() =~= blocks);
            assert(block@ =~= before.take(size as int));
            assert(pending@ =~= before.skip(size as int));
            assert(flattened(out@) + pending@ =~= whole);
            assert(block_views(out@) =~= block_views(blocks).push(block@));
            assert(block_views(out@) + blocks_of(pending@, size as nat) =~= block_views(blocks)
                + blocks_of(before, size as nat));
        }
    }
    proof {
        assert(block_views(out@) + blocks_of(pending@, size as nat) =~= block_views(out@));
    }
    out
}

/// How samples are cut into packets does not matter: taking blocks after one
/// packet and then after the next gives the blocks, and leaves the samples,
/// that taking them after both at once does.
pub proof fn packets_do_not_matter<F>(pending: Seq<F>, a: Seq<F>, b: Seq<F>, size: nat)
    requires
        size > 0,
    ensures
        blocks_of(pending + a, size) + blocks_of(rest_of(pending + a, size) + b, size)
            == blocks_of(pending + (a + b), size),
        rest_of(rest_of(pending + a, size) + b, size) == rest_of(pending + (a + b), size),
{
    lemma_packets(pending + a, b, size);
    assert(pending + (a + b) =~= (pending + a) + b);
}

proof fn lemma_packets<F>(s: Seq<F>, b: Seq<F>, size: nat)
    requires
        size > 0,
    ensures
        blocks_of(s, size) + blocks_of(rest_of(s, size) + b, size) == blocks_of(s + b, size),
        rest_of(rest_of(s, size) + b, size) == rest_of(s + b, size),
    decreases s.len(),
{
    if s.len() < size {
        assert(blocks_of(s, size) + blocks_of(s + b, size) =~= blocks_of(s + b, size));
    } else {
        let rest = s.skip(size as int);
        lemma_packets(rest, b, size);
        assert((s + b).skip(size as int) =~= rest + b);
        assert((s + b).take(size as int) =~= s.take(size as int));
        assert(blocks_of(s, size) + blocks_of(rest_of(s, size) + b, size) =~= blocks_of(
            s + b,
            size,
        ));
    }
}

/// The timeline of a capture that counts samples.
#[derive(Debug, Clone, Copy, PartialEq, Eq, Structural)]
pub struct SampleClock {
    /// How many samples were captured so far.
    pub samples: i64,
}

impl SampleClock {
    /// A timeline at its beginning.
    pub fn new() -> (r: Self)
        ensures
            r.samples == 0,
    {
        SampleClock { samples: 0 }
    }

    /// Counts further samples, and tells when they began, in milliseconds.
    pub fn stamp(&mut self, count: usize) -> (r: i64)
        requires
            old(self).samples >= 0,
            old(self).samples + count <= i64::MAX,
        ensures
            r == old(self).samples / 16,
            final(self).samples == old(self).samples + count,
    {
        let at: i64 = self.samples / 16;
        self.samples = self.samples + count as i64;
        at
    }
}

/// A target says what it holds, part by part.
pub proof fn targets_say_what_they_hold(t: CaptureTarget)
    ensures
        t@.id == t.id@,
        t@.name == t.name@,
        t@.kind == t.kind,
        t@.icon_path == opt_text(t.icon_path),
{
}

/// One more program joins the programs of its name, at the end, or comes last
/// where its name is new; the programs of other names stay as they are.
pub proof fn programs_join_their_name<P>(
    apps: Seq<(Seq<char>, P)>,
    name: Seq<char>,
    pid: P,
    other: Seq<char>,
)
    ensures
        ({
            let more = apps.push((name, pid));
            &&& pids_of(Seq::<(Seq<char>, P)>::empty(), name).len() == 0
            &&& pids_of(more, name) == pids_of(apps, name).push(pid)
            &&& other != name ==> pids_of(more, other) == pids_of(apps, other)
            &&& pids_of(apps, name).len() > 0 ==> first_names(more) == first_names(apps)
            &&& pids_of(apps, name).len() == 0 ==> first_names(more) == first_names(apps).push(
                name,
            )
            &&& first_names(Seq::<(Seq<char>, P)>::empty()).len() == 0
        }),
{
    assert(apps.push((name, pid)).drop_last() =~= apps);
    lemma_first_names(apps);
    assert(first_names(apps).contains(name) <==> pids_of(apps, name).len() > 0);
}

/// A group has the ids of all programs of its name, and there is one for every
/// name that occurs.
pub proof fn groups_hold_their_programs<P>(apps: Seq<(Seq<char>, P)>, i: int)
    requires
        0 <= i < grouped(apps).len(),
    ensures
        grouped(apps).len() == first_names(apps).len(),
        grouped(apps)[i].0 == first_names(apps)[i],
        grouped(apps)[i].1 == pids_of(apps, first_names(apps)[i]),
{
}

/// The target for the programs of one name bears that name, and its id lists
/// their ids behind the word for what the system plays.
pub proof fn target_lists_its_programs(name: Seq<char>, pids: Seq<i64>)
    ensures
        system_target((name, pids)).id == "system:"@ + pid_list(pids),
        system_target((name, pids)).name == name,
        system_target((name, pids)).kind == CaptureKind::SystemAudio,
        system_target((name, pids)).icon_path is None,
{
}

/// Every microphone with a name becomes one target, in order, under its name;
/// one without a name becomes none.
pub proof fn named_microphones_are_targets(names: Seq<Seq<char>>, name: Seq<char>)
    ensures
        microphone_targets(Seq::<Seq<char>>::empty()).len() == 0,
        name.len() == 0 ==> microphone_targets(names.push(name)) == microphone_targets(names),
        name.len() > 0 ==> {
            let before = microphone_targets(names);
            let after = microphone_targets(names.push(name));
            &&& after.len() == before.len() + 1
            &&& after.drop_last() == before
            &&& after.last().id == "mic:"@ + name
            &&& after.last().name == name
            &&& after.last().kind == CaptureKind::Microphone
            &&& after.last().icon_path is None
        },
{
    assert(names.push(name).drop_last() =~= names);
    if name.len() > 0 {
        assert(microphone_targets(names.push(name)).drop_last() =~= microphone_targets(names));
    }
}

/// An audio session becomes a program under the name that is shown, in order,
/// unless it has no name, is this program's, or is one of the system's.
pub proof fn sessions_become_programs(
    sessions: Seq<NamedSessionView>,
    s: NamedSessionView,
    own_pid: u32,
)
    ensures
        kept_programs(Seq::<NamedSessionView>::empty(), own_pid).len() == 0,
        s.name.len() > 0 && s.pid != own_pid && !is_system_exe(s.exe_lower) ==> kept_programs(
            sessions.push(s),
            own_pid,
        ) == kept_programs(sessions, own_pid).push((s.name, s.pid as i64)),
        s.name.len() == 0 || s.pid == own_pid || is_system_exe(s.exe_lower) ==> kept_programs(
            sessions.push(s),
            own_pid,
        ) == kept_programs(sessions, own_pid),
{
    assert(sessions.push(s).drop_last() =~= sessions);
}

/// The programs of the system that play nothing of interest are these.
pub proof fn system_programs_are_left_out(exe: Seq<char>)
    ensures
        is_system_exe(exe) <==> (exe == "audiodg.exe"@ || exe == "svchost.exe"@ || exe
            == "csrss.exe"@ || exe == "dwm.exe"@ || exe == "runtimebroker.exe"@ || exe
            == "applicationframehost.exe"@ || exe == "searchhost.exe"@ || exe
            == "startmenuexperiencehost.exe"@ || exe == "shellexperiencehost.exe"@ || exe
            == "sihost.exe"@ || exe == "taskhostw.exe"@ || exe == "ctfmon.exe"@ || exe
            == "conhost.exe"@ || exe == "fontdrvhost.exe"@ || exe == "wudfhost.exe"@),
{
}

/// The name that is shown for a program file is its stem with the capital in
/// place of the first letter, whether or not the suffix is there.
pub proof fn shown_name_is_the_capital_and_the_rest(
    first: char,
    rest: Seq<char>,
    capital: Seq<char>,
)
    ensures
        capitalised(seq![first] + rest + ".exe"@, capital) == capital + rest,
        !ends_with_spec(seq![first] + rest, ".exe"@) ==> capitalised(seq![first] + rest, capital)
            == capital + rest,
{
    let stem = seq![first] + rest;
    let exe = stem + ".exe"@;
    let n = ".exe"@.len() as int;
    assert(exe.skip(exe.len() - n) =~= ".exe"@);
    assert(exe.take(exe.len() - n) =~= stem);
    assert(stem.skip(1) =~= rest);
}

/// A list of ids is read where every piece is a number, in order; one piece
/// that is none spoils the list.
pub proof fn ids_are_read_piece_by_piece(pieces: Seq<Seq<char>>, next: Seq<char>)
    ensures
        pids_in(Seq::<Seq<char>>::empty()) == Some(Seq::<i32>::empty()),
        pids_in(pieces) is Some && parse_i32_spec(next) is Some ==> pids_in(pieces.push(next))
            == Some(pids_in(pieces)->0.push(parse_i32_spec(next)->0)),
        pids_in(pieces) is None || parse_i32_spec(next) is None ==> pids_in(
            pieces.push(next),
        ) is None,
{
    assert(pieces.push(next).drop_last() =~= pieces);
}

/// A small ASCII letter has the capital that stands at the same place of the
/// alphabet; anything else has itself.
pub proof fn capitals_match_small_letters(c: char)
    ensures
        'a' <= c <= 'z' ==> ascii_upper_char(c) as int - 'A' as int == c as int - 'a' as int,
        !('a' <= c <= 'z') ==> ascii_upper_char(c) == c,
{
}

/// Blocks are taken from the front, each of the given size, as long as there
/// are samples for one; what is left is less than a block.
pub proof fn blocks_are_taken_from_the_front<F>(samples: Seq<F>, size: nat)
    requires
        size > 0,
    ensures
        samples.len() < size ==> blocks_of(samples, size).len() == 0 && rest_of(samples, size)
            == samples,
        samples.len() >= size ==> blocks_of(samples, size) == seq![samples.take(size as int)]
            + blocks_of(samples.skip(size as int), size) && rest_of(samples, size) == rest_of(
            samples.skip(size as int),
            size,
        ),
{
}

/// The name that is shown for a program file begins with the capital of its
/// first letter.
pub proof fn shown_name_begins_with_a_capital(first: char, rest: Seq<char>)
    ensures
        friendly_name(seq![first] + rest + ".exe"@) == upper_case(first) + rest,
        ascii_friendly_name(seq![first] + rest + ".exe"@) == seq![ascii_upper_char(first)] + rest,
{
    let stem = seq![first] + rest;
    let exe = stem + ".exe"@;
    let n = ".exe"@.len() as int;
    assert(exe.skip(exe.len() - n) =~= ".exe"@);
    assert(exe.take(exe.len() - n) =~= stem);
    assert(stem.skip(1) =~= rest);
    assert(stem[0] == first);
}

/// What decides over an audio session is its id, the name that is shown for
/// its file, and the file in lower case.
pub proof fn sessions_are_named_by_their_files(sessions: Seq<(u32, Seq<char>)>, i: int)
    requires
        0 <= i < sessions.len(),
    ensures
        named_sessions(sessions).len() == sessions.len(),
        named_sessions(sessions)[i].pid == sessions[i].0,
        named_sessions(sessions)[i].name == friendly_name(sessions[i].1),
        named_sessions(sessions)[i].exe_lower == lower_case(sessions[i].1),
        ascii_named_sessions(sessions)[i].pid == sessions[i].0,
        ascii_named_sessions(sessions)[i].name == ascii_friendly_name(sessions[i].1),
        ascii_named_sessions(sessions)[i].exe_lower == ascii_lower_spec(sessions[i].1),
{
}

/// What is said of targets, programs, groups and sessions is said of each, in
/// order.
pub proof fn lists_are_told_in_order(
    targets: Seq<CaptureTarget>,
    programs: Seq<(String, i64)>,
    groups: Seq<(String, Vec<i64>)>,
    sessions: Seq<(u32, String)>,
    named: Seq<NamedSession>,
)
    ensures
        target_views(targets).len() == targets.len(),
        forall|i: int| 0 <= i < targets.len() ==> #[trigger] target_views(targets)[i]
            == targets[i]@,
        program_views(programs).len() == programs.len(),
        forall|i: int|
            0 <= i < programs.len() ==> #[trigger] program_views(programs)[i] == (
                programs[i].0@,
                programs[i].1,
            ),
        group_views(groups).len() == groups.len(),
        forall|i: int|
            0 <= i < groups.len() ==> #[trigger] group_views(groups)[i] == (
                groups[i].0@,
                groups[i].1@,
            ),
        session_views(sessions).len() == sessions.len(),
        forall|i: int|
            0 <= i < sessions.len() ==> #[trigger] session_views(sessions)[i] == (
                sessions[i].0,
                sessions[i].1@,
            ),
        named_views(named).len() == named.len(),
        forall|i: int|
            0 <= i < named.len() ==> {
                let v = #[trigger] named_views(named)[i];
                v.pid == named[i].pid && v.name == named[i].name@ && v.exe_lower
                    == named[i].exe_lower@
            },
{
}

/// All programs of one name become one target, and there is one for each name,
/// in the order of the names.
pub proof fn each_name_is_one_target(apps: Seq<(Seq<char>, i64)>, i: int)
    requires
        0 <= i < first_names(apps).len(),
    ensures
        system_targets(apps).len() == first_names(apps).len(),
        system_targets(apps)[i].name == first_names(apps)[i],
        system_targets(apps)[i].id == "system:"@ + pid_list(pids_of(apps, first_names(apps)[i])),
        system_targets(apps)[i].kind == CaptureKind::SystemAudio,
        system_targets(apps)[i].icon_path is None,
{
}

} // verus!
