//! Capturing on Windows: what the targets mean and which are offered.

pub mod device;
pub mod process;
pub mod session;

use crate::audio::capture::{
    build_system_targets, lemma_pid_list_begins, lemma_pid_list_splits, list_microphone_targets,
    microphone_targets, pid_list, session_programs, session_views, system_targets,
    target_views, whole_system, whole_system_target, CaptureTarget, TargetView,
};
use crate::error::Error;
use crate::text::{
    cat, decimal, lemma_decimal_reads_back, parse_u32, parse_u32_spec, split, split_spec,
    starts_with_spec, strip_prefix, text_eq, texts,
};
use vstd::prelude::*;
use vstd::string::*;

verus! {

/// What is captured for one target.
#[derive(Debug)]
pub enum StartPlan {
    /// The microphone of this name.
    Microphone(String),
    /// All that the system plays.
    Everything,
    /// The programs with these ids, one after the other. Where a further id is
    /// no number, the start fails after them.
    Programs { pids: Vec<u32>, failure: Option<Error> },
    /// Nothing: the target is unknown.
    Unknown(Error),
}

/// What a [`StartPlan`] says.
pub enum PlanView {
    Microphone(Seq<char>),
    Everything,
    Programs { pids: Seq<u32>, failure: Option<Seq<char>> },
    Unknown(Seq<char>),
}

impl View for StartPlan {
    type V = PlanView;

    open spec fn view(&self) -> PlanView {
        match *self {
            StartPlan::Microphone(n) => PlanView::Microphone(n@),
            StartPlan::Everything => PlanView::Everything,
            StartPlan::Programs { pids, failure } => PlanView::Programs {
                pids: pids@,
                failure: match failure {
                    Some(e) => Some(e->AudioSource_0@),
                    None => None,
                },
            },
            StartPlan::Unknown(e) => PlanView::Unknown(e->AudioSource_0@),
        }
    }
}

/// The numbers at the front of the pieces, up to the first that is none.
pub open spec fn leading_pids(pieces: Seq<Seq<char>>) -> Seq<u32>
    decreases pieces.len(),
{
    if pieces.len() == 0 {
        Seq::empty()
    } else {
        match parse_u32_spec(pieces[0]) {
            Some(p) => seq![p] + leading_pids(pieces.drop_first()),
            None => Seq::empty(),
        }
    }
}

/// What is captured for the target of an id.
pub open spec fn start_plan_of(id: Seq<char>) -> PlanView {
    if starts_with_spec(id, "mic:"@) {
        PlanView::Microphone(id.skip("mic:"@.len() as int))
    } else if id == "system:all"@ {
        PlanView::Everything
    } else if starts_with_spec(id, "system:"@) {
        let pieces = split_spec(id.skip("system:"@.len() as int), ',');
        let pids = leading_pids(pieces);
        PlanView::Programs {
            pids,
            failure: if pids.len() < pieces.len() {
                Some("非法音源 id: "@ + id)
            } else {
                None
            },
        }
    } else {
        PlanView::Unknown("无法识别的音源 id: "@ + id)
    }
}

/// Reads the numbers at the front of the pieces.
fn read_leading_pids(pieces: &Vec<String>) -> (r: Vec<u32>)
    ensures
        r@ == leading_pids(texts(pieces@)),
{
    let ghost views = texts(pieces@);
    let mut out: Vec<u32> = Vec::new();
    let mut i: usize = 0;
    proof {
        assert(views.skip(0) =~= views);
        assert(out@ + leading_pids(views.skip(0)) =~= leading_pids(views));
    }
    while i < pieces.len()
        invariant
            i <= pieces.len(),
            views == texts(pieces@),
            out@ + leading_pids(views.skip(i as int)) == leading_pids(views),
        decreases pieces.len() - i,
    {
        let ghost rest = views.skip(i as int);
        let ghost before = out@;
        proof {
            assert(rest[0] == pieces@[i as int]@);
            assert(rest.drop_first() =~= views.skip(i + 1));
        }
        match parse_u32(pieces[i].as_str()) {
            Some(p) => {
                out.push(p);
                proof {
                    assert(out@ + leading_pids(views.skip(i + 1)) =~= before + leading_pids(rest));
                }
            },
            None => {
                proof {
                    assert(out@ + leading_pids(rest) =~= out@);
                }
                return out;
            },
        }
        i += 1;
    }
    proof {
        assert(out@ + leading_pids(views.skip(i as int)) =~= out@);
    }
    out
}

/// What is captured for the target of an id.
pub fn start_plan(id: &str) -> (r: StartPlan)
    ensures
        r@ == start_plan_of(id@),
        r matches StartPlan::Unknown(e) ==> e is AudioSource,
        r matches StartPlan::Programs { failure: Some(e), .. } ==> e is AudioSource,
{
    match strip_prefix(id, "mic:") {
        Some(name) => {
            return StartPlan::Microphone(name);
        },
        None => {},
    }
    if text_eq(id, "system:all") {
        return StartPlan::Everything;
    }
    match strip_prefix(id, "system:") {
        Some(list) => {
            let pieces = split(list.as_str(), ',');
            let pids = read_leading_pids(&pieces);
            proof {
                assert(texts(pieces@).len() == pieces@.len());
            }
            let failure: Option<Error> = if pids.len() < pieces.len() {
                Some(Error::AudioSource(cat("非法音源 id: ", id)))
            } else {
                None
            };
            StartPlan::Programs { pids, failure }
        },
        None => StartPlan::Unknown(Error::AudioSource(cat("无法识别的音源 id: ", id))),
    }
}

/// A capture needs at least one target.
pub fn check_targets(target_ids: &Vec<String>) -> (r: Result<(), Error>)
    ensures
        match r {
            Ok(()) => target_ids@.len() > 0,
            Err(e) => target_ids@.len() == 0 && e is AudioSource && e->AudioSource_0@
                == "未选择任何音源"@,
        },
{
    if target_ids.len() == 0 {
        Err(Error::AudioSource("未选择任何音源".to_owned()))
    } else {
        Ok(())
    }
}

/// Everything that can be captured: the microphones, all of the system's
/// audio, and the programs with an audio session, those of one name together.
pub open spec fn offered_targets(
    microphones: Seq<Seq<char>>,
    sessions: Seq<(u32, Seq<char>)>,
    own_pid: u32,
) -> Seq<TargetView> {
    microphone_targets(microphones).push(whole_system_target()) + system_targets(
        session_programs(sessions, own_pid),
    )
}

/// Lists everything that can be captured.
pub fn list_targets(
    microphones: &Vec<String>,
    sessions: Vec<(u32, String)>,
    own_pid: u32,
) -> (r: Vec<CaptureTarget>)
    ensures
        target_views(r@) == offered_targets(
            texts(microphones@),
            session_views(sessions@),
            own_pid,
        ),
{
    let mut out = list_microphone_targets(microphones);
    let ghost mics = target_views(out@);
    let whole = whole_system();
    out.push(whole);
    proof {
        assert(target_views(out@) =~= mics.push(whole@));
    }
    let ghost first = out@;
    let mut more = build_system_targets(sessions, own_pid);
    let ghost added = more@;
    out.append(&mut more);
    proof {
        assert(target_views(out@) =~= target_views(first) + target_views(added));
    }
    out
}

/// The ids of programs, as they are grouped and written.
pub open spec fn widened(pids: Seq<u32>) -> Seq<i64> {
    pids.map_values(|p: u32| p as i64)
}

proof fn lemma_leading_decimals(pids: Seq<u32>)
    ensures
        leading_pids(pids.map_values(|p: u32| decimal(p as int))) == pids,
    decreases pids.len(),
{
    let list = pids.map_values(|p: u32| decimal(p as int));
    if pids.len() == 0 {
        assert(leading_pids(list) =~= pids);
    } else {
        let rest = pids.drop_first();
        lemma_leading_decimals(rest);
        assert(list.drop_first() =~= rest.map_values(|p: u32| decimal(p as int)));
        lemma_decimal_reads_back(pids[0] as int);
        assert(decimal(pids[0] as int)[0] != '-');
        assert(parse_u32_spec(list[0]) == Some(pids[0]));
        assert(leading_pids(list) =~= pids);
    }
}

/// The id of a target that merges programs of one name stands for all of them.
pub proof fn merged_target_starts_all(pids: Seq<u32>)
    requires
        pids.len() > 0,
    ensures
        start_plan_of("system:"@ + pid_list(widened(pids))) == (PlanView::Programs {
            pids,
            failure: None,
        }),
{
    let list = pid_list(widened(pids));
    let id = "system:"@ + list;
    reveal_strlit("system:");
    reveal_strlit("system:all");
    reveal_strlit("mic:");
    assert(id.skip("system:"@.len() as int) =~= list);
    assert(id.take("system:"@.len() as int) =~= "system:"@);
    lemma_pid_list_splits(widened(pids));
    assert(widened(pids).map_values(|p: i64| decimal(p as int)) =~= pids.map_values(
        |p: u32| decimal(p as int),
    ));
    lemma_leading_decimals(pids);
    assert(!starts_with_spec(id, "mic:"@)) by {
        assert(id[0] == 's');
        assert(id.take(4)[0] == 's');
    }
    assert(id != "system:all"@) by {
        lemma_pid_list_begins(widened(pids));
        assert(id[7] == list[0]);
        assert("system:all"@[7] == 'a');
    }
}

/// The id of a target tells what is captured: a microphone by its name,
/// everything, or nothing where it is unknown.
pub proof fn ids_tell_what_is_captured(name: Seq<char>)
    ensures
        start_plan_of("mic:"@ + name) == PlanView::Microphone(name),
        start_plan_of("system:all"@) == PlanView::Everything,
        !starts_with_spec(name, "mic:"@) && !starts_with_spec(name, "system:"@) && name
            != "system:all"@ ==> start_plan_of(name) == PlanView::Unknown(
            "无法识别的音源 id: "@ + name,
        ),
{
    reveal_strlit("mic:");
    reveal_strlit("system:all");
    let id = "mic:"@ + name;
    assert(id.take("mic:"@.len() as int) =~= "mic:"@);
    assert(id.skip("mic:"@.len() as int) =~= name);
    assert(!starts_with_spec("system:all"@, "mic:"@)) by {
        assert("system:all"@.take(4)[0] == 's');
    }
}

/// What is offered begins with the microphones, goes on with all that the
/// system plays, and ends with the programs that play something.
pub proof fn microphones_come_first(
    microphones: Seq<Seq<char>>,
    sessions: Seq<(u32, Seq<char>)>,
    own_pid: u32,
)
    ensures
        ({
            let n = microphone_targets(microphones).len() as int;
            let all = offered_targets(microphones, sessions, own_pid);
            &&& all.len() > n
            &&& all.take(n) == microphone_targets(microphones)
            &&& all[n].id == "system:all"@ && all[n].name == "系统音频（全部）"@
            &&& all.skip(n + 1) == system_targets(session_programs(sessions, own_pid))
        }),
{
    let n = microphone_targets(microphones).len() as int;
    let all = offered_targets(microphones, sessions, own_pid);
    assert(all.take(n) =~= microphone_targets(microphones));
    assert(all.skip(n + 1) =~= system_targets(session_programs(sessions, own_pid)));
}

/// The ids of a list are started one after the other; where one is no number,
/// those before it are started, and the start fails then.
pub proof fn ids_are_started_in_order(list: Seq<char>, piece: Seq<char>, rest: Seq<Seq<char>>)
    ensures
        list != "all"@ ==> start_plan_of("system:"@ + list) == (PlanView::Programs {
            pids: leading_pids(split_spec(list, ',')),
            failure: if leading_pids(split_spec(list, ',')).len() < split_spec(list, ',').len() {
                Some("非法音源 id: "@ + ("system:"@ + list))
            } else {
                None
            },
        }),
        leading_pids(Seq::<Seq<char>>::empty()).len() == 0,
        parse_u32_spec(piece) is None ==> leading_pids(seq![piece] + rest).len() == 0,
        parse_u32_spec(piece) is Some ==> leading_pids(seq![piece] + rest) == seq![
            parse_u32_spec(piece)->0,
        ] + leading_pids(rest),
{
    reveal_strlit("system:");
    reveal_strlit("system:all");
    reveal_strlit("all");
    reveal_strlit("mic:");
    let whole = "system:"@ + list;
    assert(whole.take("system:"@.len() as int) =~= "system:"@);
    assert(whole.skip("system:"@.len() as int) =~= list);
    assert(!starts_with_spec(whole, "mic:"@)) by {
        assert(whole[0] == 's');
        assert(whole.take(4)[0] == 's');
    }
    if whole == "system:all"@ {
        assert("system:all"@.skip("system:"@.len() as int) =~= "all"@);
    }
    let pieces = seq![piece] + rest;
    assert(pieces.drop_first() =~= rest);
    assert(pieces[0] == piece);
}

/// A plan says what it holds.
pub proof fn plans_say_what_they_hold(name: String, pids: Vec<u32>, e: Error)
    requires
        e is AudioSource,
    ensures
        StartPlan::Microphone(name)@ == PlanView::Microphone(name@),
        StartPlan::Everything@ == PlanView::Everything,
        (StartPlan::Programs { pids, failure: None })@ == (PlanView::Programs {
            pids: pids@,
            failure: None,
        }),
        (StartPlan::Programs { pids, failure: Some(e) })@ == (PlanView::Programs {
            pids: pids@,
            failure: Some(e->AudioSource_0@),
        }),
        StartPlan::Unknown(e)@ == PlanView::Unknown(e->AudioSource_0@),
{
}

} // verus!
