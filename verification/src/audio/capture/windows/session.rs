//! Audio sessions on Windows.

use crate::audio::capture::session_views;
use crate::text::{from_chars, opt_text, to_chars};
use vstd::prelude::*;

verus! {

/// What is known of an audio session.
#[derive(Debug)]
pub struct SessionInfo {
    /// Whether it plays something.
    pub active: bool,
    /// The program that it belongs to; zero for the system's own.
    pub pid: u32,
    /// The path of that program's file, where it could be found out.
    pub image_path: Option<String>,
}

/// The name of a file in a path: what follows the last separator.
pub open spec fn file_name_of(path: Seq<char>) -> Seq<char>
    decreases path.len(),
{
    if path.len() == 0 || path.last() == '\\' || path.last() == '/' {
        Seq::empty()
    } else {
        file_name_of(path.drop_last()).push(path.last())
    }
}

proof fn lemma_file_name(path: Seq<char>, i: int)
    requires
        0 <= i <= path.len(),
        forall|j: int| i <= j < path.len() ==> path[j] != '\\' && path[j] != '/',
        i > 0 ==> path[i - 1] == '\\' || path[i - 1] == '/',
    ensures
        file_name_of(path) == path.skip(i),
    decreases path.len() - i,
{
    if i == path.len() {
        assert(path.skip(i) =~= Seq::empty());
    } else {
        let shorter = path.drop_last();
        assert forall|j: int| i <= j < shorter.len() implies shorter[j] != '\\' && shorter[j]
            != '/' by {
            assert(shorter[j] == path[j]);
        }
        lemma_file_name(shorter, i);
        assert(shorter.skip(i).push(path.last()) =~= path.skip(i));
    }
}

/// The name of the file in a path.
pub fn process_exe_name(full_path: &str) -> (r: String)
    ensures
        r@ == file_name_of(full_path@),
{
    let mut chars = to_chars(full_path);
    let mut i: usize = chars.len();
    while i > 0 && chars[i - 1] != '\\' && chars[i - 1] != '/'
        invariant
            i <= chars.len(),
            chars@ == full_path@,
            forall|j: int| i <= j < chars.len() ==> chars[j] != '\\' && chars[j] != '/',
        decreases i,
    {
        i -= 1;
    }
    proof {
        lemma_file_name(full_path@, i as int);
    }
    let rest = chars.split_off(i);
    proof {
        assert(rest@ =~= full_path@.skip(i as int));
    }
    from_chars(&rest)
}

/// The programs of audio sessions: of each that plays something, belongs to a
/// program, and whose program could be found out, its id and file name.
pub open spec fn playing_programs(sessions: Seq<SessionInfo>) -> Seq<(u32, Seq<char>)>
    decreases sessions.len(),
{
    if sessions.len() == 0 {
        Seq::empty()
    } else {
        let before = playing_programs(sessions.drop_last());
        let s = sessions.last();
        match opt_text(s.image_path) {
            Some(path) => if s.active && s.pid != 0 {
                before.push((s.pid, file_name_of(path)))
            } else {
                before
            },
            None => before,
        }
    }
}

/// The programs of audio sessions.
pub fn enumerate_audio_sessions(sessions: &Vec<SessionInfo>) -> (r: Vec<(u32, String)>)
    ensures
        session_views(r@) == playing_programs(sessions@),
{
    let mut out: Vec<(u32, String)> = Vec::new();
    let mut i: usize = 0;
    proof {
        assert(session_views(out@) =~= playing_programs(sessions@.take(0)));
    }
    while i < sessions.len()
        invariant
            i <= sessions.len(),
            session_views(out@) == playing_programs(sessions@.take(i as int)),
        decreases sessions.len() - i,
    {
        let s = &sessions[i];
        let ghost before = out@;
        proof {
            assert(sessions@.take(i + 1).drop_last() =~= sessions@.take(i as int));
            assert(sessions@.take(i + 1).last() == *s);
        }
        match &s.image_path {
            Some(path) => {
                if s.active && s.pid != 0 {
                    let name = process_exe_name(path.as_str());
                    out.push((s.pid, name));
                    proof {
                        assert(session_views(out@) =~= session_views(before).push((s.pid, name@)));
                    }
                }
            },
            None => {},
        }
        i += 1;
    }
    proof {
        assert(sessions@.take(sessions@.len() as int) =~= sessions@);
    }
    out
}

/// The name of a file is what follows the last separator of its path, of
/// either kind, and the whole path where there is none.
pub proof fn file_name_follows_the_last_separator(dir: Seq<char>, name: Seq<char>)
    requires
        !name.contains('\\'),
        !name.contains('/'),
    ensures
        file_name_of(name) == name,
        file_name_of(dir + seq!['\\'] + name) == name,
        file_name_of(dir + seq!['/'] + name) == name,
{
    let back = dir + seq!['\\'] + name;
    let slash = dir + seq!['/'] + name;
    let n = (dir.len() + 1) as int;
    assert forall|j: int| 0 <= j < name.len() implies #[trigger] name[j] != '\\' && name[j]
        != '/' by {
        assert(name.contains(name[j]));
    }
    assert forall|j: int| n <= j < back.len() implies back[j] != '\\' && back[j] != '/' by {
        assert(back[j] == name[j - n]);
    }
    assert forall|j: int| n <= j < slash.len() implies slash[j] != '\\' && slash[j] != '/' by {
        assert(slash[j] == name[j - n]);
    }
    lemma_file_name(name, 0);
    lemma_file_name(back, n);
    lemma_file_name(slash, n);
    assert(name.skip(0) =~= name);
    assert(back.skip(n) =~= name);
    assert(slash.skip(n) =~= name);
}

/// An audio session stands for its program, under the name of its file, where
/// it plays something, belongs to a program, and the file is known.
pub proof fn playing_sessions_stand_for_programs(sessions: Seq<SessionInfo>, s: SessionInfo)
    ensures
        playing_programs(Seq::<SessionInfo>::empty()).len() == 0,
        s.active && s.pid != 0 && s.image_path is Some ==> playing_programs(sessions.push(s))
            == playing_programs(sessions).push((s.pid, file_name_of(s.image_path->0@))),
        !(s.active && s.pid != 0 && s.image_path is Some) ==> playing_programs(sessions.push(s))
            == playing_programs(sessions),
{
    assert(sessions.push(s).drop_last() =~= sessions);
}

} // verus!
