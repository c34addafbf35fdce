//! Names of audio files that are derived from the path of another file.

use crate::text::{
    cat3, ends_with_spec, lemma_numeral_injective, numeral, starts_with_spec, write_numeral,
};
use std::collections::hash_map::DefaultHasher;
use std::hash::{Hash, Hasher};
use vstd::prelude::*;
use vstd::std_specs::hash::*;

verus! {

/// What `Path::hash` writes to a hasher for a path, in a program that is built
/// for one path syntax and one word size: there the same path gives the same
/// writes, on whatever machine the program runs.
pub uninterp spec fn path_writes(path: Seq<char>) -> Seq<Seq<u8>>;

/// `<std::path::Path as Hash>::hash`: writes a path to a hasher. What is
/// written is a function of the path.
#[verifier::external_body]
fn hash_path(path: &str, hasher: &mut DefaultHasher)
    ensures
        final(hasher)@ == old(hasher)@ + path_writes(path@),
{
    std::path::Path::new(path).hash(hasher)
}

/// The hash of a path under the default hasher.
pub open spec fn path_hash(path: Seq<char>) -> u64 {
    DefaultHasher::spec_finish(path_writes(path))
}

/// The name for a hash.
pub open spec fn wav_name_text(hash: u64) -> Seq<char> {
    "shiyane-"@ + numeral(hash as nat, 16) + ".wav"@
}

/// The name for a hash.
pub fn wav_name_of_hash(hash: u64) -> (r: String)
    ensures
        r@ == wav_name_text(hash),
{
    let digits = write_numeral(hash, 16);
    cat3("shiyane-", digits.as_str(), ".wav")
}

/// The name that is derived from a path. The same path always gives the same
/// name.
pub fn wav_name(path: &str) -> (r: String)
    ensures
        r@ == wav_name_text(path_hash(path@)),
{
    let mut hasher = DefaultHasher::new();
    hash_path(path, &mut hasher);
    proof {
        assert(hasher@ =~= path_writes(path@));
    }
    wav_name_of_hash(hasher.finish())
}

/// A name depends on the path alone, is the same for two paths exactly where
/// their hashes are, and has the same front and end for every path.
pub proof fn names_follow_paths(a: Seq<char>, b: Seq<char>)
    ensures
        a == b ==> wav_name_text(path_hash(a)) == wav_name_text(path_hash(b)),
        wav_name_text(path_hash(a)) == wav_name_text(path_hash(b)) <==> path_hash(a) == path_hash(
            b,
        ),
        starts_with_spec(wav_name_text(path_hash(a)), "shiyane-"@),
        ends_with_spec(wav_name_text(path_hash(a)), ".wav"@),
{
    let x = numeral(path_hash(a) as nat, 16);
    let y = numeral(path_hash(b) as nat, 16);
    let front = "shiyane-"@;
    let end = ".wav"@;
    let s = front + x + end;
    let t = front + y + end;
    assert(s.take(front.len() as int) =~= front);
    assert(s.skip(s.len() - end.len()) =~= end);
    if s == t {
        assert(s.subrange(front.len() as int, s.len() - end.len()) =~= x);
        assert(t.subrange(front.len() as int, t.len() - end.len()) =~= y);
        lemma_numeral_injective(path_hash(a) as nat, path_hash(b) as nat, 16);
    }
}

} // verus!
