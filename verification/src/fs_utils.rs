//! Paths as text: joining, picking the first existing candidate, and the
//! name of the temporary file an atomic write goes through.
use vstd::prelude::*;
use crate::text::{chars_of, push_decimal, push_str, string_of, decimal};

verus! {

/// `base` joined with the relative path `rel`, as `Path::join` does: a
/// separator is added unless `base` is empty or already ends with one.
pub open spec fn path_join(base: Seq<char>, rel: Seq<char>) -> Seq<char> {
    if base.len() == 0 {
        rel
    } else if base.last() == '/' {
        base + rel
    } else {
        base + seq!['/'] + rel
    }
}

/// Joins a relative path onto a base path.
pub fn join_path(base: &str, rel: &str) -> (r: String)
    ensures
        r@ == path_join(base@, rel@),
{
    let b = chars_of(base);
    let mut out: Vec<char> = Vec::new();
    push_str(&mut out, base);
    if b.len() > 0 && b[b.len() - 1] != '/' {
        out.push('/');
    }
    push_str(&mut out, rel);
    proof {
        if b@.len() == 0 {
            assert(out@ =~= rel@);
        } else if b@.last() == '/' {
            assert(out@ =~= base@ + rel@);
        } else {
            assert(out@ =~= base@ + seq!['/'] + rel@);
        }
    }
    string_of(out.as_slice())
}

/// The existence check answered `answer` for some path with text `p`.
pub open spec fn reported<F: Fn(&str) -> bool>(present: F, p: Seq<char>, answer: bool) -> bool {
    exists|s: &str| s@ == p && call_ensures(present, (s,), answer)
}

/// The index of the first candidate the existence check reports as present:
/// every earlier candidate was reported absent.
pub open spec fn first_present<F: Fn(&str) -> bool>(present: F, cands: Seq<Seq<char>>, k: int) -> bool {
    &&& 0 <= k < cands.len()
    &&& reported(present, cands[k], true)
    &&& forall|j: int| 0 <= j < k ==> reported(present, #[trigger] cands[j], false)
}

/// Asks `present` about each candidate in order and returns the index of the
/// first one it reports as present.
pub fn first_existing<F: Fn(&str) -> bool>(cands: &Vec<String>, present: &F) -> (r: Option<usize>)
    requires
        forall|s: &str| present.requires((s,)),
    ensures
        match r {
            Some(k) => first_present(*present, cands@.map_values(|c: String| c@), k as int),
            None => forall|j: int| 0 <= j < cands@.len() ==> reported(*present, #[trigger] cands@[j]@, false),
        },
{
    let ghost cv = cands@.map_values(|c: String| c@);
    let mut i: usize = 0;
    while i < cands.len()
        invariant
            i <= cands@.len(),
            cv == cands@.map_values(|c: String| c@),
            forall|s: &str| present.requires((s,)),
            forall|j: int| 0 <= j < i ==> reported(*present, #[trigger] cands@[j]@, false),
        decreases cands@.len() - i,
    {
        let p = cands[i].as_str();
        let found = present(p);
        if found {
            assert(reported(*present, cv[i as int], true));
            assert forall|j: int| 0 <= j < i implies reported(*present, #[trigger] cv[j], false) by {
                assert(cv[j] == cands@[j]@);
            }
            return Some(i);
        }
        assert(reported(*present, cands@[i as int]@, false));
        i = i + 1;
    }
    None
}

/// The name of the temporary file written before the rename of an atomic
/// write: `.<file name>.tmp.<pid>.<milliseconds>`.
pub open spec fn temp_name(file_name: Seq<char>, pid: nat, millis: nat) -> Seq<char> {
    seq!['.'] + file_name + ".tmp."@ + decimal(pid) + seq!['.'] + decimal(millis)
}

/// Builds the temporary file name for an atomic write of `file_name`.
pub fn temp_file_name(file_name: &str, pid: u32, millis: u128) -> (r: String)
    ensures
        r@ == temp_name(file_name@, pid as nat, millis as nat),
{
    let mut out: Vec<char> = Vec::new();
    out.push('.');
    push_str(&mut out, file_name);
    push_str(&mut out, ".tmp.");
    push_decimal(&mut out, pid as u128);
    out.push('.');
    push_decimal(&mut out, millis);
    proof {
        reveal_strlit(".tmp.");
        assert(out@ =~= temp_name(file_name@, pid as nat, millis as nat));
    }
    string_of(out.as_slice())
}

} // verus!
