//! Session directory resolution.
//!
//! At startup the process resolves where seeds come from and where
//! output goes. A fresh session keeps the caller's input directory and
//! demands a newly created output directory. A resumed session —
//! requested by the literal input directory `-` — archives the previous
//! output tree under a timestamp-suffixed name, recreates an empty
//! output tree, and draws its seeds from the archived tree's inputs
//! subdirectory. Paths are handled as byte strings; the surrounding
//! process performs the actual directory creation and rename, and fails
//! fatally when any of it cannot be done.

use vstd::prelude::*;

verus! {

/// The working directory name the archive derives from: `angora`.
pub open spec fn workdir_bytes() -> Seq<u8> {
    seq![97u8, 110u8, 103u8, 111u8, 114u8, 97u8]
}

/// The inputs subdirectory a session keeps its queue of seeds in:
/// `queue`.
pub open spec fn inputs_subdir_bytes() -> Seq<u8> {
    seq![113u8, 117u8, 101u8, 117u8, 101u8]
}

/// The input-directory literal that requests a resumed session: `-`.
pub open spec fn resume_marker() -> Seq<u8> {
    seq![45u8]
}

/// The name the previous output tree is archived under: the working
/// directory name, a dot, and the timestamp.
pub open spec fn spec_archive_name(ts: Seq<u8>) -> Seq<u8> {
    workdir_bytes() + seq![46u8] + ts
}

/// Where a resumed session draws its seeds from: the archived tree's
/// inputs subdirectory.
pub open spec fn spec_resume_seeds(ts: Seq<u8>) -> Seq<u8> {
    spec_archive_name(ts) + seq![47u8] + inputs_subdir_bytes()
}

/// The resolved directory layout of one session.
pub struct SessionPlan {
    /// Where seeds are read from.
    pub seeds_dir: Vec<u8>,
    /// The output tree; the surrounding process creates it fresh and
    /// must fail if it already exists.
    pub out_dir: Vec<u8>,
    /// On a resumed session, the name the previous output tree is
    /// renamed to before the new one is created; `None` on a fresh one.
    pub archived_dir: Option<Vec<u8>>,
}

/// Relies on chrono's `Local::now` and `DateTime::to_rfc3339`: the
/// current local time as an RFC 3339 date-and-time string such as
/// `1996-12-19T16:39:57-08:00`; a string of that shape is never empty.
#[verifier::external_body]
fn now_rfc3339() -> (ts: Vec<u8>)
    ensures
        ts@.len() > 0,
{
    chrono::Local::now().to_rfc3339().into_bytes()
}

/// Append a fixed byte to a path under construction.
fn push_byte(dst: &mut Vec<u8>, b: u8)
    ensures
        final(dst)@ == old(dst)@ + seq![b],
{
    dst.push(b);
}

/// Append a whole byte string to a path under construction.
fn push_bytes(dst: &mut Vec<u8>, src: &Vec<u8>)
    ensures
        final(dst)@ == old(dst)@ + src@,
{
    let n = src.len();
    let mut i: usize = 0;
    proof {
        assert(dst@ + src@.subrange(0, 0) =~= dst@);
    }
    while i < n
        invariant
            n == src@.len(),
            0 <= i <= n,
            dst@ == old(dst)@ + src@.subrange(0, i as int),
        decreases n - i,
    {
        dst.push(src[i]);
        proof {
            assert(old(dst)@ + src@.subrange(0, i + 1)
                =~= (old(dst)@ + src@.subrange(0, i as int)) + seq![src@[i as int]]);
        }
        i = i + 1;
    }
    proof {
        assert(src@.subrange(0, n as int) =~= src@);
    }
}

/// Is this input directory the resume marker `-`?
pub fn is_resume(in_dir: &Vec<u8>) -> (r: bool)
    ensures
        r == (in_dir@ == resume_marker()),
{
    let r = in_dir.len() == 1 && in_dir[0] == 45;
    proof {
        if r {
            assert(in_dir@ =~= resume_marker());
        } else if in_dir@ == resume_marker() {
            assert(in_dir@.len() == 1 && in_dir@[0] == 45);
        }
    }
    r
}

/// The name the previous output tree is archived under for a resume at
/// the given timestamp.
pub fn archive_name(ts: &Vec<u8>) -> (r: Vec<u8>)
    ensures
        r@ == spec_archive_name(ts@),
{
    let mut r: Vec<u8> = Vec::new();
    r.push(97);  // "angora"
    r.push(110);
    r.push(103);
    r.push(111);
    r.push(114);
    r.push(97);
    proof {
        assert(r@ =~= workdir_bytes());
    }
    push_byte(&mut r, 46);  // "."
    push_bytes(&mut r, ts);
    r
}

/// Resolve the session layout from the requested directories and the
/// timestamp a resume would archive under. The fresh session keeps the
/// input directory as its seed source and archives nothing; the resumed
/// session archives the old output tree and reads seeds from the
/// archive's inputs subdirectory. The output directory is the requested
/// one either way.
pub fn plan_session(in_dir: &Vec<u8>, out_dir: &Vec<u8>, ts: &Vec<u8>) -> (p: SessionPlan)
    ensures
        p.out_dir@ == out_dir@,
        in_dir@ != resume_marker() ==> p.seeds_dir@ == in_dir@ && p.archived_dir is None,
        in_dir@ == resume_marker() ==> (p.archived_dir matches Some(a) && a@ == spec_archive_name(
            ts@,
        )) && p.seeds_dir@ == spec_resume_seeds(ts@),
{
    let out_copy = copy_bytes(out_dir);
    if is_resume(in_dir) {
        let archived = archive_name(ts);
        let mut seeds = copy_bytes(&archived);
        push_byte(&mut seeds, 47);  // "/"
        let queue = queue_bytes();
        push_bytes(&mut seeds, &queue);
        SessionPlan { seeds_dir: seeds, out_dir: out_copy, archived_dir: Some(archived) }
    } else {
        let seeds = copy_bytes(in_dir);
        SessionPlan { seeds_dir: seeds, out_dir: out_copy, archived_dir: None }
    }
}

/// Resolve the session layout, stamping a resume with the current local
/// time. A fresh session is fully pinned; a resumed one archives under
/// the working directory name suffixed with some non-empty timestamp and
/// reads seeds from that archive's inputs subdirectory.
pub fn resolve_session(in_dir: &Vec<u8>, out_dir: &Vec<u8>) -> (p: SessionPlan)
    ensures
        p.out_dir@ == out_dir@,
        in_dir@ != resume_marker() ==> p.seeds_dir@ == in_dir@ && p.archived_dir is None,
        in_dir@ == resume_marker() ==> (exists|ts: Seq<u8>|
            ts.len() > 0 && (p.archived_dir matches Some(a) && a@ == #[trigger] spec_archive_name(
                ts,
            )) && p.seeds_dir@ == spec_resume_seeds(ts)),
{
    if is_resume(in_dir) {
        let ts = now_rfc3339();
        let p = plan_session(in_dir, out_dir, &ts);
        proof {
            assert(ts@.len() > 0 && (p.archived_dir matches Some(a) && a@ == spec_archive_name(
                ts@,
            )) && p.seeds_dir@ == spec_resume_seeds(ts@));
        }
        p
    } else {
        let ts: Vec<u8> = Vec::new();
        plan_session(in_dir, out_dir, &ts)
    }
}

/// The nested output directory used when syncing alongside an AFL-style
/// run: the requested directory with the working directory name joined
/// beneath it.
pub fn afl_out_dir(out_dir: &Vec<u8>) -> (r: Vec<u8>)
    ensures
        r@ == out_dir@ + seq![47u8] + workdir_bytes(),
{
    let mut r = copy_bytes(out_dir);
    push_byte(&mut r, 47);  // "/"
    r.push(97);  // "angora"
    r.push(110);
    r.push(103);
    r.push(111);
    r.push(114);
    r.push(97);
    proof {
        assert(r@ =~= out_dir@ + seq![47u8] + workdir_bytes());
    }
    r
}

/// A copy of a path's bytes.
fn copy_bytes(src: &Vec<u8>) -> (r: Vec<u8>)
    ensures
        r@ == src@,
{
    let mut r: Vec<u8> = Vec::new();
    push_bytes(&mut r, src);
    proof {
        assert(Seq::<u8>::empty() + src@ =~= src@);
    }
    r
}

/// The inputs subdirectory name as bytes.
fn queue_bytes() -> (r: Vec<u8>)
    ensures
        r@ == inputs_subdir_bytes(),
{
    let mut r: Vec<u8> = Vec::new();
    r.push(113);  // "queue"
    r.push(117);
    r.push(101);
    r.push(117);
    r.push(101);
    proof {
        assert(r@ =~= inputs_subdir_bytes());
    }
    r
}

/// Law: repeated resumes archive under distinct names whenever their
/// timestamps differ; the timestamp is recovered intact from the name.
pub proof fn lemma_archive_names_distinct(t1: Seq<u8>, t2: Seq<u8>)
    requires
        t1 != t2,
    ensures
        spec_archive_name(t1) != spec_archive_name(t2),
{
    if spec_archive_name(t1) == spec_archive_name(t2) {
        assert(spec_archive_name(t1).len() == 7 + t1.len());
        assert(spec_archive_name(t2).len() == 7 + t2.len());
        assert forall|i: int| 0 <= i < t1.len() implies t1[i] == t2[i] by {
            assert(spec_archive_name(t1)[7 + i] == t1[i]);
            assert(spec_archive_name(t2)[7 + i] == t2[i]);
        }
        assert(t1 =~= t2);
    }
}

} // verus!
