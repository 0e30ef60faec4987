//! The plan of an execution, staged before `fork`, and the choice of the
//! executable to try next, taken after it without allocating.

use vstd::prelude::*;
use vstd::slice::slice_to_vec;
use crate::cvec::{any_has_nul, contains_nul, contents, has_nul, is_c_string, CVec};
use crate::error::PosixError;
use crate::split::{
    lacks, lemma_longest_bounds, lemma_segments_hold_path_bytes, longest, segments, split_path,
    split_path_from,
};

verus! {

/// The byte that separates the directories of a file name.
pub const SLASH: u8 = 47;

/// `cmd` names a file by a path, so no search path is consulted for it.
pub open spec fn has_slash(cmd: Seq<u8>) -> bool {
    exists|i: int| 0 <= i < cmd.len() && cmd[i] == SLASH
}

/// The search path for `cmd`, given the value of `PATH`: none for a command
/// with a slash, and an empty value counts as absent.
pub open spec fn resolved_path(cmd: Seq<u8>, path_var: Option<Seq<u8>>) -> Option<Seq<u8>> {
    if has_slash(cmd) {
        None
    } else {
        match path_var {
            Some(p) => if p.len() == 0 {
                None
            } else {
                Some(p)
            },
            None => None,
        }
    }
}

/// The C string of the executable `cmd` in the directory `dir`.
pub open spec fn candidate(dir: Seq<u8>, cmd: Seq<u8>) -> Seq<u8> {
    (dir.push(SLASH) + cmd).push(0)
}

/// The C strings to hand to `exec`, in the order of trial: `cmd` in each
/// segment of the search path, or `cmd` alone where there is no search path.
pub open spec fn candidates(cmd: Seq<u8>, search_path: Option<Seq<u8>>) -> Seq<Seq<u8>> {
    match search_path {
        Some(p) => Seq::new(segments(p).len(), |k: int| candidate(segments(p)[k], cmd)),
        None => seq![cmd.push(0)],
    }
}

/// Room for the longest of the candidates.
pub open spec fn scratch_len(cmd: Seq<u8>, search_path: Option<Seq<u8>>) -> nat {
    match search_path {
        Some(p) => cmd.len() + 1 + 1 + longest(segments(p)),
        None => cmd.len() + 1,
    }
}

/// No candidate is longer than the scratch buffer is planned.
pub proof fn lemma_candidates_fit(cmd: Seq<u8>, search_path: Option<Seq<u8>>, k: int)
    requires
        0 <= k < candidates(cmd, search_path).len(),
    ensures
        candidates(cmd, search_path)[k].len() <= scratch_len(cmd, search_path),
{
    match search_path {
        Some(p) => {
            lemma_longest_bounds(segments(p), k);
        },
        None => {},
    }
}

/// The search path can be used: it holds no NUL byte, if there is one at
/// all.
pub open spec fn usable_path(search_path: Option<Seq<u8>>) -> bool {
    match search_path {
        Some(p) => !has_nul(p),
        None => true,
    }
}

/// Where neither the command nor the search path holds a NUL byte, every
/// candidate is a C string: `exec` reads each of them to its end.
pub proof fn lemma_candidates_are_c_strings(cmd: Seq<u8>, search_path: Option<Seq<u8>>, k: int)
    requires
        !has_nul(cmd),
        usable_path(search_path),
        0 <= k < candidates(cmd, search_path).len(),
    ensures
        is_c_string(candidates(cmd, search_path)[k]),
{
    let c = candidates(cmd, search_path)[k];
    match search_path {
        Some(p) => {
            assert(lacks(p, 0));
            lemma_segments_hold_path_bytes(p, 0);
            let dir = segments(p)[k];
            assert(lacks(dir, 0));
            let body = dir.push(SLASH) + cmd;
            assert(c.drop_last() =~= body);
            assert forall|i: int| 0 <= i < body.len() implies body[i] != 0 by {
                if i < dir.len() {
                    assert(body[i] == dir[i]);
                } else if i == dir.len() {
                } else {
                    assert(body[i] == cmd[i - dir.len() - 1]);
                }
            }
        },
        None => {
            assert(c.drop_last() =~= cmd);
        },
    }
}

/// What the child does next.
#[derive(Debug, Clone, Copy, PartialEq, Eq)]
pub enum ExecAction {
    /// Replace the process image by the executable whose name stands in the
    /// scratch buffer, with the plan's environment or with the inherited one.
    Exec { with_env: bool },
    /// Every candidate failed: give up with this error.
    Fail(PosixError),
}

/// Writes `dir`, a slash and `cmd`, or `cmd` alone, and a NUL into `buf`, in
/// place of what it held.
pub fn set_exe(buf: &mut Vec<u8>, dir: Option<&[u8]>, cmd: &[u8])
    ensures
        final(buf)@ == (match dir {
            Some(d) => candidate(d@, cmd@),
            None => cmd@.push(0),
        }),
{
    buf.truncate(0);
    match dir {
        Some(d) => {
            buf.extend_from_slice(d);
            buf.push(SLASH);
        },
        None => {},
    }
    buf.extend_from_slice(cmd);
    buf.push(0);
    proof {
        match dir {
            Some(d) => {
                assert(buf@ =~= candidate(d@, cmd@));
            },
            None => {
                assert(buf@ =~= cmd@.push(0));
            },
        }
    }
}

/// `Vec::capacity`: the room that the allocator gave the vector. All that is
/// claimed of it is that what the vector holds fits in it.
#[verifier::external_body]
fn buf_capacity(buf: &Vec<u8>) -> (n: usize)
    ensures
        n >= buf@.len(),
{
    buf.capacity()
}

/// A staged execution: the command, its arguments and environment as C
/// strings, the search path if one applies, and a scratch buffer with room
/// for every executable name that may have to be tried.
#[derive(Debug)]
pub struct FinishExec {
    cmd: Vec<u8>,
    argvec: CVec,
    envvec: Option<CVec>,
    search_path: Option<Vec<u8>>,
    exe_buf: Vec<u8>,
    max_exe_len: usize,
    cursor: usize,
    tried: bool,
}

impl FinishExec {
    /// The command, as it was given.
    pub closed spec fn cmd(&self) -> Seq<u8> {
        self.cmd@
    }

    /// The arguments.
    pub closed spec fn args(&self) -> CVec {
        self.argvec
    }

    /// The environment, where one was given.
    pub closed spec fn env(&self) -> Option<CVec> {
        self.envvec
    }

    /// The search path, where the command is looked up in one.
    pub closed spec fn search_path(&self) -> Option<Seq<u8>> {
        match self.search_path {
            Some(p) => Some(p@),
            None => None,
        }
    }

    /// What the scratch buffer holds.
    pub closed spec fn exe(&self) -> Seq<u8> {
        self.exe_buf@
    }

    /// The room that was reserved for the scratch buffer.
    pub closed spec fn capacity(&self) -> nat {
        self.max_exe_len as nat
    }

    /// How many candidates have been handed out.
    pub closed spec fn attempted(&self) -> nat {
        match self.search_path {
            Some(p) => (segments(p@).len() - segments(p@.skip(self.cursor as int)).len()) as nat,
            None => if self.tried {
                1
            } else {
                0
            },
        }
    }

    /// The candidates of this plan, in the order of trial.
    pub open spec fn plan(&self) -> Seq<Seq<u8>> {
        candidates(self.cmd(), self.search_path())
    }

    /// The command and the search path hold no NUL byte, the reserved room
    /// fits every candidate, the buffer is within it, and the candidates
    /// still to come are the last ones of the plan.
    pub closed spec fn wf(&self) -> bool {
        &&& !has_nul(self.cmd())
        &&& usable_path(self.search_path())
        &&& self.argvec.wf()
        &&& match self.envvec {
            Some(e) => e.wf(),
            None => true,
        }
        &&& self.max_exe_len == scratch_len(self.cmd(), self.search_path())
        &&& self.exe_buf@.len() <= self.max_exe_len
        &&& match self.search_path {
            Some(p) => self.cursor <= p@.len() && segments(p@.skip(self.cursor as int))
                == segments(p@).skip(self.attempted() as int) && self.attempted() <= segments(
                p@,
            ).len(),
            None => true,
        }
    }

    /// Stages an execution: reserves the scratch buffer for the longest
    /// candidate, so that nothing has to be allocated later.
    pub fn new(
        cmd: Vec<u8>,
        argvec: CVec,
        envvec: Option<CVec>,
        search_path: Option<Vec<u8>>,
    ) -> (plan: FinishExec)
        requires
            !has_nul(cmd@),
            search_path is Some ==> !has_nul(search_path.unwrap()@),
            argvec.wf(),
            envvec is Some ==> envvec.unwrap().wf(),
            scratch_len(
                cmd@,
                match search_path {
                    Some(p) => Some(p@),
                    None => None,
                },
            ) <= usize::MAX,
        ensures
            plan.wf(),
            plan.cmd() == cmd@,
            plan.args() == argvec,
            plan.env() == envvec,
            plan.search_path() == (match search_path {
                Some(p) => Some(p@),
                None => None,
            }),
            plan.capacity() == scratch_len(plan.cmd(), plan.search_path()),
            plan.attempted() == 0,
            plan.exe().len() == 0,
    {
        let mut max_exe_len: usize = cmd.len() + 1;
        match &search_path {
            Some(p) => {
                let mut sp = split_path(p.as_slice());
                let mut best: usize = 0;
                let ghost all = segments(p@);
                let ghost seen: int = 0;
                proof {
                    assert(all.skip(0) =~= all);
                    assert(all.take(0) =~= Seq::<Seq<u8>>::empty());
                }
                loop
                    invariant
                        sp.wf(),
                        0 <= seen <= all.len(),
                        sp@ == all.skip(seen),
                        best == longest(all.take(seen)),
                    ensures
                        seen == all.len(),
                    decreases all.len() - seen,
                {
                    match sp.next() {
                        Some(dir) => {
                            proof {
                                assert(all.skip(seen)[0] == all[seen]);
                                assert(all.skip(seen).skip(1) =~= all.skip(seen + 1));
                                assert(all.take(seen + 1).drop_last() =~= all.take(seen));
                                assert(all.take(seen + 1).last() == all[seen]);
                                seen = seen + 1;
                            }
                            if dir.len() > best {
                                best = dir.len();
                            }
                        },
                        None => {
                            break ;
                        },
                    }
                }
                proof {
                    assert(all.take(seen) =~= all);
                }
                max_exe_len = max_exe_len + 1 + best;
            },
            None => {},
        }
        let plan = FinishExec {
            cmd,
            argvec,
            envvec,
            search_path,
            exe_buf: Vec::with_capacity(max_exe_len),
            max_exe_len,
            cursor: 0,
            tried: false,
        };
        proof {
            match plan.search_path() {
                Some(p) => {
                    assert(p.skip(0) =~= p);
                    assert(segments(p).skip(0) =~= segments(p));
                },
                None => {},
            }
        }
        plan
    }

    /// The executable name that stands in the scratch buffer, NUL included.
    pub fn executable(&self) -> (b: &[u8])
        ensures
            b@ == self.exe(),
    {
        self.exe_buf.as_slice()
    }

    /// The room that was reserved for the scratch buffer at staging.
    pub fn reserved(&self) -> (n: usize)
        ensures
            n == self.capacity(),
    {
        self.max_exe_len
    }

    /// The room that the scratch buffer has now, as the allocator gave it.
    pub fn exe_capacity(&self) -> (n: usize)
        ensures
            n >= self.exe().len(),
    {
        buf_capacity(&self.exe_buf)
    }

    /// The argument vector.
    pub fn argvec(&self) -> (v: &CVec)
        ensures
            *v == self.args(),
    {
        &self.argvec
    }

    /// The environment vector, where the plan carries one.
    pub fn envvec(&self) -> (v: Option<&CVec>)
        ensures
            v is Some == self.env() is Some,
            v is Some ==> *v.unwrap() == self.env().unwrap(),
    {
        match &self.envvec {
            Some(e) => Some(e),
            None => None,
        }
    }

    /// Whether the plan carries an environment of its own.
    pub fn has_env(&self) -> (b: bool)
        ensures
            b == (self.env() is Some),
    {
        self.envvec.is_some()
    }

    /// The next step of the child. Call it once after `fork`, and again after
    /// each `exec` that returned, with the error number standing then. While
    /// candidates are left it writes the next one into the scratch buffer and
    /// asks for an `exec`; after the last it gives up with the error observed
    /// last. It allocates nothing: the buffer never outgrows the room
    /// reserved for it.
    pub fn finish(&mut self, errno: i32) -> (action: ExecAction)
        requires
            old(self).wf(),
        ensures
            final(self).wf(),
            final(self).cmd() == old(self).cmd(),
            final(self).args() == old(self).args(),
            final(self).env() == old(self).env(),
            final(self).search_path() == old(self).search_path(),
            final(self).capacity() == old(self).capacity(),
            final(self).exe().len() <= final(self).capacity(),
            action is Exec ==> is_c_string(final(self).exe()),
            old(self).attempted() < old(self).plan().len() ==> action == (ExecAction::Exec {
                with_env: old(self).env() is Some,
            }) && final(self).exe() == old(self).plan()[old(self).attempted() as int]
                && final(self).attempted() == old(self).attempted() + 1,
            old(self).attempted() >= old(self).plan().len() ==> action == ExecAction::Fail(
                PosixError::Os(errno),
            ) && final(self).exe() == old(self).exe() && final(self).attempted() == old(
                self,
            ).attempted(),
    {
        let with_env: bool = self.envvec.is_some();
        match &self.search_path {
            Some(p) => {
                let mut sp = split_path_from(p.as_slice(), self.cursor);
                let ghost rest = sp@;
                let ghost all = segments(p@);
                let ghost done = old(self).attempted() as int;
                match sp.next() {
                    Some(dir) => {
                        let pos: usize = sp.position();
                        proof {
                            assert(rest[0] == all[done]);
                            assert(all.skip(done).skip(1) =~= all.skip(done + 1));
                            lemma_candidates_fit(old(self).cmd(), old(self).search_path(), done);
                            lemma_candidates_are_c_strings(
                                old(self).cmd(),
                                old(self).search_path(),
                                done,
                            );
                        }
                        set_exe(&mut self.exe_buf, Some(dir), self.cmd.as_slice());
                        self.cursor = pos;
                        ExecAction::Exec { with_env }
                    },
                    None => ExecAction::Fail(PosixError::Os(errno)),
                }
            },
            None => {
                if self.tried {
                    ExecAction::Fail(PosixError::Os(errno))
                } else {
                    proof {
                        lemma_candidates_are_c_strings(old(self).cmd(), old(self).search_path(), 0);
                    }
                    set_exe(&mut self.exe_buf, None, self.cmd.as_slice());
                    self.tried = true;
                    ExecAction::Exec { with_env }
                }
            },
        }
    }
}

/// Whether `cmd` holds a slash.
pub fn contains_slash(cmd: &[u8]) -> (b: bool)
    ensures
        b == has_slash(cmd@),
{
    let n: usize = cmd.len();
    let mut i: usize = 0;
    while i < n
        invariant
            n == cmd@.len(),
            i <= n,
            forall|j: int| 0 <= j < i ==> cmd@[j] != SLASH,
        decreases n - i,
    {
        if cmd[i] == SLASH {
            return true;
        }
        i += 1;
    }
    false
}

/// Stages the execution of `cmd` with the arguments `args` and, where one is
/// given, the environment `env`. `path_var` is the value of `PATH` in the
/// caller's environment, if it is set: a command without a slash is looked
/// up in it. Fails where the command, an argument, an environment entry or
/// the search path to be used holds a NUL byte: none of them could be handed
/// to `exec` whole.
pub fn stage_exec(
    cmd: &[u8],
    args: &[Vec<u8>],
    env: Option<&[Vec<u8>]>,
    path_var: Option<&[u8]>,
) -> (r: Result<FinishExec, PosixError>)
    requires
        scratch_len(
            cmd@,
            resolved_path(
                cmd@,
                match path_var {
                    Some(p) => Some(p@),
                    None => None,
                },
            ),
        ) <= usize::MAX,
    ensures
        r is Err <==> has_nul(cmd@) || any_has_nul(args@) || (env is Some && any_has_nul(
            env.unwrap()@,
        )) || !usable_path(
            resolved_path(
                cmd@,
                match path_var {
                    Some(p) => Some(p@),
                    None => None,
                },
            ),
        ),
        r is Err ==> r.unwrap_err() == PosixError::InvalidArgument,
        r is Ok ==> {
            let plan = r.unwrap();
            &&& plan.wf()
            &&& plan.cmd() == cmd@
            &&& plan.args().wf()
            &&& plan.args()@ == contents(args@)
            &&& plan.env() is Some == env is Some
            &&& env is Some ==> plan.env().unwrap().wf() && plan.env().unwrap()@ == contents(
                env.unwrap()@,
            )
            &&& plan.search_path() == resolved_path(
                cmd@,
                match path_var {
                    Some(p) => Some(p@),
                    None => None,
                },
            )
            &&& plan.capacity() == scratch_len(plan.cmd(), plan.search_path())
            &&& plan.attempted() == 0
            &&& plan.exe().len() == 0
        },
{
    if contains_nul(cmd) {
        return Err(PosixError::InvalidArgument);
    }
    let argvec = match CVec::new(args) {
        Ok(v) => v,
        Err(_) => {
            return Err(PosixError::InvalidArgument);
        },
    };
    let envvec = match env {
        Some(list) => match CVec::new(list) {
            Ok(v) => Some(v),
            Err(_) => {
                return Err(PosixError::InvalidArgument);
            },
        },
        None => None,
    };
    let search_path: Option<Vec<u8>> = if !contains_slash(cmd) {
        match path_var {
            Some(p) => if p.len() == 0 {
                None
            } else if contains_nul(p) {
                return Err(PosixError::InvalidArgument);
            } else {
                Some(slice_to_vec(p))
            },
            None => None,
        }
    } else {
        None
    };
    Ok(FinishExec::new(slice_to_vec(cmd), argvec, envvec, search_path))
}

} // verus!
