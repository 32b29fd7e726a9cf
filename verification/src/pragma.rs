//! The SQL-engine pragma surface: names of the form `graft_<cmd>` are
//! parsed into commands, and evaluating a command yields structured
//! output that the engine integration renders as text.

use vstd::prelude::*;
use crate::storage::Storage;
use crate::vfs::{VolFile, ErrCtx};
use crate::volume_state::Snapshot;

verus! {

/// The pragmas the volume runtime understands.
#[derive(Clone, Copy, Debug, PartialEq, Eq, Structural)]
pub enum GraftPragma {
    /// `pragma graft_status;` — a status report.
    Status,
    /// `pragma graft_snapshot;` — the current snapshot.
    Snapshot,
    /// `pragma graft_sync = true|false;` — toggles autosync.
    SetAutosync(bool),
}

/// Why a pragma was not understood.
#[derive(Clone, Copy, Debug, PartialEq, Eq, Structural)]
pub enum PragmaErr {
    /// Not a pragma of this extension.
    NotFound,
    /// The pragma needs an argument and none was given.
    RequiredArg,
    /// The prefix matched but the command is unknown.
    UnknownPragma,
    /// The argument does not parse.
    BadArg,
    /// The evaluation itself failed.
    Failed,
}

/// Index of the first underscore of a name, or a negative value.
pub open spec fn first_underscore(s: Seq<u8>) -> int
    decreases s.len(),
{
    if s.len() == 0 {
        -1
    } else if s[0] == 95 {
        0
    } else {
        let r = first_underscore(s.skip(1));
        if r < 0 {
            -1
        } else {
            r + 1
        }
    }
}

pub open spec fn graft_bytes() -> Seq<u8> {
    seq![103u8, 114u8, 97u8, 102u8, 116u8]
}

pub open spec fn status_bytes() -> Seq<u8> {
    seq![115u8, 116u8, 97u8, 116u8, 117u8, 115u8]
}

pub open spec fn snapshot_suffix_bytes() -> Seq<u8> {
    seq![115u8, 110u8, 97u8, 112u8, 115u8, 104u8, 111u8, 116u8]
}

pub open spec fn sync_bytes() -> Seq<u8> {
    seq![115u8, 121u8, 110u8, 99u8]
}

pub open spec fn true_bytes() -> Seq<u8> {
    seq![116u8, 114u8, 117u8, 101u8]
}

pub open spec fn false_bytes() -> Seq<u8> {
    seq![102u8, 97u8, 108u8, 115u8, 101u8]
}

/// What a pragma name and optional argument denote: the name must be
/// `graft` up to its first underscore, and the part after it selects
/// the command; `sync` takes a boolean argument.
pub open spec fn parse_pragma_spec(name: Seq<u8>, arg: Option<Seq<u8>>) -> Result<
    GraftPragma,
    PragmaErr,
> {
    let i = first_underscore(name);
    if i < 0 || name.take(i) != graft_bytes() {
        Err(PragmaErr::NotFound)
    } else {
        let suffix = name.skip(i + 1);
        if suffix == status_bytes() {
            Ok(GraftPragma::Status)
        } else if suffix == snapshot_suffix_bytes() {
            Ok(GraftPragma::Snapshot)
        } else if suffix == sync_bytes() {
            match arg {
                None => Err(PragmaErr::RequiredArg),
                Some(a) => if a == true_bytes() {
                    Ok(GraftPragma::SetAutosync(true))
                } else if a == false_bytes() {
                    Ok(GraftPragma::SetAutosync(false))
                } else {
                    Err(PragmaErr::BadArg)
                },
            }
        } else {
            Err(PragmaErr::UnknownPragma)
        }
    }
}

/// Parses a pragma name and optional argument.
pub fn parse_pragma(name: &[u8], arg: Option<&Vec<u8>>) -> (r: Result<GraftPragma, PragmaErr>)
    ensures
        r == parse_pragma_spec(name@, match arg {
            Some(a) => Some(a@),
            None => None,
        }),
{
    let n = name.len();
    let mut i: usize = 0;
    while i < n && name[i] != 95
        invariant
            i <= n,
            n == name@.len(),
            forall|j: int| 0 <= j < i ==> name@[j] != 95,
        decreases n - i,
    {
        i = i + 1;
    }
    if i == n {
        proof {
            lemma_no_underscore(name@);
        }
        return Err(PragmaErr::NotFound);
    }
    proof {
        lemma_underscore_at(name@, i as int);
    }
    let prefix = crate::commit::slice_range(name, 0, i);
    let lit_graft: [u8; 5] = [103, 114, 97, 102, 116];
    if !(prefix.len() == 5 && crate::codec::bytes_eq(prefix.as_slice(), lit_graft.as_slice())) {
        proof {
            assert(lit_graft@ =~= graft_bytes());
            assert(name@.take(i as int) == prefix@);
        }
        return Err(PragmaErr::NotFound);
    }
    proof {
        assert(lit_graft@ =~= graft_bytes());
        assert(name@.take(i as int) == prefix@);
    }
    let suffix = crate::commit::slice_range(name, i + 1, n);
    proof {
        assert(suffix@ =~= name@.skip(i + 1));
    }
    let lit_status: [u8; 6] = [115, 116, 97, 116, 117, 115];
    let lit_snapshot: [u8; 8] = [115, 110, 97, 112, 115, 104, 111, 116];
    let lit_sync: [u8; 4] = [115, 121, 110, 99];
    proof {
        assert(lit_status@ =~= status_bytes());
        assert(lit_snapshot@ =~= snapshot_suffix_bytes());
        assert(lit_sync@ =~= sync_bytes());
    }
    if crate::codec::bytes_eq(suffix.as_slice(), lit_status.as_slice()) {
        Ok(GraftPragma::Status)
    } else if crate::codec::bytes_eq(suffix.as_slice(), lit_snapshot.as_slice()) {
        Ok(GraftPragma::Snapshot)
    } else if crate::codec::bytes_eq(suffix.as_slice(), lit_sync.as_slice()) {
        match arg {
            None => Err(PragmaErr::RequiredArg),
            Some(a) => {
                let lit_true: [u8; 4] = [116, 114, 117, 101];
                let lit_false: [u8; 5] = [102, 97, 108, 115, 101];
                proof {
                    assert(lit_true@ =~= true_bytes());
                    assert(lit_false@ =~= false_bytes());
                }
                if crate::codec::bytes_eq(a.as_slice(), lit_true.as_slice()) {
                    Ok(GraftPragma::SetAutosync(true))
                } else if crate::codec::bytes_eq(a.as_slice(), lit_false.as_slice()) {
                    Ok(GraftPragma::SetAutosync(false))
                } else {
                    Err(PragmaErr::BadArg)
                }
            },
        }
    } else {
        Err(PragmaErr::UnknownPragma)
    }
}

proof fn lemma_no_underscore(s: Seq<u8>)
    requires
        forall|j: int| 0 <= j < s.len() ==> s[j] != 95,
    ensures
        first_underscore(s) < 0,
    decreases s.len(),
{
    if s.len() > 0 {
        assert forall|j: int| 0 <= j < s.skip(1).len() implies s.skip(1)[j] != 95 by {
            assert(s.skip(1)[j] == s[j + 1]);
        }
        lemma_no_underscore(s.skip(1));
    }
}

proof fn lemma_underscore_at(s: Seq<u8>, i: int)
    requires
        0 <= i < s.len(),
        s[i] == 95,
        forall|j: int| 0 <= j < i ==> s[j] != 95,
    ensures
        first_underscore(s) == i,
    decreases i,
{
    if i > 0 {
        assert forall|j: int| 0 <= j < i - 1 implies s.skip(1)[j] != 95 by {
            assert(s.skip(1)[j] == s[j + 1]);
        }
        assert(s.skip(1)[i - 1] == s[i]);
        lemma_underscore_at(s.skip(1), i - 1);
    }
}

/// The structured result of one pragma, for the integration layer to
/// render.
#[derive(Clone, Copy, Debug, PartialEq, Eq, Structural)]
pub enum PragmaResult {
    /// The status report: the current snapshot and the autosync flag.
    StatusReport { snapshot: Option<Snapshot>, autosync: bool },
    /// The current snapshot, if any.
    SnapshotText { snapshot: Option<Snapshot> },
    /// The pragma changed a setting and produces no output.
    Done,
}

impl GraftPragma {
    /// Evaluates the pragma against one open file: the status pragmas
    /// report the file's current view, and the sync pragma toggles the
    /// autosync flag.
    pub fn eval(self, autosync: &mut bool, file: &VolFile, st: &Storage) -> (r: Result<
        PragmaResult,
        ErrCtx,
    >)
        ensures
            self is SetAutosync ==> r == Ok::<PragmaResult, ErrCtx>(PragmaResult::Done) && *final(autosync) == self->SetAutosync_0,
            !(self is SetAutosync) ==> *final(autosync) == *old(autosync),
            self is Status || self is Snapshot ==> (r is Err <==> file.state is Committing),
            r is Err ==> r == Err::<PragmaResult, ErrCtx>(ErrCtx::InvalidVolumeState),
            self is Status ==> (r matches Ok(pr) ==> pr matches PragmaResult::StatusReport {
                snapshot,
                autosync: a,
            } && a == *old(autosync) && snapshot == file_view_snapshot(*file, *st)),
            self is Snapshot ==> (r matches Ok(pr) ==> pr matches PragmaResult::SnapshotText {
                snapshot,
            } && snapshot == file_view_snapshot(*file, *st)),
    {
        match self {
            GraftPragma::Status => {
                let snapshot = match file.snapshot_or_latest(st) {
                    Ok(s) => s,
                    Err(e) => {
                        return Err(e);
                    },
                };
                Ok(PragmaResult::StatusReport { snapshot, autosync: *autosync })
            },
            GraftPragma::Snapshot => {
                let snapshot = match file.snapshot_or_latest(st) {
                    Ok(s) => s,
                    Err(e) => {
                        return Err(e);
                    },
                };
                Ok(PragmaResult::SnapshotText { snapshot })
            },
            GraftPragma::SetAutosync(b) => {
                *autosync = b;
                Ok(PragmaResult::Done)
            },
        }
    }
}

/// The snapshot a file's current view reads from.
pub open spec fn file_view_snapshot(f: VolFile, st: Storage) -> Option<Snapshot> {
    match f.state {
        crate::vfs::VolFileState::Idle => match crate::storage::find_volume(
            st.volumes@,
            f.handle.vid@,
        ) {
            Some(rec) => rec.snapshot,
            None => None,
        },
        crate::vfs::VolFileState::Shared { reader } => reader.snapshot,
        crate::vfs::VolFileState::Reserved { writer } => writer.base,
        crate::vfs::VolFileState::Committing => None,
    }
}

} // verus!
