//! The process directory: what a snapshot of the running processes holds,
//! which of them a listing shows, and what the outcome of a request to
//! terminate one means.
//!
//! Taking the snapshot and sending the signal are the caller's part.

use vstd::prelude::*;
use crate::text::{
    containing, contains, each_text, has_substring, lemma_picked_is_filter, lowercase,
    lowercase_chars, picked,
};

verus! {

/// One running process at the time of a snapshot.
#[derive(Clone, Debug, PartialEq, Eq)]
pub struct ProcessInfo {
    /// Process identifier.
    pub pid: u32,
    /// Display name.
    pub name: String,
    /// Share of processor time, in hundredths of a percent.
    pub cpu_hundredths: u32,
    /// Resident memory, in kibibytes.
    pub memory_kib: u64,
}

/// Mathematical content of a [`ProcessInfo`].
pub struct ProcessRecord {
    pub pid: u32,
    pub name: Seq<char>,
    pub cpu_hundredths: u32,
    pub memory_kib: u64,
}

impl View for ProcessInfo {
    type V = ProcessRecord;

    open spec fn view(&self) -> ProcessRecord {
        ProcessRecord {
            pid: self.pid,
            name: self.name@,
            cpu_hundredths: self.cpu_hundredths,
            memory_kib: self.memory_kib,
        }
    }
}

/// The contents of a list of processes, position by position.
pub open spec fn process_records(processes: Seq<ProcessInfo>) -> Seq<ProcessRecord> {
    Seq::new(processes.len(), |i: int| processes[i]@)
}

/// The test that a process passes when its name contains `fragment`, case ignored.
pub open spec fn named_like(fragment: Seq<char>) -> spec_fn(ProcessRecord) -> bool {
    |process: ProcessRecord| contains(lowercase(process.name), lowercase(fragment))
}

/// The processes of a snapshot that a listing shows: all of them without a
/// filter, and with one those whose name contains it, case ignored. Either
/// way they keep the order of the snapshot.
pub open spec fn listed(snapshot: Seq<ProcessRecord>, filter: Option<Seq<char>>) -> Seq<
    ProcessRecord,
> {
    match filter {
        Some(fragment) => snapshot.filter(named_like(fragment)),
        None => snapshot,
    }
}

/// Why a process could not be terminated.
#[derive(Clone, Copy, Debug, PartialEq, Eq)]
pub enum TerminateError {
    /// The caller may not signal this process.
    PermissionDenied,
    /// The signal could not be sent for any other reason, such as there
    /// being no such process.
    OperationFailed,
}

/// The error number with which the system refuses a signal for want of permission.
pub const EPERM: i32 = 1;

/// What an error number from sending a signal means; zero means success.
pub open spec fn signal_outcome(errno: i32) -> Result<(), TerminateError> {
    if errno == 0 {
        Ok(())
    } else if errno == EPERM {
        Err(TerminateError::PermissionDenied)
    } else {
        Err(TerminateError::OperationFailed)
    }
}

impl ProcessInfo {
    /// A copy with the same contents.
    pub fn duplicate(&self) -> (out: ProcessInfo)
        ensures
            out@ == self@,
    {
        ProcessInfo {
            pid: self.pid,
            name: self.name.clone(),
            cpu_hundredths: self.cpu_hundredths,
            memory_kib: self.memory_kib,
        }
    }
}

/// The processes of `snapshot` whose name holds `needle`, in the order of
/// the snapshot, where `names` gives the name of each process in the form
/// in which it is searched. A process without a name in `names` is left out.
pub fn list_lowered(snapshot: &Vec<ProcessInfo>, names: &Vec<Vec<char>>, needle: &Vec<char>) -> (shown:
    Vec<ProcessInfo>)
    ensures
        process_records(shown@) == picked(
            process_records(snapshot@),
            containing(each_text(names@), needle@),
        ),
{
    let ghost keep = containing(each_text(names@), needle@);
    let mut shown: Vec<ProcessInfo> = Vec::new();
    let mut i: usize = 0;
    proof {
        assert(process_records(snapshot@.take(0)) =~= Seq::<ProcessRecord>::empty());
        assert(process_records(shown@) =~= picked(process_records(snapshot@.take(0)), keep));
    }
    while i < snapshot.len()
        invariant
            i <= snapshot.len(),
            keep == containing(each_text(names@), needle@),
            process_records(shown@) == picked(process_records(snapshot@.take(i as int)), keep),
        decreases snapshot.len() - i,
    {
        let ghost before = process_records(shown@);
        let wanted = i < names.len() && has_substring(&names[i], needle);
        if wanted {
            shown.push(snapshot[i].duplicate());
        }
        proof {
            let seen = process_records(snapshot@.take(i as int));
            let next = process_records(snapshot@.take(i + 1));
            assert(next.drop_last() =~= seen);
            assert(next.last() == snapshot@[i as int]@);
            if i < names.len() {
                assert(keep[i as int] == contains(each_text(names@)[i as int], needle@));
            }
            if wanted {
                assert(process_records(shown@) =~= before.push(snapshot@[i as int]@));
            }
        }
        i += 1;
    }
    assert(snapshot@.take(snapshot.len() as int) =~= snapshot@);
    shown
}

/// The processes of `snapshot` that a listing with `filter` shows.
pub fn list_processes(snapshot: &Vec<ProcessInfo>, filter: Option<&str>) -> (shown: Vec<
    ProcessInfo,
>)
    ensures
        process_records(shown@) == listed(
            process_records(snapshot@),
            match filter {
                Some(fragment) => Some(fragment@),
                None => None,
            },
        ),
{
    match filter {
        Some(fragment) => {
            let needle = lowercase_chars(fragment);
            let mut names: Vec<Vec<char>> = Vec::new();
            let mut i: usize = 0;
            while i < snapshot.len()
                invariant
                    i <= snapshot.len(),
                    names.len() == i,
                    forall|j: int| 0 <= j < i ==> (#[trigger] names@[j])@ == lowercase(
                        snapshot@[j].name@,
                    ),
                decreases snapshot.len() - i,
            {
                names.push(lowercase_chars(snapshot[i].name.as_str()));
                i += 1;
            }
            let shown = list_lowered(snapshot, &names, &needle);
            proof {
                let records = process_records(snapshot@);
                let keep = containing(each_text(names@), needle@);
                assert forall|j: int| 0 <= j < records.len() implies keep[j] == named_like(
                    fragment@,
                )(records[j]) by {
                    assert(each_text(names@)[j] == names@[j]@);
                }
                lemma_picked_is_filter(records, keep, named_like(fragment@));
            }
            shown
        },
        None => {
            let mut shown: Vec<ProcessInfo> = Vec::new();
            let mut i: usize = 0;
            proof {
                assert(process_records(shown@) =~= process_records(snapshot@.take(0)));
            }
            while i < snapshot.len()
                invariant
                    i <= snapshot.len(),
                    process_records(shown@) == process_records(snapshot@.take(i as int)),
                decreases snapshot.len() - i,
            {
                let ghost before = process_records(shown@);
                shown.push(snapshot[i].duplicate());
                proof {
                    assert(process_records(shown@) =~= before.push(snapshot@[i as int]@));
                    assert(process_records(snapshot@.take(i + 1)) =~= process_records(
                        snapshot@.take(i as int),
                    ).push(snapshot@[i as int]@));
                }
                i += 1;
            }
            assert(snapshot@.take(snapshot.len() as int) =~= snapshot@);
            shown
        },
    }
}

/// What the answer of the system to a termination signal means. The answer
/// is the error number of the call, zero for success. A failure is always
/// reported, never passed over.
pub fn terminate_outcome(errno: i32) -> (outcome: Result<(), TerminateError>)
    ensures
        outcome == signal_outcome(errno),
{
    if errno == 0 {
        Ok(())
    } else if errno == EPERM {
        Err(TerminateError::PermissionDenied)
    } else {
        Err(TerminateError::OperationFailed)
    }
}

} // verus!
