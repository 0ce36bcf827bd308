use vstd::prelude::*;

use crate::errors::{InvalidRTSignalError, TaskHookWaybarError};

verus! {

/// One discovered process: its id and its reported short command name.
#[derive(Debug)]
pub struct ProcessInfo {
    pub pid: i32,
    pub comm: String,
}

impl Clone for ProcessInfo {
    fn clone(&self) -> (r: Self)
        ensures
            r == *self,
    {
        ProcessInfo { pid: self.pid, comm: self.comm.clone() }
    }
}

/// The capability through which a signal reaches a process: deliver
/// `sig_num` to the single process `pid`, reporting success or failure.
/// The delivery syscall itself lives with the implementor; the dispatch
/// policy over it is verified here.  A failed delivery is tolerated, so
/// nothing is assumed about the result.
pub trait SignalSender {
    fn send_signal(&mut self, pid: i32, sig_num: i32) -> bool
        requires
            pid > 0,
    ;
}

/// Relies on libc::SIGRTMIN: the lowest realtime signal number of the
/// running process, a positive signal number.
#[verifier::external_body]
fn sigrtmin() -> (r: i32)
    ensures
        0 < r,
{
    libc::SIGRTMIN()
}

/// Relies on libc::SIGRTMAX: the highest realtime signal number of the
/// running process, a positive signal number.
#[verifier::external_body]
fn sigrtmax() -> (r: i32)
    ensures
        0 < r,
{
    libc::SIGRTMAX()
}

/// Relies on procfs::process::all_processes and Process::stat: enumerates
/// the process table, handing back each process id with its reported
/// command name.  Ids read from the table are positive.  An entry that
/// cannot be read mid-scan (the scan races with process exit) is skipped;
/// only a table that cannot be read at all is an error, reported as the
/// text procfs gave.
#[verifier::external_body]
fn list_processes() -> (r: Result<Vec<ProcessInfo>, String>)
    ensures
        r matches Ok(procs) ==> forall|i: int|
            0 <= i < procs@.len() ==> (#[trigger] procs@[i]).pid > 0,
{
    match procfs::process::all_processes() {
        Ok(entries) => {
            let mut procs = Vec::new();
            for entry in entries {
                if let Ok(p) = entry {
                    if let Ok(stat) = p.stat() {
                        procs.push(ProcessInfo { pid: p.pid(), comm: stat.comm });
                    }
                }
            }
            Ok(procs)
        },
        Err(e) => Err(e.to_string()),
    }
}

/// Resolve `base + sig_offset` against the realtime-signal window
/// `[base, max]`, whose first slot is reserved: offsets below 1 are
/// rejected outright, sums beyond `max` are rejected with the full
/// context, and everything else is the absolute signal number.
pub fn resolve_signal_number(sig_offset: i32, base: i32, max: i32) -> (r: Result<
    i32,
    InvalidRTSignalError,
>)
    requires
        0 < base,
    ensures
        (r matches Err(InvalidRTSignalError::BelowMinError { offset }) && offset == sig_offset)
            <==> sig_offset < 1,
        (r matches Err(InvalidRTSignalError::AboveMaxError { offset, base: b, max: m, computed })
            && offset == sig_offset && b == base && m == max && computed == base + sig_offset)
            <==> (sig_offset >= 1 && base + sig_offset > max),
        (r matches Ok(n) && n == base + sig_offset) <==> (sig_offset >= 1 && base + sig_offset
            <= max),
{
    if sig_offset < 1 {
        return Err(InvalidRTSignalError::BelowMinError { offset: sig_offset });
    }
    let sig_num: i64 = base as i64 + sig_offset as i64;
    if sig_num > max as i64 {
        return Err(
            InvalidRTSignalError::AboveMaxError {
                offset: sig_offset,
                base,
                max,
                computed: sig_num,
            },
        );
    }
    Ok(sig_num as i32)
}

/// Resolve an offset against the platform's own realtime-signal window.
/// Whether the offset is below the minimum depends on the offset alone;
/// the rest depends on the platform bounds.
pub fn calculate_signal_number(sig_offset: i32) -> (r: Result<i32, InvalidRTSignalError>)
    ensures
        (r matches Err(InvalidRTSignalError::BelowMinError { offset }) && offset == sig_offset)
            <==> sig_offset < 1,
        r matches Ok(n) ==> n > sig_offset,
        r matches Err(InvalidRTSignalError::AboveMaxError { offset, .. }) ==> offset == sig_offset
            && sig_offset >= 1,
{
    let base = sigrtmin();
    let max = sigrtmax();
    resolve_signal_number(sig_offset, base, max)
}

/// Keep exactly the processes whose command name is `name`, in order.
fn filter_by_comm(procs: Vec<ProcessInfo>, name: &str) -> (r: Vec<ProcessInfo>)
    ensures
        r@ == procs@.filter(|p: ProcessInfo| p.comm@ == name@),
        forall|j: int|
            0 <= j < r@.len() ==> (#[trigger] r@[j]).comm@ == name@ && procs@.contains(r@[j]),
{
    let name_owned: String = name.to_owned();
    let mut r: Vec<ProcessInfo> = Vec::new();
    let mut i: usize = 0;
    while i < procs.len()
        invariant
            0 <= i <= procs@.len(),
            r@ == procs@.take(i as int).filter(|p: ProcessInfo| p.comm@ == name@),
            forall|j: int|
                0 <= j < r@.len() ==> (#[trigger] r@[j]).comm@ == name@ && procs@.contains(r@[j]),
            name_owned@ == name@,
        decreases procs@.len() - i,
    {
        let p = &procs[i];
        proof {
            assert(procs@.take(i + 1).drop_last() =~= procs@.take(i as int));
            assert(procs@.take(i + 1).last() == procs@[i as int]);
            assert(procs@.contains(procs@[i as int]));
            reveal_with_fuel(Seq::filter, 2);
        }
        if p.comm == name_owned {
            r.push(p.clone());
        }
        proof {
            assert(r@ =~= procs@.take(i + 1).filter(|p: ProcessInfo| p.comm@ == name@));
        }
        i = i + 1;
    }
    proof {
        assert(procs@.take(procs@.len() as int) =~= procs@);
    }
    r
}

/// Enumerate the process table and keep the processes whose command name
/// equals `name` exactly.  The result may be empty; only a table that
/// could not be read at all is an error.
pub fn get_processes_by_name(name: &str) -> (r: Result<Vec<ProcessInfo>, TaskHookWaybarError>)
    ensures
        r matches Ok(procs) ==> forall|i: int|
            0 <= i < procs@.len() ==> (#[trigger] procs@[i]).comm@ == name@ && procs@[i].pid > 0,
        r matches Err(e) ==> e matches TaskHookWaybarError::Proc(_),
{
    match list_processes() {
        Ok(all) => {
            let matched = filter_by_comm(all, name);
            proof {
                assert forall|i: int| 0 <= i < matched@.len() implies (#[trigger] matched@[i]).pid
                    > 0 by {
                    assert(all@.contains(matched@[i]));
                    let k = choose|k: int| 0 <= k < all@.len() && all@[k] == matched@[i];
                    assert(all@[k].pid > 0);
                }
            }
            Ok(matched)
        },
        Err(detail) => Err(TaskHookWaybarError::Proc(detail)),
    }
}

/// Deliver `sig_num` to every process in `procs` through `sender`,
/// tolerating per-target failures.  An empty target set is the one
/// overall failure: nothing was there to notify.
pub fn notify_processes<S: SignalSender>(
    sender: &mut S,
    procs: &Vec<ProcessInfo>,
    sig_num: i32,
) -> (r: Result<(), TaskHookWaybarError>)
    requires
        forall|i: int| 0 <= i < procs@.len() ==> (#[trigger] procs@[i]).pid > 0,
    ensures
        r is Ok <==> procs@.len() > 0,
        r is Err ==> r == Err::<(), TaskHookWaybarError>(TaskHookWaybarError::ProcessNotFound),
{
    if procs.len() == 0 {
        return Err(TaskHookWaybarError::ProcessNotFound);
    }
    let mut i: usize = 0;
    while i < procs.len()
        invariant
            forall|j: int| 0 <= j < procs@.len() ==> (#[trigger] procs@[j]).pid > 0,
        decreases procs@.len() - i,
    {
        let _delivered = sender.send_signal(procs[i].pid, sig_num);
        i = i + 1;
    }
    Ok(())
}

/// Deliver `sig_num` to every process named `process_name`: the composition
/// of discovery and dispatch.  What comes back depends on the process
/// table; a bad signal number is never reported here.
pub fn send_signal_to_processes_by_name<S: SignalSender>(
    sender: &mut S,
    process_name: &str,
    sig_num: i32,
) -> (r: Result<(), TaskHookWaybarError>)
    ensures
        !(r matches Err(TaskHookWaybarError::InvalidRTSignal(_))),
        r is Err ==> r matches Err(TaskHookWaybarError::ProcessNotFound) || r matches Err(
            TaskHookWaybarError::Proc(_),
        ),
{
    match get_processes_by_name(process_name) {
        Ok(procs) => notify_processes(sender, &procs, sig_num),
        Err(e) => Err(e),
    }
}

/// Resolve the platform signal for `offset_from_sigrtmin`, then deliver it
/// to every process named `process_name`.  The below-minimum rejection
/// depends on the offset alone, so it is pinned here exactly.
pub fn send_offset_signal_to_process_by_name<S: SignalSender>(
    sender: &mut S,
    process_name: &str,
    offset_from_sigrtmin: i32,
) -> (r: Result<(), TaskHookWaybarError>)
    ensures
        (r matches Err(TaskHookWaybarError::InvalidRTSignal(InvalidRTSignalError::BelowMinError {
            offset,
        })) && offset == offset_from_sigrtmin) <==> offset_from_sigrtmin < 1,
        r is Err ==> r matches Err(TaskHookWaybarError::InvalidRTSignal(_)) || r matches Err(
            TaskHookWaybarError::ProcessNotFound,
        ) || r matches Err(TaskHookWaybarError::Proc(_)),
{
    match calculate_signal_number(offset_from_sigrtmin) {
        Ok(sig_num) => send_signal_to_processes_by_name(sender, process_name, sig_num),
        Err(e) => Err(TaskHookWaybarError::InvalidRTSignal(e)),
    }
}

} // verus!
