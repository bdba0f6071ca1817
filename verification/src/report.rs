//! The lines that the harness and the tracer print.

use crate::text::{decimal, push_decimal, push_signed_decimal, signed_decimal};
use vstd::prelude::*;
use vstd::string::*;

verus! {

/// What is shown of a workload that has exited: its process id and what it
/// wrote to its standard output and error.
pub open spec fn task_report_text(pid: i32, out: Seq<char>, err: Seq<char>) -> Seq<char> {
    "task "@ + signed_decimal(pid as int) + ": out='"@ + out + "', err='"@ + err + "'"@
}

/// Renders `task_report_text`.
pub fn task_report(pid: i32, out: &str, err: &str) -> (line: String)
    ensures
        line@ == task_report_text(pid, out@, err@),
{
    let mut line: String = String::from_str("task ");
    push_signed_decimal(&mut line, pid);
    line.append(": out='");
    line.append(out);
    line.append("', err='");
    line.append(err);
    line.append("'");
    line
}

/// Why a run is given up where its quota cannot be written: the settings
/// that the quota was to be worked out from.
pub open spec fn quota_refusal_text(period_us: u64, threads: usize, quota_pc: u64) -> Seq<char> {
    "cannot write the quota of "@ + decimal(threads as nat) + " threads at "@ + decimal(
        quota_pc as nat,
    ) + " percent of "@ + decimal(period_us as nat) + " usecs: out of range"@
}

/// Renders `quota_refusal_text`.
pub fn quota_refusal(period_us: u64, threads: usize, quota_pc: u64) -> (line: String)
    ensures
        line@ == quota_refusal_text(period_us, threads, quota_pc),
{
    let mut line: String = String::from_str("cannot write the quota of ");
    push_decimal(&mut line, threads as u64);
    line.append(" threads at ");
    push_decimal(&mut line, quota_pc);
    line.append(" percent of ");
    push_decimal(&mut line, period_us);
    line.append(" usecs: out of range");
    line
}

/// What is shown of a thread's cookie once the cookies are installed.
pub open spec fn cookie_report_text(tid: i32, cookie: u64) -> Seq<char> {
    "cookie for "@ + signed_decimal(tid as int) + " is "@ + decimal(cookie as nat)
}

/// Renders `cookie_report_text`.
pub fn cookie_report(tid: i32, cookie: u64) -> (line: String)
    ensures
        line@ == cookie_report_text(tid, cookie),
{
    let mut line: String = String::from_str("cookie for ");
    push_signed_decimal(&mut line, tid);
    line.append(" is ");
    push_decimal(&mut line, cookie);
    line
}

/// The line that a worker of the tracer prints when it finds itself on
/// another CPU: which worker it is, by number and by thread id, the process,
/// the CPU, the bursts done so far, and the time that one burst took, which
/// comes as text.
pub open spec fn trace_line_text(
    worker: usize,
    tid: i32,
    pid: u32,
    cpu: i32,
    loops: u64,
    velocity: Seq<char>,
) -> Seq<char> {
    "Thread "@ + decimal(worker as nat) + " (TID: "@ + signed_decimal(tid as int) + ") - PID "@
        + decimal(pid as nat) + " running on CPU "@ + signed_decimal(cpu as int) + " after "@
        + decimal(loops as nat) + " loops, loop velocity is "@ + velocity
}

/// Renders `trace_line_text`.
pub fn trace_line(worker: usize, tid: i32, pid: u32, cpu: i32, loops: u64, velocity: &str) -> (line:
    String)
    ensures
        line@ == trace_line_text(worker, tid, pid, cpu, loops, velocity@),
{
    let mut line: String = String::from_str("Thread ");
    push_decimal(&mut line, worker as u64);
    line.append(" (TID: ");
    push_signed_decimal(&mut line, tid);
    line.append(") - PID ");
    push_decimal(&mut line, pid as u64);
    line.append(" running on CPU ");
    push_signed_decimal(&mut line, cpu);
    line.append(" after ");
    push_decimal(&mut line, loops);
    line.append(" loops, loop velocity is ");
    line.append(velocity);
    line
}

} // verus!
