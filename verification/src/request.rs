//! What the driver asks of its caller: the requests that touch the kernel,
//! as plain values.

use crate::command::{CommandLine, CommandLineView};
use vstd::prelude::*;

verus! {

/// One write to a cgroup of the unified hierarchy.
#[derive(Debug, PartialEq, Eq)]
pub enum CgroupOp {
    /// Create the cgroup, with the controllers of `controllers`.
    Create,
    /// Move a task in: as a thread group first and, if the kernel refuses
    /// that, as a single thread.
    AddTask { id: i32 },
    /// Write the CPU list of `cpuset.cpus`.
    SetCpus { cpus: String },
    /// Write the CPU weight.
    SetShares { weight: u64 },
    /// Write the CFS quota, in microseconds.
    SetCfsQuota { quota_us: i64 },
    /// Write the CFS period, in microseconds.
    SetCfsPeriod { period_us: u64 },
    /// Write `value` to the attribute file `name` of the CPU controller.
    SetAttribute { name: String, value: String },
}

/// A cgroup write with its texts as sequences of characters.
pub enum CgroupOpView {
    Create,
    AddTask { id: i32 },
    SetCpus { cpus: Seq<char> },
    SetShares { weight: u64 },
    SetCfsQuota { quota_us: i64 },
    SetCfsPeriod { period_us: u64 },
    SetAttribute { name: Seq<char>, value: Seq<char> },
}

impl View for CgroupOp {
    type V = CgroupOpView;

    open spec fn view(&self) -> CgroupOpView {
        match self {
            CgroupOp::Create => CgroupOpView::Create,
            CgroupOp::AddTask { id } => CgroupOpView::AddTask { id: *id },
            CgroupOp::SetCpus { cpus } => CgroupOpView::SetCpus { cpus: cpus@ },
            CgroupOp::SetShares { weight } => CgroupOpView::SetShares { weight: *weight },
            CgroupOp::SetCfsQuota { quota_us } => CgroupOpView::SetCfsQuota { quota_us: *quota_us },
            CgroupOp::SetCfsPeriod { period_us } => CgroupOpView::SetCfsPeriod {
                period_us: *period_us,
            },
            CgroupOp::SetAttribute { name, value } => CgroupOpView::SetAttribute {
                name: name@,
                value: value@,
            },
        }
    }
}

/// One thing for the caller to do. The caller carries the requests of a
/// batch out in order; the last of a batch is answered with an event.
#[derive(Debug, PartialEq, Eq)]
pub enum Request {
    /// Apply `op` to the cgroup at `path`, relative to the root of the
    /// hierarchy.
    Cgroup { path: String, op: CgroupOp },
    /// Start the workload. Answered with its process id.
    Spawn { command: CommandLine },
    /// Wait until more than `expected` threads exist under `pid`, for at most
    /// `timeout` seconds. Answered with the threads.
    DiscoverThreads { pid: i32, expected: usize, timeout: u64 },
    /// Give the run up: the quota that the period, the thread count and the
    /// percentage stand for is more than the kernel's signed field of 64
    /// bits holds, so there is nothing to write. This request stands where
    /// the bandwidth would be written; it cannot be carried out, and that is
    /// fatal as any failure up to the wait is.
    RefuseQuota { period_us: u64, threads: usize, quota_pc: u64 },
    /// Give each group of threads a cookie of its own.
    InstallCookies { groups: Vec<Vec<i32>> },
    /// Read the cookie of each thread back and show it.
    ReportCookies { tids: Vec<i32> },
    /// Wait for the workload to exit, for at most `limit` seconds, or
    /// without limit where there is none. Answered with how the wait ended.
    Wait { pid: i32, limit: Option<u64> },
    /// Show what the workload wrote to its standard output and error.
    ReportOutput { pid: i32 },
    /// Send the termination signal to `pid`.
    Terminate { pid: i32 },
    /// List the process `pid`, which is the driver itself, and all its
    /// descendants. Answered with the list.
    ListDescendants { pid: i32 },
}

/// A request with its texts and lists as sequences.
pub enum RequestView {
    Cgroup { path: Seq<char>, op: CgroupOpView },
    Spawn { command: CommandLineView },
    DiscoverThreads { pid: i32, expected: usize, timeout: u64 },
    RefuseQuota { period_us: u64, threads: usize, quota_pc: u64 },
    InstallCookies { groups: Seq<Seq<i32>> },
    ReportCookies { tids: Seq<i32> },
    Wait { pid: i32, limit: Option<u64> },
    ReportOutput { pid: i32 },
    Terminate { pid: i32 },
    ListDescendants { pid: i32 },
}

impl View for Request {
    type V = RequestView;

    open spec fn view(&self) -> RequestView {
        match self {
            Request::Cgroup { path, op } => RequestView::Cgroup { path: path@, op: op@ },
            Request::Spawn { command } => RequestView::Spawn { command: command@ },
            Request::DiscoverThreads { pid, expected, timeout } => RequestView::DiscoverThreads {
                pid: *pid,
                expected: *expected,
                timeout: *timeout,
            },
            Request::RefuseQuota { period_us, threads, quota_pc } => RequestView::RefuseQuota {
                period_us: *period_us,
                threads: *threads,
                quota_pc: *quota_pc,
            },
            Request::InstallCookies { groups } => RequestView::InstallCookies {
                groups: groups.deep_view(),
            },
            Request::ReportCookies { tids } => RequestView::ReportCookies { tids: tids@ },
            Request::Wait { pid, limit } => RequestView::Wait { pid: *pid, limit: *limit },
            Request::ReportOutput { pid } => RequestView::ReportOutput { pid: *pid },
            Request::Terminate { pid } => RequestView::Terminate { pid: *pid },
            Request::ListDescendants { pid } => RequestView::ListDescendants { pid: *pid },
        }
    }
}

impl Request {
    /// Decides `fatal_on_failure`.
    pub fn failure_is_fatal(&self) -> (fatal: bool)
        ensures
            fatal == self@.fatal_on_failure(),
    {
        match self {
            Request::Terminate { .. } => false,
            _ => true,
        }
    }
}

impl DeepView for Request {
    type V = RequestView;

    open spec fn deep_view(&self) -> RequestView {
        self@
    }
}

impl RequestView {
    /// Whether the run must stop where the request cannot be carried out.
    /// Setting an experiment up by halves would give measurements that
    /// mislead, so every failure is fatal but one: a process that cannot be
    /// sent the termination signal is noted and passed over.
    pub open spec fn fatal_on_failure(self) -> bool {
        !(self is Terminate)
    }

    /// Whether the request writes to a cgroup.
    pub open spec fn touches_cgroup(self) -> bool {
        self is Cgroup
    }

    /// Whether the request moves a task into a cgroup.
    pub open spec fn attaches(self) -> bool {
        self matches RequestView::Cgroup { op, .. } && op is AddTask
    }

    /// Whether the request writes a part of the CFS bandwidth.
    pub open spec fn sets_bandwidth(self) -> bool {
        self matches RequestView::Cgroup { op, .. } && (op is SetCfsQuota || op is SetCfsPeriod)
    }
}

} // verus!
