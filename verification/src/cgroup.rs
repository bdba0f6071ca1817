//! The cgroup facade: which writes configure a cgroup, and where the
//! sub-cgroups of the cookie groups live.

use crate::request::{CgroupOp, CgroupOpView, Request, RequestView};
use crate::text::{decimal, push_decimal};
use vstd::prelude::*;
use vstd::string::*;

verus! {

/// The path of the sub-cgroup of cookie group `index` under `parent`.
pub open spec fn cookie_group_path(parent: Seq<char>, index: nat) -> Seq<char> {
    parent + "/cookie-group-"@ + decimal(index)
}

/// The request that applies `op` to the cgroup at `path`.
pub open spec fn cgroup_request(path: Seq<char>, op: CgroupOpView) -> RequestView {
    RequestView::Cgroup { path, op }
}

/// The attribute that ties the tasks of a cgroup to one core at a time.
pub open spec fn core_affinity() -> CgroupOpView {
    CgroupOpView::SetAttribute { name: "cpu.affinity"@, value: "core"@ }
}

/// The two writes that set a bandwidth: the quota, then the period.
pub open spec fn bandwidth_requests(path: Seq<char>, quota_us: i64, period_us: u64) -> Seq<
    RequestView,
> {
    seq![
        cgroup_request(path, CgroupOpView::SetCfsQuota { quota_us }),
        cgroup_request(path, CgroupOpView::SetCfsPeriod { period_us }),
    ]
}

/// Names the sub-cgroup of a cookie group.
pub fn sub_cgroup_path(parent: &str, index: usize) -> (path: String)
    ensures
        path@ == cookie_group_path(parent@, index as nat),
{
    let mut path: String = String::from_str(parent);
    path.append("/cookie-group-");
    push_decimal(&mut path, index as u64);
    path
}

/// The controllers that every cgroup of the harness is created with.
pub fn controllers() -> (names: Vec<String>)
    ensures
        names.deep_view() == seq!["cpuset"@, "cpu"@],
{
    let mut names: Vec<String> = Vec::new();
    names.push(String::from_str("cpuset"));
    names.push(String::from_str("cpu"));
    assert(names.deep_view() =~= seq!["cpuset"@, "cpu"@]);
    names
}

/// Asks for the cgroup `name` to be created, unless no cgroup is wanted:
/// an empty name asks for nothing.
pub fn create_cgroup(name: &str) -> (request: Option<Request>)
    ensures
        name@.len() == 0 ==> request is None,
        name@.len() > 0 ==> request is Some && request->0@ == cgroup_request(
            name@,
            CgroupOpView::Create,
        ),
{
    if name.is_empty() {
        None
    } else {
        Some(Request::Cgroup { path: String::from_str(name), op: CgroupOp::Create })
    }
}

/// Asks for the task `pid` to be moved into the cgroup at `path`.
pub fn add_task_to_cgroup(path: &str, pid: i32) -> (request: Request)
    ensures
        request@ == cgroup_request(path@, CgroupOpView::AddTask { id: pid }),
{
    Request::Cgroup { path: String::from_str(path), op: CgroupOp::AddTask { id: pid } }
}

/// Asks for the CPUs of the cgroup at `path` to be set to `cpus`.
pub fn set_cpu_affinity(path: &str, cpus: &str) -> (request: Request)
    ensures
        request@ == cgroup_request(path@, CgroupOpView::SetCpus { cpus: cpus@ }),
{
    Request::Cgroup {
        path: String::from_str(path),
        op: CgroupOp::SetCpus { cpus: String::from_str(cpus) },
    }
}

/// Asks for the CPU weight of the cgroup at `path` to be set.
pub fn set_weight(path: &str, weight: u64) -> (request: Request)
    ensures
        request@ == cgroup_request(path@, CgroupOpView::SetShares { weight }),
{
    Request::Cgroup { path: String::from_str(path), op: CgroupOp::SetShares { weight } }
}

/// Asks for the CFS bandwidth of the cgroup at `path` to be set: first the
/// quota, then the period.
pub fn set_quota(path: &str, quota_us: i64, period_us: u64) -> (requests: Vec<Request>)
    ensures
        requests.deep_view() == bandwidth_requests(path@, quota_us, period_us),
{
    let mut requests: Vec<Request> = Vec::new();
    requests.push(
        Request::Cgroup { path: String::from_str(path), op: CgroupOp::SetCfsQuota { quota_us } },
    );
    requests.push(
        Request::Cgroup { path: String::from_str(path), op: CgroupOp::SetCfsPeriod { period_us } },
    );
    assert(requests.deep_view() =~= bandwidth_requests(path@, quota_us, period_us));
    requests
}

/// Asks for the tasks of the cgroup at `path` to be kept on one core at a
/// time.
pub fn set_core_affinity(path: &str) -> (request: Request)
    ensures
        request@ == cgroup_request(path@, core_affinity()),
{
    Request::Cgroup {
        path: String::from_str(path),
        op: CgroupOp::SetAttribute {
            name: String::from_str("cpu.affinity"),
            value: String::from_str("core"),
        },
    }
}

/// How a task is named when it is moved into a cgroup.
#[derive(Clone, Copy, Debug, PartialEq, Eq, Structural)]
pub enum AttachBy {
    /// By the id of its thread group: the whole process moves.
    ThreadGroup,
    /// By its own id: the one thread moves.
    Thread,
}

/// The way to try after `failed` was refused. The thread group comes first;
/// a refusal of both leaves nothing to try.
pub open spec fn attach_after(failed: Option<AttachBy>) -> Option<AttachBy> {
    match failed {
        None => Some(AttachBy::ThreadGroup),
        Some(AttachBy::ThreadGroup) => Some(AttachBy::Thread),
        Some(AttachBy::Thread) => None,
    }
}

/// Picks the next way to move a task in; `None` once both were refused,
/// which is fatal.
pub fn next_attach(failed: Option<AttachBy>) -> (next: Option<AttachBy>)
    ensures
        next == attach_after(failed),
{
    match failed {
        None => Some(AttachBy::ThreadGroup),
        Some(AttachBy::ThreadGroup) => Some(AttachBy::Thread),
        Some(AttachBy::Thread) => None,
    }
}

} // verus!
