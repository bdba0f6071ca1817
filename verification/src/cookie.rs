//! Core-scheduling cookies: the calls that hand them out, and the plan that
//! gives each cookie group its cookie and, where asked for, its sub-cgroup.

use crate::cgroup::{cgroup_request, cookie_group_path, core_affinity, set_core_affinity, sub_cgroup_path};
use crate::partition::{
    cookie_group_count, cookie_partition, count_cookie_groups, group_index, group_of,
    lemma_rounded_up, partition_threads, worker_group_count,
};
use crate::request::{CgroupOp, CgroupOpView, Request, RequestView};
use crate::text::{push_signed_decimal, signed_decimal};
use vstd::prelude::*;
use vstd::string::*;

verus! {

/// The `prctl` option that reaches the core-scheduling interface.
pub const PR_SCHED_CORE: i32 = 62;

/// The `prctl` scope that makes an id name a single task.
pub const PIDTYPE_PID: i32 = 0;

/// An operation of the core-scheduling interface.
#[derive(Clone, Copy, Debug, PartialEq, Eq, Structural)]
pub enum SchedCoreOp {
    /// Read the cookie of a task.
    Get,
    /// Give a task a cookie that no other task has.
    Create,
    /// Copy the caller's cookie onto a task.
    ShareTo,
    /// Copy a task's cookie onto the caller.
    ShareFrom,
}

impl SchedCoreOp {
    /// The number by which the kernel knows the operation.
    pub open spec fn number(self) -> int {
        match self {
            SchedCoreOp::Get => 0,
            SchedCoreOp::Create => 1,
            SchedCoreOp::ShareTo => 2,
            SchedCoreOp::ShareFrom => 3,
        }
    }

    /// Whether the call hands a cookie back, through a place that the
    /// caller names in the last argument. The other operations take zero
    /// there.
    pub fn reads_cookie(self) -> (reads: bool)
        ensures
            reads == (self == SchedCoreOp::Get),
    {
        match self {
            SchedCoreOp::Get => true,
            _ => false,
        }
    }

    /// Computes `number`.
    pub fn code(self) -> (code: i32)
        ensures
            code == self.number(),
    {
        match self {
            SchedCoreOp::Get => 0,
            SchedCoreOp::Create => 1,
            SchedCoreOp::ShareTo => 2,
            SchedCoreOp::ShareFrom => 3,
        }
    }
}

/// One call of the core-scheduling interface: `op` applied to the task
/// `pid`, to be made as
/// `prctl(PR_SCHED_CORE, op.code(), pid, PIDTYPE_PID, ..)`.
#[derive(Clone, Copy, Debug, PartialEq, Eq, Structural)]
pub struct CookieCall {
    pub op: SchedCoreOp,
    pub pid: i32,
}

/// Whether what a core-scheduling call returned reports a failure. Any
/// result but zero does, and every failure is fatal.
pub fn cookie_call_failed(returned: i32) -> (failed: bool)
    ensures
        failed == (returned != 0),
{
    returned != 0
}

impl SchedCoreOp {
    /// What could not be done where the operation failed, up to the task's
    /// id.
    pub open spec fn failure_words(self) -> Seq<char> {
        match self {
            SchedCoreOp::Get => "could not get cookie for "@,
            SchedCoreOp::Create => "could not create cookie for "@,
            SchedCoreOp::ShareTo => "could not share cookie to "@,
            SchedCoreOp::ShareFrom => "could not share cookie from "@,
        }
    }
}

/// The complaint about a call that failed: what could not be done, the
/// task it was for, and the system's own words for the error.
pub open spec fn cookie_failure_text(call: CookieCall, error: Seq<char>) -> Seq<char> {
    call.op.failure_words() + signed_decimal(call.pid as int) + ": "@ + error
}

/// Renders `cookie_failure_text`.
pub fn cookie_failure(call: CookieCall, error: &str) -> (message: String)
    ensures
        message@ == cookie_failure_text(call, error@),
{
    let mut message: String = match call.op {
        SchedCoreOp::Get => String::from_str("could not get cookie for "),
        SchedCoreOp::Create => String::from_str("could not create cookie for "),
        SchedCoreOp::ShareTo => String::from_str("could not share cookie to "),
        SchedCoreOp::ShareFrom => String::from_str("could not share cookie from "),
    };
    push_signed_decimal(&mut message, call.pid);
    message.append(": ");
    message.append(error);
    message
}

/// The call that reads the cookie of `pid`.
pub fn get_cookie(pid: i32) -> (call: CookieCall)
    ensures
        call == (CookieCall { op: SchedCoreOp::Get, pid }),
{
    CookieCall { op: SchedCoreOp::Get, pid }
}

/// The call that gives `pid` a fresh cookie.
pub fn create_cookie(pid: i32) -> (call: CookieCall)
    ensures
        call == (CookieCall { op: SchedCoreOp::Create, pid }),
{
    CookieCall { op: SchedCoreOp::Create, pid }
}

/// The call that copies the caller's cookie onto `pid`.
pub fn share_cookie_to(pid: i32) -> (call: CookieCall)
    ensures
        call == (CookieCall { op: SchedCoreOp::ShareTo, pid }),
{
    CookieCall { op: SchedCoreOp::ShareTo, pid }
}

/// The calls by which a thread that is no part of the workload hands one
/// cookie to a whole group: it takes a fresh cookie for itself, then copies it
/// onto each member in turn.
pub open spec fn group_calls(own_tid: i32, pids: Seq<i32>) -> Seq<CookieCall> {
    seq![CookieCall { op: SchedCoreOp::Create, pid: own_tid }] + Seq::new(
        pids.len(),
        |i: int| CookieCall { op: SchedCoreOp::ShareTo, pid: pids[i] },
    )
}

/// Lists the calls that the thread `own_tid` makes to give the group `pids`
/// one cookie.
pub fn group_cookie_calls(own_tid: i32, pids: &Vec<i32>) -> (calls: Vec<CookieCall>)
    ensures
        calls@ == group_calls(own_tid, pids@),
{
    let mut calls: Vec<CookieCall> = Vec::new();
    calls.push(create_cookie(own_tid));
    let mut i: usize = 0;
    while i < pids.len()
        invariant
            i <= pids.len(),
            calls@.len() == i + 1,
            calls@[0] == (CookieCall { op: SchedCoreOp::Create, pid: own_tid }),
            forall|k: int|
                0 <= k < i ==> #[trigger] calls@[k + 1] == (CookieCall {
                    op: SchedCoreOp::ShareTo,
                    pid: pids@[k],
                }),
        decreases pids.len() - i,
    {
        calls.push(share_cookie_to(pids[i]));
        i = i + 1;
    }
    assert forall|j: int| 0 <= j < calls@.len() implies calls@[j] == group_calls(
        own_tid,
        pids@,
    )[j] by {
        if j > 0 {
            assert(calls@[(j - 1) + 1] == (CookieCall {
                op: SchedCoreOp::ShareTo,
                pid: pids@[j - 1],
            }));
        }
    }
    assert(calls@ =~= group_calls(own_tid, pids@));
    calls
}

/// `palaver::thread::gettid`: the id that the kernel knows the calling
/// thread by. Which id that is depends on the thread, so nothing is claimed
/// of it.
#[verifier::external_body]
fn own_thread_id() -> (tid: u64) {
    palaver::thread::gettid()
}

/// Lists the calls by which the calling thread gives the group `pids` one
/// cookie: the thread that runs this is the helper, and whatever its id is,
/// the calls are those of `group_calls` for that id.
pub fn create_cookie_grp(pids: &Vec<i32>) -> (calls: Vec<CookieCall>)
    ensures
        calls@.len() == pids@.len() + 1,
        calls@ == group_calls(calls@[0].pid, pids@),
{
    let own: u64 = own_thread_id();
    let own_tid: i32 = #[verifier::truncate]
    (own as i32);
    group_cookie_calls(own_tid, pids)
}

/// What cookie affinity asks for the first `upto` threads: each cookie group
/// gets a sub-cgroup, made when the thread whose index is the group's number
/// comes by; each thread's group is tied to a core and the thread moved in.
pub open spec fn affinity_requests(
    tids: Seq<i32>,
    group_size: nat,
    parent: Seq<char>,
    upto: nat,
) -> Seq<RequestView>
    decreases upto,
{
    if upto == 0 {
        Seq::<RequestView>::empty()
    } else {
        let index = (upto - 1) as nat;
        let group = group_of(index, worker_group_count(tids.len(), group_size));
        let home = cookie_group_path(parent, group);
        let made = if index < cookie_group_count(tids.len(), group_size) {
            seq![cgroup_request(cookie_group_path(parent, index), CgroupOpView::Create)]
        } else {
            Seq::<RequestView>::empty()
        };
        affinity_requests(tids, group_size, parent, index) + made + seq![
            cgroup_request(home, core_affinity()),
            cgroup_request(home, CgroupOpView::AddTask { id: tids[index as int] }),
        ]
    }
}

/// What handing out cookies takes: nothing where the group size is zero;
/// else the sub-cgroups, where affinity is on, then the cookies for the
/// partition, then a report of every thread's cookie.
pub open spec fn cookie_requests(
    group_size: u64,
    tids: Seq<i32>,
    affinity: bool,
    parent: Seq<char>,
) -> Seq<RequestView> {
    if group_size == 0 {
        Seq::<RequestView>::empty()
    } else {
        let homes = if affinity {
            affinity_requests(tids, group_size as nat, parent, tids.len())
        } else {
            Seq::<RequestView>::empty()
        };
        homes + seq![
            RequestView::InstallCookies { groups: cookie_partition(tids, group_size as nat) },
            RequestView::ReportCookies { tids },
        ]
    }
}

/// The parent cgroup's path as text; without a cgroup, the empty text.
pub open spec fn parent_path(cgroup: Option<&str>) -> Seq<char> {
    match cgroup {
        Some(path) => path@,
        None => Seq::<char>::empty(),
    }
}

/// Plans the cookies of the threads `thread_ids`, the leader first.
///
/// Cookie affinity builds its sub-cgroups under `cgroup`, so it needs one.
pub fn create_cookies(
    cookie_group_size: u64,
    thread_ids: Vec<i32>,
    cookie_affinity: bool,
    cgroup: Option<&str>,
) -> (requests: Vec<Request>)
    requires
        cookie_group_size > 0 && cookie_affinity ==> cgroup is Some,
    ensures
        requests.deep_view() == cookie_requests(
            cookie_group_size,
            thread_ids@,
            cookie_affinity,
            parent_path(cgroup),
        ),
{
    let mut requests: Vec<Request> = Vec::new();
    if cookie_group_size == 0 {
        assert(requests.deep_view() =~= Seq::<RequestView>::empty());
        return requests;
    }
    let n: usize = thread_ids.len();
    if cookie_affinity {
        let parent: &str = cgroup.unwrap();
        let count: usize = count_cookie_groups(n, cookie_group_size);
        let mut i: usize = 0;
        assert(requests.deep_view() =~= affinity_requests(
            thread_ids@,
            cookie_group_size as nat,
            parent@,
            0,
        ));
        while i < n
            invariant
                i <= n,
                n == thread_ids@.len(),
                cookie_group_size > 0,
                count == cookie_group_count(n as nat, cookie_group_size as nat),
                requests.deep_view() == affinity_requests(
                    thread_ids@,
                    cookie_group_size as nat,
                    parent@,
                    i as nat,
                ),
            decreases n - i,
        {
            let ghost done = requests.deep_view();
            if i < count {
                requests.push(
                    Request::Cgroup { path: sub_cgroup_path(parent, i), op: CgroupOp::Create },
                );
            }
            let ghost made = requests.deep_view();
            proof {
                lemma_rounded_up(n - 1, cookie_group_size as int);
            }
            let group: usize = group_index(i, count - 1);
            let home: String = sub_cgroup_path(parent, group);
            requests.push(set_core_affinity(home.as_str()));
            requests.push(Request::Cgroup { path: home, op: CgroupOp::AddTask { id: thread_ids[i] } });
            assert(requests.deep_view() =~= made + seq![
                cgroup_request(home@, core_affinity()),
                cgroup_request(home@, CgroupOpView::AddTask { id: thread_ids@[i as int] }),
            ]);
            assert(made =~= done + if i < count {
                seq![cgroup_request(cookie_group_path(parent@, i as nat), CgroupOpView::Create)]
            } else {
                Seq::<RequestView>::empty()
            });
            i = i + 1;
        }
    }
    let ghost homes = requests.deep_view();
    let groups: Vec<Vec<i32>> = partition_threads(&thread_ids, cookie_group_size);
    requests.push(Request::InstallCookies { groups });
    requests.push(Request::ReportCookies { tids: thread_ids });
    assert(requests.deep_view() =~= homes + seq![
        RequestView::InstallCookies {
            groups: cookie_partition(thread_ids@, cookie_group_size as nat),
        },
        RequestView::ReportCookies { tids: thread_ids@ },
    ]);
    requests
}

/// Cookie affinity asks for cgroup writes only, and for none that sets a
/// bandwidth.
pub proof fn lemma_affinity_writes_cgroups(
    tids: Seq<i32>,
    group_size: nat,
    parent: Seq<char>,
    upto: nat,
)
    ensures
        forall|i: int|
            0 <= i < affinity_requests(tids, group_size, parent, upto).len()
                ==> (#[trigger] affinity_requests(tids, group_size, parent, upto)[i])
                .touches_cgroup() && !affinity_requests(
                tids,
                group_size,
                parent,
                upto,
            )[i].sets_bandwidth(),
    decreases upto,
{
    if upto > 0 {
        let index = (upto - 1) as nat;
        lemma_affinity_writes_cgroups(tids, group_size, parent, index);
        let all = affinity_requests(tids, group_size, parent, upto);
        let before = affinity_requests(tids, group_size, parent, index);
        assert forall|i: int| 0 <= i < all.len() implies (#[trigger] all[i]).touches_cgroup()
            && !all[i].sets_bandwidth() by {
            if i < before.len() {
                assert(all[i] == before[i]);
            }
        }
    }
}

/// The moves into cgroups that a list of requests asks for, in order: the
/// cgroup's path and the task.
pub open spec fn attachments(requests: Seq<RequestView>) -> Seq<(Seq<char>, i32)>
    decreases requests.len(),
{
    if requests.len() == 0 {
        Seq::<(Seq<char>, i32)>::empty()
    } else {
        let before = attachments(requests.drop_last());
        match requests.last() {
            RequestView::Cgroup { path, op: CgroupOpView::AddTask { id } } => before.push(
                (path, id),
            ),
            _ => before,
        }
    }
}

/// The moves of two lists of requests, one after the other, are the moves
/// of the first followed by those of the second.
pub proof fn lemma_attachments_add(first: Seq<RequestView>, second: Seq<RequestView>)
    ensures
        attachments(first + second) == attachments(first) + attachments(second),
    decreases second.len(),
{
    if second.len() == 0 {
        assert(first + second == first);
        assert(attachments(first) + attachments(second) == attachments(first));
    } else {
        lemma_attachments_add(first, second.drop_last());
        assert((first + second).drop_last() == first + second.drop_last());
        assert((first + second).last() == second.last());
        let joined = attachments(first) + attachments(second.drop_last());
        match second.last() {
            RequestView::Cgroup { path, op: CgroupOpView::AddTask { id } } => {
                assert(joined.push((path, id)) == attachments(first) + attachments(
                    second.drop_last(),
                ).push((path, id)));
            },
            _ => {},
        }
    }
}

/// Where each thread lives under cookie affinity: the thread at index `i`
/// in the sub-cgroup of its own cookie group.
pub open spec fn affinity_homes(tids: Seq<i32>, group_size: nat, parent: Seq<char>, upto: nat) -> Seq<
    (Seq<char>, i32),
> {
    Seq::new(
        upto,
        |i: int|
            (
                cookie_group_path(
                    parent,
                    group_of(i as nat, worker_group_count(tids.len(), group_size)),
                ),
                tids[i],
            ),
    )
}

/// Under cookie affinity every thread is moved exactly once, into the
/// sub-cgroup of its cookie group, in the order of the threads.
pub proof fn lemma_affinity_attachments(
    tids: Seq<i32>,
    group_size: nat,
    parent: Seq<char>,
    upto: nat,
)
    ensures
        attachments(affinity_requests(tids, group_size, parent, upto)) == affinity_homes(
            tids,
            group_size,
            parent,
            upto,
        ),
    decreases upto,
{
    reveal_with_fuel(attachments, 3);
    if upto == 0 {
        assert(affinity_homes(tids, group_size, parent, 0) == Seq::<(Seq<char>, i32)>::empty());
    } else {
        let index = (upto - 1) as nat;
        lemma_affinity_attachments(tids, group_size, parent, index);
        let group = group_of(index, worker_group_count(tids.len(), group_size));
        let home = cookie_group_path(parent, group);
        let made = if index < cookie_group_count(tids.len(), group_size) {
            seq![cgroup_request(cookie_group_path(parent, index), CgroupOpView::Create)]
        } else {
            Seq::<RequestView>::empty()
        };
        let tail = seq![
            cgroup_request(home, core_affinity()),
            cgroup_request(home, CgroupOpView::AddTask { id: tids[index as int] }),
        ];
        let before = affinity_requests(tids, group_size, parent, index);
        lemma_attachments_add(before + made, tail);
        lemma_attachments_add(before, made);
        assert(attachments(made) == Seq::<(Seq<char>, i32)>::empty()) by {
            if made.len() > 0 {
                assert(made.drop_last().len() == 0);
            }
        }
        assert(attachments(tail) == seq![(home, tids[index as int])]) by {
            assert(tail.drop_last() == seq![cgroup_request(home, core_affinity())]);
            assert(tail.drop_last().drop_last().len() == 0);
            assert(attachments(tail.drop_last()) == Seq::<(Seq<char>, i32)>::empty());
            assert(attachments(tail) == Seq::<(Seq<char>, i32)>::empty().push(
                (home, tids[index as int]),
            ));
        }
        assert(affinity_homes(tids, group_size, parent, upto) == affinity_homes(
            tids,
            group_size,
            parent,
            index,
        ) + seq![(home, tids[index as int])]);
    }
}

} // verus!
