//! The experiment driver: the order in which a run spawns, discovers,
//! configures, hands out cookies, waits and sweeps.
//!
//! The driver touches nothing itself. Its caller feeds it events and carries
//! out, in order, the requests that each event is answered with.

use crate::bandwidth::cfs_quota_us;
use crate::cgroup::{
    add_task_to_cgroup, bandwidth_requests, cgroup_request, create_cgroup, set_cpu_affinity,
    set_quota, set_weight,
};
use crate::command::{command_of, parse_task};
use crate::config::{ConfigError, RunCommandCfg, RunCommandCfgView};
use crate::cookie::{
    affinity_homes, affinity_requests, attachments, cookie_requests, create_cookies,
    lemma_affinity_attachments, lemma_affinity_writes_cgroups, lemma_attachments_add,
};
use crate::partition::cookie_partition;
use crate::request::{CgroupOpView, Request, RequestView};
use vstd::prelude::*;

verus! {

/// How far a run has come.
#[derive(Clone, Copy, Debug, PartialEq, Eq, Structural)]
pub enum Phase {
    /// Nothing was asked for yet.
    Ready,
    /// The workload is being started.
    Spawning,
    /// The workload `pid` runs and its threads are being looked for.
    Discovering { pid: i32 },
    /// The workload `pid` is configured and being waited for.
    Waiting { pid: i32 },
    /// The wait is over and the driver's descendants are being listed.
    Sweeping,
    /// Nothing is left to do.
    Finished,
}

/// What the caller reports back to the driver.
#[derive(Debug, PartialEq, Eq)]
pub enum Event {
    /// The run begins.
    Start,
    /// The workload was started as process `pid`.
    Spawned { pid: i32 },
    /// The threads under the workload, its leader first.
    Threads { tids: Vec<i32> },
    /// The workload exited within its time.
    Exited,
    /// The workload was still running when its time was up.
    TimedOut,
    /// The processes in the tree under the driver, itself among them.
    Descendants { pids: Vec<i32> },
}

/// An event with its lists as sequences.
pub enum EventView {
    Start,
    Spawned { pid: i32 },
    Threads { tids: Seq<i32> },
    Exited,
    TimedOut,
    Descendants { pids: Seq<i32> },
}

impl View for Event {
    type V = EventView;

    open spec fn view(&self) -> EventView {
        match self {
            Event::Start => EventView::Start,
            Event::Spawned { pid } => EventView::Spawned { pid: *pid },
            Event::Threads { tids } => EventView::Threads { tids: tids@ },
            Event::Exited => EventView::Exited,
            Event::TimedOut => EventView::TimedOut,
            Event::Descendants { pids } => EventView::Descendants { pids: pids@ },
        }
    }
}

/// The first batch: the parent cgroup is made, where one is asked for, and
/// then the workload is started. Nothing is attached yet.
pub open spec fn setup_requests(cfg: RunCommandCfgView) -> Seq<RequestView> {
    let made = if cfg.has_cgroup() {
        seq![cgroup_request(cfg.cgroup, CgroupOpView::Create)]
    } else {
        Seq::<RequestView>::empty()
    };
    made + seq![RequestView::Spawn { command: command_of(cfg.task) }]
}

/// One request per id, in order, to move it into the cgroup at `path`.
pub open spec fn attach_requests(path: Seq<char>, ids: Seq<i32>) -> Seq<RequestView> {
    Seq::new(ids.len(), |i: int| cgroup_request(path, CgroupOpView::AddTask { id: ids[i] }))
}

/// What populates and tunes the parent cgroup once the threads are known.
/// Without a cgroup there is nothing to do. With one: the leader and every
/// thread move in, unless cookie affinity will place them in sub-cgroups;
/// the weight is always written; the bandwidth where a percentage is set;
/// the CPUs where a list is given. Where the quota that the percentage
/// stands for cannot be written, the request to give the run up stands in
/// the place of the bandwidth.
pub open spec fn population_requests(cfg: RunCommandCfgView, pid: i32, tids: Seq<i32>) -> Seq<
    RequestView,
> {
    if !cfg.has_cgroup() {
        Seq::<RequestView>::empty()
    } else {
        let moved = if cfg.cookie_affinity {
            Seq::<RequestView>::empty()
        } else {
            attach_requests(cfg.cgroup, seq![pid] + tids)
        };
        let weighed = seq![
            cgroup_request(cfg.cgroup, CgroupOpView::SetShares { weight: cfg.weight }),
        ];
        let pinned = if cfg.cpuset.len() > 0 {
            seq![cgroup_request(cfg.cgroup, CgroupOpView::SetCpus { cpus: cfg.cpuset })]
        } else {
            Seq::<RequestView>::empty()
        };
        moved + weighed + throttle_requests(cfg) + pinned
    }
}

/// What is asked for the bandwidth of the parent cgroup: nothing where the
/// percentage is zero; the quota and the period where the quota can be
/// written; else the request to give the run up.
pub open spec fn throttle_requests(cfg: RunCommandCfgView) -> Seq<RequestView> {
    if cfg.cfs_bw_quota_pc == 0 {
        Seq::<RequestView>::empty()
    } else if cfg.quota_fits() {
        bandwidth_requests(cfg.cgroup, cfg.quota() as i64, cfg.cfs_bw_period_us)
    } else {
        seq![
            RequestView::RefuseQuota {
                period_us: cfg.cfs_bw_period_us,
                threads: cfg.threads,
                quota_pc: cfg.cfs_bw_quota_pc,
            },
        ]
    }
}

/// The limit of the wait for the workload: a timeout of zero seconds stands
/// for none.
pub open spec fn wait_limit(timeout: u64) -> Option<u64> {
    if timeout > 0 {
        Some(timeout)
    } else {
        None
    }
}

/// The batch that answers the discovery of the threads: the cgroup is
/// populated and tuned, then the cookies are handed out, then the wait
/// begins.
pub open spec fn configure_requests(cfg: RunCommandCfgView, pid: i32, tids: Seq<i32>) -> Seq<
    RequestView,
> {
    population_requests(cfg, pid, tids) + cookie_requests(
        cfg.cookie_group_size,
        tids,
        cfg.cookie_affinity,
        cfg.cgroup,
    ) + seq![RequestView::Wait { pid, limit: wait_limit(cfg.timeout) }]
}

/// The sweep: the termination signal for every listed process but the
/// driver itself, in the order of the list.
pub open spec fn sweep_requests(own_pid: i32, pids: Seq<i32>) -> Seq<RequestView>
    decreases pids.len(),
{
    if pids.len() == 0 {
        Seq::<RequestView>::empty()
    } else {
        let before = sweep_requests(own_pid, pids.drop_last());
        if pids.last() == own_pid {
            before
        } else {
            before.push(RequestView::Terminate { pid: pids.last() })
        }
    }
}

/// The driver's one rule: the phase that follows `phase` on `event`, and the
/// requests to carry out, in order, before the next event. An event that the
/// phase does not wait for changes nothing and asks for nothing. `own_pid`
/// is the process that runs the driver.
pub open spec fn next(cfg: RunCommandCfgView, own_pid: i32, phase: Phase, event: EventView) -> (
    Phase,
    Seq<RequestView>,
) {
    match (phase, event) {
        (Phase::Ready, EventView::Start) => (Phase::Spawning, setup_requests(cfg)),
        (Phase::Spawning, EventView::Spawned { pid }) => (
            Phase::Discovering { pid },
            seq![
                RequestView::DiscoverThreads {
                    pid,
                    expected: cfg.threads,
                    timeout: cfg.thread_wait,
                },
            ],
        ),
        (Phase::Discovering { pid }, EventView::Threads { tids }) => (
            Phase::Waiting { pid },
            configure_requests(cfg, pid, tids),
        ),
        (Phase::Waiting { pid }, EventView::Exited) => (
            Phase::Sweeping,
            seq![
                RequestView::ReportOutput { pid },
                RequestView::ListDescendants { pid: own_pid },
            ],
        ),
        (Phase::Waiting { pid }, EventView::TimedOut) => (
            Phase::Sweeping,
            seq![RequestView::Terminate { pid }, RequestView::ListDescendants { pid: own_pid }],
        ),
        (Phase::Sweeping, EventView::Descendants { pids }) => (
            Phase::Finished,
            sweep_requests(own_pid, pids),
        ),
        _ => (phase, Seq::<RequestView>::empty()),
    }
}

/// Lists the requests that move `ids` into the cgroup at `path`.
fn plan_attach(requests: &mut Vec<Request>, path: &str, ids: &Vec<i32>)
    ensures
        final(requests).deep_view() == old(requests).deep_view() + attach_requests(path@, ids@),
{
    let ghost start = requests.deep_view();
    let mut i: usize = 0;
    assert(requests.deep_view() =~= start + attach_requests(path@, ids@.take(0)));
    while i < ids.len()
        invariant
            i <= ids.len(),
            requests.deep_view() == start + attach_requests(path@, ids@.take(i as int)),
        decreases ids.len() - i,
    {
        let ghost before = requests.deep_view();
        requests.push(add_task_to_cgroup(path, ids[i]));
        assert(requests.deep_view() =~= before.push(
            cgroup_request(path@, CgroupOpView::AddTask { id: ids@[i as int] }),
        ));
        assert(attach_requests(path@, ids@.take(i as int + 1)) =~= attach_requests(
            path@,
            ids@.take(i as int),
        ).push(cgroup_request(path@, CgroupOpView::AddTask { id: ids@[i as int] })));
        i = i + 1;
    }
    assert(ids@.take(ids.len() as int) == ids@);
}

/// Lists the requests that terminate what is left under the driver.
pub fn plan_sweep(own_pid: i32, pids: &Vec<i32>) -> (requests: Vec<Request>)
    ensures
        requests.deep_view() == sweep_requests(own_pid, pids@),
{
    let mut requests: Vec<Request> = Vec::new();
    let mut i: usize = 0;
    assert(pids@.take(0) == Seq::<i32>::empty());
    assert(requests.deep_view() =~= sweep_requests(own_pid, pids@.take(0)));
    while i < pids.len()
        invariant
            i <= pids.len(),
            requests.deep_view() == sweep_requests(own_pid, pids@.take(i as int)),
        decreases pids.len() - i,
    {
        let ghost done = requests.deep_view();
        assert(pids@.take(i as int + 1).drop_last() == pids@.take(i as int));
        if pids[i] != own_pid {
            requests.push(Request::Terminate { pid: pids[i] });
            assert(requests.deep_view() =~= done.push(RequestView::Terminate { pid: pids@[i as int] }));
        }
        i = i + 1;
    }
    assert(pids@.take(pids.len() as int) == pids@);
    requests
}

/// Lists the requests that populate and tune the parent cgroup.
fn plan_population(cfg: &RunCommandCfg, pid: i32, thread_ids: &Vec<i32>) -> (requests: Vec<
    Request,
>)
    ensures
        requests.deep_view() == population_requests(cfg@, pid, thread_ids@),
{
    let mut requests: Vec<Request> = Vec::new();
    let path: &str = cfg.cgroup.as_str();
    if path.is_empty() {
        assert(requests.deep_view() =~= Seq::<RequestView>::empty());
        return requests;
    }
    if !cfg.cookie_affinity {
        requests.push(add_task_to_cgroup(path, pid));
        assert(requests.deep_view() =~= attach_requests(path@, seq![pid]));
        plan_attach(&mut requests, path, thread_ids);
        assert(requests.deep_view() =~= attach_requests(path@, seq![pid] + thread_ids@));
    } else {
        assert(requests.deep_view() =~= Seq::<RequestView>::empty());
    }
    let ghost moved = requests.deep_view();
    requests.push(set_weight(path, cfg.weight));
    let ghost weighed = seq![
        cgroup_request(path@, CgroupOpView::SetShares { weight: cfg.weight }),
    ];
    assert(requests.deep_view() =~= moved + weighed);
    if cfg.cfs_bw_quota_pc > 0 {
        let ghost before = requests.deep_view();
        match cfs_quota_us(cfg.cfs_bw_period_us, cfg.threads, cfg.cfs_bw_quota_pc) {
            Some(quota_us) => {
                let mut writes: Vec<Request> = set_quota(path, quota_us, cfg.cfs_bw_period_us);
                let ghost added = writes.deep_view();
                requests.append(&mut writes);
                assert(requests.deep_view() =~= before + added);
            },
            None => {
                requests.push(
                    Request::RefuseQuota {
                        period_us: cfg.cfs_bw_period_us,
                        threads: cfg.threads,
                        quota_pc: cfg.cfs_bw_quota_pc,
                    },
                );
                assert(requests.deep_view() =~= before + throttle_requests(cfg@));
            },
        }
    }
    assert(requests.deep_view() =~= moved + weighed + throttle_requests(cfg@));
    if !cfg.cpuset.as_str().is_empty() {
        requests.push(set_cpu_affinity(path, cfg.cpuset.as_str()));
    }
    assert(requests.deep_view() =~= population_requests(cfg@, pid, thread_ids@));
    requests
}

/// `nix::unistd::Pid::this`, read out with `as_raw`: the id of the process
/// that makes the call. Which id that is depends on the process, so
/// nothing is claimed of it.
#[verifier::external_body]
fn own_process() -> (pid: i32) {
    nix::unistd::Pid::this().as_raw()
}

/// A run of the harness, between the events that its caller reports.
pub struct Driver {
    cfg: RunCommandCfg,
    own_pid: i32,
    phase: Phase,
}

impl Driver {
    /// A driver only ever holds a configuration that passed the checks.
    #[verifier::type_invariant]
    spec fn checked(&self) -> bool {
        self.cfg@.consistent()
    }

    /// The configuration of the run.
    pub closed spec fn cfg(&self) -> RunCommandCfgView {
        self.cfg@
    }

    /// The process that runs the driver, which the sweep spares.
    pub closed spec fn own_pid(&self) -> i32 {
        self.own_pid
    }

    /// The phase that the run is in.
    pub closed spec fn phase(&self) -> Phase {
        self.phase
    }

    /// Prepares a run. A configuration that is not consistent is refused
    /// here, before anything is asked for, with the first reason found; any
    /// other is taken, whatever its task, thread count, waits and period.
    pub fn new(cfg: RunCommandCfg) -> (made: Result<Driver, ConfigError>)
        ensures
            made is Ok <==> cfg@.consistent(),
            match made {
                Ok(driver) => driver.cfg() == cfg@ && driver.phase() == Phase::Ready,
                Err(e) => cfg@.violation() == Some(e),
            },
    {
        match cfg.validate() {
            Ok(_) => Ok(Driver { cfg, own_pid: own_process(), phase: Phase::Ready }),
            Err(e) => Err(e),
        }
    }

    /// Shows the process that runs the driver.
    pub fn own_process_id(&self) -> (pid: i32)
        ensures
            pid == self.own_pid(),
    {
        self.own_pid
    }

    /// Shows the phase that the run is in.
    pub fn current_phase(&self) -> (phase: Phase)
        ensures
            phase == self.phase(),
    {
        self.phase
    }

    /// Whether the run is over.
    pub fn is_finished(&self) -> (done: bool)
        ensures
            done == (self.phase() == Phase::Finished),
    {
        match self.phase {
            Phase::Finished => true,
            _ => false,
        }
    }

    /// Takes an event and answers with the requests to carry out, in order,
    /// before the next event.
    pub fn step(&mut self, event: Event) -> (requests: Vec<Request>)
        ensures
            final(self).cfg() == old(self).cfg(),
            final(self).own_pid() == old(self).own_pid(),
            (final(self).phase(), requests.deep_view()) == next(
                old(self).cfg(),
                old(self).own_pid(),
                old(self).phase(),
                event@,
            ),
    {
        proof {
            use_type_invariant(&*self);
        }
        let mut requests: Vec<Request> = Vec::new();
        match (self.phase, event) {
            (Phase::Ready, Event::Start) => {
                match create_cgroup(self.cfg.cgroup.as_str()) {
                    Some(made) => {
                        requests.push(made);
                    },
                    None => {},
                }
                requests.push(Request::Spawn { command: parse_task(self.cfg.task.as_str()) });
                self.phase = Phase::Spawning;
                assert(requests.deep_view() =~= setup_requests(self.cfg@));
            },
            (Phase::Spawning, Event::Spawned { pid }) => {
                requests.push(
                    Request::DiscoverThreads {
                        pid,
                        expected: self.cfg.threads,
                        timeout: self.cfg.thread_wait,
                    },
                );
                self.phase = Phase::Discovering { pid };
                assert(requests.deep_view() =~= seq![
                    RequestView::DiscoverThreads {
                        pid,
                        expected: self.cfg.threads,
                        timeout: self.cfg.thread_wait,
                    },
                ]);
            },
            (Phase::Discovering { pid }, Event::Threads { tids }) => {
                requests = plan_population(&self.cfg, pid, &tids);
                let ghost populated = requests.deep_view();
                let parent: Option<&str> = if self.cfg.cgroup.as_str().is_empty() {
                    None
                } else {
                    Some(self.cfg.cgroup.as_str())
                };
                let mut cookies: Vec<Request> = create_cookies(
                    self.cfg.cookie_group_size,
                    tids,
                    self.cfg.cookie_affinity,
                    parent,
                );
                let ghost handed = cookies.deep_view();
                requests.append(&mut cookies);
                let limit: Option<u64> = if self.cfg.timeout > 0 {
                    Some(self.cfg.timeout)
                } else {
                    None
                };
                requests.push(Request::Wait { pid, limit });
                self.phase = Phase::Waiting { pid };
                assert(requests.deep_view() =~= populated + handed + seq![
                    RequestView::Wait { pid, limit: wait_limit(self.cfg.timeout) },
                ]);
                assert(self.cfg@.cgroup.len() == 0 ==> self.cfg@.cgroup =~= Seq::<char>::empty());
            },
            (Phase::Waiting { pid }, Event::Exited) => {
                requests.push(Request::ReportOutput { pid });
                requests.push(Request::ListDescendants { pid: self.own_pid });
                self.phase = Phase::Sweeping;
                assert(requests.deep_view() =~= seq![
                    RequestView::ReportOutput { pid },
                    RequestView::ListDescendants { pid: self.own_pid },
                ]);
            },
            (Phase::Waiting { pid }, Event::TimedOut) => {
                requests.push(Request::Terminate { pid });
                requests.push(Request::ListDescendants { pid: self.own_pid });
                self.phase = Phase::Sweeping;
                assert(requests.deep_view() =~= seq![
                    RequestView::Terminate { pid },
                    RequestView::ListDescendants { pid: self.own_pid },
                ]);
            },
            (Phase::Sweeping, Event::Descendants { pids }) => {
                requests = plan_sweep(self.own_pid, &pids);
                self.phase = Phase::Finished;
            },
            _ => {
                assert(requests.deep_view() =~= Seq::<RequestView>::empty());
            },
        }
        requests
    }
}

/// How far a phase is from the start of a run.
pub open spec fn rank(phase: Phase) -> nat {
    match phase {
        Phase::Ready => 0,
        Phase::Spawning => 1,
        Phase::Discovering { .. } => 2,
        Phase::Waiting { .. } => 3,
        Phase::Sweeping => 4,
        Phase::Finished => 5,
    }
}

/// The phases follow one another and none is skipped or entered twice: an
/// event either leaves the phase alone, and then nothing is asked for, or
/// it moves the run to the very next phase.
pub proof fn lemma_phases_in_order(
    cfg: RunCommandCfgView,
    own_pid: i32,
    phase: Phase,
    event: EventView,
)
    ensures
        next(cfg, own_pid, phase, event).0 == phase || rank(next(cfg, own_pid, phase, event).0)
            == rank(phase) + 1,
        next(cfg, own_pid, phase, event).0 == phase ==> next(cfg, own_pid, phase, event).1.len()
            == 0,
        phase == Phase::Finished ==> next(cfg, own_pid, phase, event).0 == Phase::Finished,
{
}

/// Whether `requests` asks for the termination of `pid`.
pub open spec fn terminates(requests: Seq<RequestView>, pid: i32) -> bool {
    requests.contains(RequestView::Terminate { pid })
}

/// The sweep asks for terminations only, and for that of a process exactly
/// when the process is listed and is not the driver itself.
pub proof fn lemma_sweep_spares_only_self(own_pid: i32, pids: Seq<i32>)
    ensures
        forall|i: int|
            0 <= i < sweep_requests(own_pid, pids).len() ==> (#[trigger] sweep_requests(
                own_pid,
                pids,
            )[i]) is Terminate,
        forall|pid: i32|
            #[trigger] terminates(sweep_requests(own_pid, pids), pid) <==> (pids.contains(pid)
                && pid != own_pid),
    decreases pids.len(),
{
    let all = sweep_requests(own_pid, pids);
    if pids.len() > 0 {
        let before = sweep_requests(own_pid, pids.drop_last());
        lemma_sweep_spares_only_self(own_pid, pids.drop_last());
        assert forall|pid: i32| #[trigger]
            terminates(all, pid) <==> (pids.contains(pid) && pid != own_pid) by {
            let wanted = RequestView::Terminate { pid };
            assert(terminates(before, pid) <==> (pids.drop_last().contains(pid) && pid
                != own_pid));
            if all.contains(wanted) {
                let at = choose|at: int| 0 <= at < all.len() && all[at] == wanted;
                if at < before.len() {
                    assert(before[at] == wanted);
                    assert(before.contains(wanted));
                    let k = choose|k: int|
                        0 <= k < pids.drop_last().len() && pids.drop_last()[k] == pid;
                    assert(pids[k] == pid);
                } else {
                    assert(pids[pids.len() - 1] == pid);
                }
            }
            if pids.contains(pid) && pid != own_pid {
                let k = choose|k: int| 0 <= k < pids.len() && pids[k] == pid;
                if k < pids.len() - 1 {
                    assert(pids.drop_last()[k] == pid);
                    assert(pids.drop_last().contains(pid));
                    assert(before.contains(wanted));
                    let at = choose|at: int| 0 <= at < before.len() && before[at] == wanted;
                    assert(all[at] == wanted);
                } else {
                    assert(all[all.len() - 1] == wanted);
                }
            }
        }
    }
}

/// Failures are fatal up to the wait and forgiven in the sweep: every
/// request of the batches that set the experiment up must succeed, and no
/// request of the sweep must.
pub proof fn lemma_strict_setup_lenient_sweep(
    cfg: RunCommandCfgView,
    own_pid: i32,
    phase: Phase,
    event: EventView,
)
    ensures
        rank(phase) <= 2 ==> forall|i: int|
            0 <= i < next(cfg, own_pid, phase, event).1.len() ==> (#[trigger] next(
                cfg,
                own_pid,
                phase,
                event,
            ).1[i]).fatal_on_failure(),
        phase == Phase::Sweeping ==> forall|i: int|
            0 <= i < next(cfg, own_pid, phase, event).1.len() ==> !(#[trigger] next(
                cfg,
                own_pid,
                phase,
                event,
            ).1[i]).fatal_on_failure(),
{
    match (phase, event) {
        (Phase::Sweeping, EventView::Descendants { pids }) => {
            lemma_sweep_spares_only_self(own_pid, pids);
        },
        (Phase::Discovering { pid }, EventView::Threads { tids }) => {
            let batch = configure_requests(cfg, pid, tids);
            let populated = population_requests(cfg, pid, tids);
            let handed = cookie_requests(
                cfg.cookie_group_size,
                tids,
                cfg.cookie_affinity,
                cfg.cgroup,
            );
            lemma_affinity_writes_cgroups(
                tids,
                cfg.cookie_group_size as nat,
                cfg.cgroup,
                tids.len(),
            );
            assert forall|i: int| 0 <= i < batch.len() implies (#[trigger] batch[i])
                .fatal_on_failure() by {
                if i < populated.len() {
                    assert(batch[i] == populated[i]);
                } else if i < populated.len() + handed.len() {
                    let at = i - populated.len();
                    assert(batch[i] == handed[at]);
                    if cfg.cookie_group_size > 0 && cfg.cookie_affinity {
                        let homes = affinity_requests(
                            tids,
                            cfg.cookie_group_size as nat,
                            cfg.cgroup,
                            tids.len(),
                        );
                        if at < homes.len() {
                            assert(handed[at] == homes[at]);
                        }
                    }
                }
            }
        },
        _ => {},
    }
}

/// A run without a cgroup writes to none: whatever the phase and the
/// event, no request touches a cgroup.
pub proof fn lemma_without_cgroup_nothing_written(
    cfg: RunCommandCfgView,
    own_pid: i32,
    phase: Phase,
    event: EventView,
)
    requires
        cfg.consistent(),
        !cfg.has_cgroup(),
    ensures
        forall|i: int|
            0 <= i < next(cfg, own_pid, phase, event).1.len() ==> !(#[trigger] next(
                cfg,
                own_pid,
                phase,
                event,
            ).1[i]).touches_cgroup(),
{
    match (phase, event) {
        (Phase::Sweeping, EventView::Descendants { pids }) => {
            lemma_sweep_spares_only_self(own_pid, pids);
        },
        _ => {},
    }
}

/// Where the first bandwidth write stands in the batch that follows the
/// discovery of `threads` threads.
pub open spec fn bandwidth_index(cfg: RunCommandCfgView, threads: nat) -> int {
    if cfg.cookie_affinity {
        1
    } else {
        threads as int + 2
    }
}

/// The quota that is written is the period times the thread count times
/// the percentage, divided by a hundred. It is written once, to the parent
/// cgroup, and the period right after it; no other request of the batch
/// sets a bandwidth.
pub proof fn lemma_bandwidth_follows_formula(cfg: RunCommandCfgView, pid: i32, tids: Seq<i32>)
    requires
        cfg.has_cgroup(),
        cfg.cfs_bw_quota_pc > 0,
        cfg.quota_fits(),
    ensures
        ({
            let batch = configure_requests(cfg, pid, tids);
            let at = bandwidth_index(cfg, tids.len());
            &&& 0 <= at && at + 1 < batch.len()
            &&& batch[at] matches RequestView::Cgroup {
                path,
                op: CgroupOpView::SetCfsQuota { quota_us },
            } && path == cfg.cgroup && quota_us as int == (cfg.cfs_bw_period_us as int) * (
            cfg.threads as int) * (cfg.cfs_bw_quota_pc as int) / 100
            &&& batch[at + 1] == cgroup_request(
                cfg.cgroup,
                CgroupOpView::SetCfsPeriod { period_us: cfg.cfs_bw_period_us },
            )
            &&& forall|i: int|
                0 <= i < batch.len() && (#[trigger] batch[i]).sets_bandwidth() ==> i == at || i
                    == at + 1
        }),
{
    let batch = configure_requests(cfg, pid, tids);
    let populated = population_requests(cfg, pid, tids);
    let handed = cookie_requests(cfg.cookie_group_size, tids, cfg.cookie_affinity, cfg.cgroup);
    let at = bandwidth_index(cfg, tids.len());
    lemma_cookies_set_no_bandwidth(cfg.cookie_group_size, tids, cfg.cookie_affinity, cfg.cgroup);
    assert(batch[at] == populated[at]);
    assert(batch[at + 1] == populated[at + 1]);
    assert forall|i: int| 0 <= i < batch.len() && (#[trigger] batch[i]).sets_bandwidth() implies i
        == at || i == at + 1 by {
        if i < populated.len() {
            assert(batch[i] == populated[i]);
        } else if i < populated.len() + handed.len() {
            assert(batch[i] == handed[i - populated.len()]);
        }
    }
}

/// A quota that cannot be written is not written: where the period times
/// the thread count times the percentage, divided by a hundred, is beyond
/// the kernel's range, the request to give the run up stands where the
/// quota would, after the weight, and no request of the batch sets a
/// bandwidth.
pub proof fn lemma_quota_beyond_range_gives_up(cfg: RunCommandCfgView, pid: i32, tids: Seq<i32>)
    requires
        cfg.has_cgroup(),
        cfg.cfs_bw_quota_pc > 0,
        !cfg.quota_fits(),
    ensures
        ({
            let batch = configure_requests(cfg, pid, tids);
            let at = bandwidth_index(cfg, tids.len());
            &&& 1 <= at < batch.len()
            &&& batch[at - 1] == cgroup_request(
                cfg.cgroup,
                CgroupOpView::SetShares { weight: cfg.weight },
            )
            &&& batch[at] == (RequestView::RefuseQuota {
                period_us: cfg.cfs_bw_period_us,
                threads: cfg.threads,
                quota_pc: cfg.cfs_bw_quota_pc,
            })
            &&& batch[at].fatal_on_failure()
            &&& forall|i: int| 0 <= i < batch.len() ==> !(#[trigger] batch[i]).sets_bandwidth()
            &&& forall|i: int| 0 <= i < batch.len() && (#[trigger] batch[i]) is RefuseQuota ==> i == at
        }),
{
    let batch = configure_requests(cfg, pid, tids);
    let populated = population_requests(cfg, pid, tids);
    let handed = cookie_requests(cfg.cookie_group_size, tids, cfg.cookie_affinity, cfg.cgroup);
    let homes = if cfg.cookie_group_size > 0 && cfg.cookie_affinity {
        affinity_requests(tids, cfg.cookie_group_size as nat, cfg.cgroup, tids.len())
    } else {
        Seq::<RequestView>::empty()
    };
    let at = bandwidth_index(cfg, tids.len());
    lemma_cookies_set_no_bandwidth(cfg.cookie_group_size, tids, cfg.cookie_affinity, cfg.cgroup);
    lemma_affinity_writes_cgroups(tids, cfg.cookie_group_size as nat, cfg.cgroup, tids.len());
    assert(batch[at] == populated[at]);
    assert(batch[at - 1] == populated[at - 1]);
    assert forall|i: int| 0 <= i < batch.len() implies !(#[trigger] batch[i]).sets_bandwidth()
        && (batch[i] is RefuseQuota ==> i == at) by {
        if i < populated.len() {
            assert(batch[i] == populated[i]);
        } else if i < populated.len() + handed.len() {
            assert(batch[i] == handed[i - populated.len()]);
            if i - populated.len() < homes.len() {
                assert(handed[i - populated.len()] == homes[i - populated.len()]);
            }
        }
    }
}

/// Handing out cookies sets no bandwidth.
pub proof fn lemma_cookies_set_no_bandwidth(
    group_size: u64,
    tids: Seq<i32>,
    affinity: bool,
    parent: Seq<char>,
)
    ensures
        forall|i: int|
            0 <= i < cookie_requests(group_size, tids, affinity, parent).len()
                ==> !(#[trigger] cookie_requests(group_size, tids, affinity, parent)[i])
                .sets_bandwidth(),
{
    let handed = cookie_requests(group_size, tids, affinity, parent);
    if group_size > 0 && affinity {
        let homes = affinity_requests(tids, group_size as nat, parent, tids.len());
        lemma_affinity_writes_cgroups(tids, group_size as nat, parent, tids.len());
        assert forall|i: int| 0 <= i < handed.len() implies !(#[trigger] handed[i])
            .sets_bandwidth() by {
            if i < homes.len() {
                assert(handed[i] == homes[i]);
            }
        }
    }
}

/// A percentage of zero leaves the bandwidth untouched: no request of the
/// batch writes a quota or a period.
pub proof fn lemma_no_percentage_no_bandwidth(cfg: RunCommandCfgView, pid: i32, tids: Seq<i32>)
    requires
        cfg.cfs_bw_quota_pc == 0,
    ensures
        forall|i: int|
            0 <= i < configure_requests(cfg, pid, tids).len() ==> !(#[trigger] configure_requests(
                cfg,
                pid,
                tids,
            )[i]).sets_bandwidth(),
{
    let batch = configure_requests(cfg, pid, tids);
    let populated = population_requests(cfg, pid, tids);
    let handed = cookie_requests(cfg.cookie_group_size, tids, cfg.cookie_affinity, cfg.cgroup);
    lemma_cookies_set_no_bandwidth(cfg.cookie_group_size, tids, cfg.cookie_affinity, cfg.cgroup);
    assert forall|i: int| 0 <= i < batch.len() implies !(#[trigger] batch[i]).sets_bandwidth() by {
        if i < populated.len() {
            assert(batch[i] == populated[i]);
        } else if i < populated.len() + handed.len() {
            assert(batch[i] == handed[i - populated.len()]);
        }
    }
}

/// Cgroup writes come before the cookies, and the cookies before the wait:
/// in the batch that follows the discovery, the wait is the last request
/// and the only wait, no cgroup write stands behind the request that
/// installs the cookies, and that request stands before the wait.
pub proof fn lemma_configure_in_order(cfg: RunCommandCfgView, pid: i32, tids: Seq<i32>)
    ensures
        ({
            let batch = configure_requests(cfg, pid, tids);
            &&& batch.len() >= 1
            &&& batch.last() == RequestView::Wait { pid, limit: wait_limit(cfg.timeout) }
            &&& forall|i: int| 0 <= i < batch.len() - 1 ==> !((#[trigger] batch[i]) is Wait)
            &&& forall|i: int, j: int|
                0 <= i < batch.len() && 0 <= j < batch.len() && (#[trigger] batch[i])
                    .touches_cgroup() && (#[trigger] batch[j]) is InstallCookies ==> i < j
        }),
{
    let batch = configure_requests(cfg, pid, tids);
    let populated = population_requests(cfg, pid, tids);
    let handed = cookie_requests(cfg.cookie_group_size, tids, cfg.cookie_affinity, cfg.cgroup);
    let homes = if cfg.cookie_group_size > 0 && cfg.cookie_affinity {
        affinity_requests(tids, cfg.cookie_group_size as nat, cfg.cgroup, tids.len())
    } else {
        Seq::<RequestView>::empty()
    };
    lemma_affinity_writes_cgroups(tids, cfg.cookie_group_size as nat, cfg.cgroup, tids.len());
    assert forall|i: int| 0 <= i < populated.len() implies (#[trigger] populated[i])
        .touches_cgroup() || populated[i] is RefuseQuota by {}
    assert forall|i: int| 0 <= i < batch.len() - 1 implies !((#[trigger] batch[i]) is Wait) by {
        if i < populated.len() {
            assert(batch[i] == populated[i]);
        } else {
            assert(batch[i] == handed[i - populated.len()]);
            if i - populated.len() < homes.len() {
                assert(handed[i - populated.len()] == homes[i - populated.len()]);
            }
        }
    }
    assert forall|i: int, j: int|
        0 <= i < batch.len() && 0 <= j < batch.len() && (#[trigger] batch[i]).touches_cgroup() && (
        #[trigger] batch[j]) is InstallCookies implies i < j by {
        if j < populated.len() {
            assert(batch[j] == populated[j]);
        } else if j < populated.len() + handed.len() {
            assert(batch[j] == handed[j - populated.len()]);
            if j - populated.len() < homes.len() {
                assert(handed[j - populated.len()] == homes[j - populated.len()]);
            }
        }
        if i >= populated.len() && i < populated.len() + handed.len() {
            assert(batch[i] == handed[i - populated.len()]);
        }
    }
}

/// Under cookie affinity the workload is not moved into the parent cgroup:
/// every thread is moved exactly once, into the sub-cgroup of its cookie
/// group, and nothing else is moved anywhere.
pub proof fn lemma_affinity_homes_every_thread(cfg: RunCommandCfgView, pid: i32, tids: Seq<i32>)
    requires
        cfg.consistent(),
        cfg.cookie_affinity,
    ensures
        attachments(configure_requests(cfg, pid, tids)) == affinity_homes(
            tids,
            cfg.cookie_group_size as nat,
            cfg.cgroup,
            tids.len(),
        ),
{
    reveal_with_fuel(attachments, 4);
    let populated = population_requests(cfg, pid, tids);
    let homes = affinity_requests(tids, cfg.cookie_group_size as nat, cfg.cgroup, tids.len());
    let tail = seq![
        RequestView::InstallCookies {
            groups: cookie_partition(tids, cfg.cookie_group_size as nat),
        },
        RequestView::ReportCookies { tids },
    ];
    let wait = seq![RequestView::Wait { pid, limit: wait_limit(cfg.timeout) }];
    let handed = cookie_requests(cfg.cookie_group_size, tids, cfg.cookie_affinity, cfg.cgroup);
    assert(handed == homes + tail);
    lemma_attachments_add(populated + handed, wait);
    lemma_attachments_add(populated, handed);
    lemma_attachments_add(homes, tail);
    lemma_affinity_attachments(tids, cfg.cookie_group_size as nat, cfg.cgroup, tids.len());
    lemma_tuning_moves_nothing(cfg, pid, tids);
    assert(attachments(tail) == Seq::<(Seq<char>, i32)>::empty()) by {
        assert(tail.drop_last().drop_last().len() == 0);
    }
    assert(attachments(wait) == Seq::<(Seq<char>, i32)>::empty()) by {
        assert(wait.drop_last().len() == 0);
    }
}

/// Under cookie affinity the requests that tune the parent cgroup move no
/// task.
proof fn lemma_tuning_moves_nothing(cfg: RunCommandCfgView, pid: i32, tids: Seq<i32>)
    requires
        cfg.has_cgroup(),
        cfg.cookie_affinity,
    ensures
        attachments(population_requests(cfg, pid, tids)) == Seq::<(Seq<char>, i32)>::empty(),
{
    reveal_with_fuel(attachments, 4);
    let none = Seq::<RequestView>::empty();
    let weighed = seq![cgroup_request(cfg.cgroup, CgroupOpView::SetShares { weight: cfg.weight })];
    let throttled = throttle_requests(cfg);
    let pinned = if cfg.cpuset.len() > 0 {
        seq![cgroup_request(cfg.cgroup, CgroupOpView::SetCpus { cpus: cfg.cpuset })]
    } else {
        Seq::<RequestView>::empty()
    };
    lemma_attachments_add(none + weighed + throttled, pinned);
    lemma_attachments_add(none + weighed, throttled);
    lemma_attachments_add(none, weighed);
    assert(attachments(weighed) == Seq::<(Seq<char>, i32)>::empty()) by {
        assert(weighed.drop_last().len() == 0);
    }
    assert(attachments(throttled) == Seq::<(Seq<char>, i32)>::empty()) by {
        if throttled.len() == 1 {
            assert(throttled.drop_last().len() == 0);
        } else if throttled.len() == 2 {
            assert(throttled.drop_last().drop_last().len() == 0);
        }
    }
    assert(attachments(pinned) == Seq::<(Seq<char>, i32)>::empty()) by {
        if pinned.len() > 0 {
            assert(pinned.drop_last().len() == 0);
        }
    }
}

} // verus!
