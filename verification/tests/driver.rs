use schedulerutils::command::CommandLine;
use schedulerutils::config::{ConfigError, RunCommandCfg};
use schedulerutils::driver::{plan_sweep, Driver, Event, Phase};
use schedulerutils::request::{CgroupOp, Request};

fn driver_for(cfg: RunCommandCfg) -> Driver {
    match Driver::new(cfg) {
        Ok(driver) => driver,
        Err(e) => panic!("refused: {}", e.message()),
    }
}

fn spawn_of(program: &str, args: &[&str]) -> Request {
    Request::Spawn {
        command: CommandLine {
            program: program.to_string(),
            args: args.iter().map(|a| a.to_string()).collect(),
        },
    }
}

fn on(path: &str, op: CgroupOp) -> Request {
    Request::Cgroup { path: path.to_string(), op }
}

fn touches_cgroup(request: &Request) -> bool {
    matches!(request, Request::Cgroup { .. })
}

#[test]
fn a_run_without_cgroup_spawns_waits_and_reports() {
    let cfg = RunCommandCfg { task: "echo hi".to_string(), ..RunCommandCfg::default() };
    let mut driver = driver_for(cfg);
    assert_eq!(driver.current_phase(), Phase::Ready);
    let mut seen: Vec<Request> = Vec::new();

    let batch = driver.step(Event::Start);
    assert_eq!(batch, vec![spawn_of("echo", &["hi"])]);
    assert_eq!(driver.current_phase(), Phase::Spawning);
    seen.extend(batch);

    let batch = driver.step(Event::Spawned { pid: 4242 });
    assert_eq!(batch, vec![Request::DiscoverThreads { pid: 4242, expected: 0, timeout: 1 }]);
    assert_eq!(driver.current_phase(), Phase::Discovering { pid: 4242 });
    seen.extend(batch);

    let batch = driver.step(Event::Threads { tids: vec![4242] });
    assert_eq!(batch, vec![Request::Wait { pid: 4242, limit: None }]);
    assert_eq!(driver.current_phase(), Phase::Waiting { pid: 4242 });
    seen.extend(batch);

    let own = driver.own_process_id();
    let batch = driver.step(Event::Exited);
    assert_eq!(
        batch,
        vec![Request::ReportOutput { pid: 4242 }, Request::ListDescendants { pid: own }]
    );
    assert_eq!(driver.current_phase(), Phase::Sweeping);
    seen.extend(batch);

    let batch = driver.step(Event::Descendants { pids: vec![own] });
    assert_eq!(batch, Vec::<Request>::new());
    assert!(driver.is_finished());

    assert!(!seen.iter().any(touches_cgroup));
}

#[test]
fn a_refused_configuration_starts_nothing() {
    let cfg = RunCommandCfg { weight: 50, ..RunCommandCfg::default() };
    match Driver::new(cfg) {
        Ok(_) => panic!("accepted"),
        Err(e) => {
            assert_eq!(e, ConfigError::WeightWithoutCgroup);
            assert_eq!(e.message(), "cannot specify weight without cgroups");
        }
    }
}

#[test]
fn bandwidth_is_derived_and_written_to_the_cgroup() {
    let cfg = RunCommandCfg {
        cgroup: "g1".to_string(),
        threads: 4,
        cfs_bw_period_us: 80000,
        cfs_bw_quota_pc: 50,
        task: "sleep 5".to_string(),
        ..RunCommandCfg::default()
    };
    let mut driver = driver_for(cfg);
    assert_eq!(
        driver.step(Event::Start),
        vec![on("g1", CgroupOp::Create), spawn_of("sleep", &["5"])]
    );
    assert_eq!(
        driver.step(Event::Spawned { pid: 500 }),
        vec![Request::DiscoverThreads { pid: 500, expected: 4, timeout: 1 }]
    );
    let batch = driver.step(Event::Threads { tids: vec![500, 501, 502, 503, 504] });
    assert_eq!(
        batch,
        vec![
            on("g1", CgroupOp::AddTask { id: 500 }),
            on("g1", CgroupOp::AddTask { id: 500 }),
            on("g1", CgroupOp::AddTask { id: 501 }),
            on("g1", CgroupOp::AddTask { id: 502 }),
            on("g1", CgroupOp::AddTask { id: 503 }),
            on("g1", CgroupOp::AddTask { id: 504 }),
            on("g1", CgroupOp::SetShares { weight: 100 }),
            on("g1", CgroupOp::SetCfsQuota { quota_us: 160000 }),
            on("g1", CgroupOp::SetCfsPeriod { period_us: 80000 }),
            Request::Wait { pid: 500, limit: None },
        ]
    );
}

#[test]
fn the_quota_goes_by_the_configured_thread_count() {
    let cfg = RunCommandCfg {
        cgroup: "g".to_string(),
        threads: 2,
        cfs_bw_period_us: 1000,
        cfs_bw_quota_pc: 75,
        ..RunCommandCfg::default()
    };
    let mut driver = driver_for(cfg);
    driver.step(Event::Start);
    driver.step(Event::Spawned { pid: 9 });
    let batch = driver.step(Event::Threads { tids: vec![9, 10, 11, 12, 13] });
    assert!(batch.contains(&on("g", CgroupOp::SetCfsQuota { quota_us: 1500 })));
    assert!(batch.contains(&on("g", CgroupOp::SetCfsPeriod { period_us: 1000 })));
}

#[test]
fn a_quota_beyond_the_range_gives_the_run_up_where_it_would_be_written() {
    let cfg = RunCommandCfg {
        cgroup: "g".to_string(),
        threads: 1,
        cfs_bw_period_us: u64::MAX,
        cfs_bw_quota_pc: 100,
        cpuset: "0".to_string(),
        ..RunCommandCfg::default()
    };
    let mut driver = driver_for(cfg);
    assert_eq!(driver.step(Event::Start), vec![on("g", CgroupOp::Create), spawn_of("sleep", &["10"])]);
    assert_eq!(
        driver.step(Event::Spawned { pid: 9 }),
        vec![Request::DiscoverThreads { pid: 9, expected: 1, timeout: 1 }]
    );
    let refusal = Request::RefuseQuota { period_us: u64::MAX, threads: 1, quota_pc: 100 };
    assert!(refusal.failure_is_fatal());
    assert_eq!(
        driver.step(Event::Threads { tids: vec![9, 10] }),
        vec![
            on("g", CgroupOp::AddTask { id: 9 }),
            on("g", CgroupOp::AddTask { id: 9 }),
            on("g", CgroupOp::AddTask { id: 10 }),
            on("g", CgroupOp::SetShares { weight: 100 }),
            refusal,
            on("g", CgroupOp::SetCpus { cpus: "0".to_string() }),
            Request::Wait { pid: 9, limit: None },
        ]
    );
}

#[test]
fn the_largest_quota_that_fits_is_written() {
    let cfg = RunCommandCfg {
        cgroup: "g".to_string(),
        threads: 1,
        cfs_bw_period_us: i64::MAX as u64,
        cfs_bw_quota_pc: 100,
        ..RunCommandCfg::default()
    };
    let mut driver = driver_for(cfg);
    driver.step(Event::Start);
    driver.step(Event::Spawned { pid: 9 });
    let batch = driver.step(Event::Threads { tids: vec![9, 10] });
    assert!(batch.contains(&on("g", CgroupOp::SetCfsQuota { quota_us: i64::MAX })));
    assert!(!batch.iter().any(|request| matches!(request, Request::RefuseQuota { .. })));
}

#[test]
fn no_percentage_no_bandwidth() {
    let cfg = RunCommandCfg {
        cgroup: "g".to_string(),
        threads: 2,
        cpuset: "0-1".to_string(),
        weight: 300,
        ..RunCommandCfg::default()
    };
    let mut driver = driver_for(cfg);
    driver.step(Event::Start);
    driver.step(Event::Spawned { pid: 9 });
    let batch = driver.step(Event::Threads { tids: vec![9, 10, 11] });
    assert_eq!(
        batch,
        vec![
            on("g", CgroupOp::AddTask { id: 9 }),
            on("g", CgroupOp::AddTask { id: 9 }),
            on("g", CgroupOp::AddTask { id: 10 }),
            on("g", CgroupOp::AddTask { id: 11 }),
            on("g", CgroupOp::SetShares { weight: 300 }),
            on("g", CgroupOp::SetCpus { cpus: "0-1".to_string() }),
            Request::Wait { pid: 9, limit: None },
        ]
    );
}

#[test]
fn cookie_groups_are_installed_before_the_wait() {
    let cfg = RunCommandCfg {
        cgroup: "g2".to_string(),
        threads: 6,
        cookie_group_size: 2,
        task: "workload".to_string(),
        ..RunCommandCfg::default()
    };
    let mut driver = driver_for(cfg);
    assert_eq!(driver.step(Event::Start), vec![on("g2", CgroupOp::Create), spawn_of("workload", &[])]);
    driver.step(Event::Spawned { pid: 100 });
    let tids = vec![100, 101, 102, 103, 104, 105, 106];
    let batch = driver.step(Event::Threads { tids: tids.clone() });
    let n = batch.len();
    assert_eq!(batch[n - 1], Request::Wait { pid: 100, limit: None });
    assert_eq!(batch[n - 2], Request::ReportCookies { tids });
    assert_eq!(
        batch[n - 3],
        Request::InstallCookies {
            groups: vec![vec![100], vec![101, 104], vec![102, 105], vec![103, 106]]
        }
    );
    assert!(batch[..n - 3].iter().all(touches_cgroup));
    assert_eq!(batch[n - 4], on("g2", CgroupOp::SetShares { weight: 100 }));
}

#[test]
fn with_cookie_affinity_the_parent_gets_no_task() {
    let cfg = RunCommandCfg {
        cgroup: "g".to_string(),
        threads: 2,
        cookie_group_size: 1,
        cookie_affinity: true,
        ..RunCommandCfg::default()
    };
    let mut driver = driver_for(cfg);
    driver.step(Event::Start);
    driver.step(Event::Spawned { pid: 30 });
    let batch = driver.step(Event::Threads { tids: vec![30, 31, 32] });
    let core = |path: &str| {
        on(path, CgroupOp::SetAttribute { name: "cpu.affinity".to_string(), value: "core".to_string() })
    };
    assert_eq!(
        batch,
        vec![
            on("g", CgroupOp::SetShares { weight: 100 }),
            on("g/cookie-group-0", CgroupOp::Create),
            core("g/cookie-group-0"),
            on("g/cookie-group-0", CgroupOp::AddTask { id: 30 }),
            on("g/cookie-group-1", CgroupOp::Create),
            core("g/cookie-group-1"),
            on("g/cookie-group-1", CgroupOp::AddTask { id: 31 }),
            on("g/cookie-group-2", CgroupOp::Create),
            core("g/cookie-group-2"),
            on("g/cookie-group-2", CgroupOp::AddTask { id: 32 }),
            Request::InstallCookies { groups: vec![vec![30], vec![31], vec![32]] },
            Request::ReportCookies { tids: vec![30, 31, 32] },
            Request::Wait { pid: 30, limit: None },
        ]
    );
    for request in &batch {
        if let Request::Cgroup { path, op: CgroupOp::AddTask { .. } } = request {
            assert_ne!(path, "g");
        }
    }
}

#[test]
fn a_timeout_terminates_the_leader_and_the_sweep_still_runs() {
    let cfg = RunCommandCfg { timeout: 1, task: "sleep 60".to_string(), ..RunCommandCfg::default() };
    let mut driver = driver_for(cfg);
    assert_eq!(driver.step(Event::Start), vec![spawn_of("sleep", &["60"])]);
    driver.step(Event::Spawned { pid: 77 });
    assert_eq!(
        driver.step(Event::Threads { tids: vec![77] }),
        vec![Request::Wait { pid: 77, limit: Some(1) }]
    );
    let own = driver.own_process_id();
    let child = own.wrapping_add(1);
    let grandchild = own.wrapping_add(2);
    assert_eq!(
        driver.step(Event::TimedOut),
        vec![Request::Terminate { pid: 77 }, Request::ListDescendants { pid: own }]
    );
    assert_eq!(driver.current_phase(), Phase::Sweeping);
    assert_eq!(
        driver.step(Event::Descendants { pids: vec![own, child, grandchild] }),
        vec![Request::Terminate { pid: child }, Request::Terminate { pid: grandchild }]
    );
    assert!(driver.is_finished());
    assert_eq!(driver.step(Event::Start), Vec::<Request>::new());
    assert!(driver.is_finished());
}

#[test]
fn events_out_of_turn_change_nothing() {
    let mut driver = driver_for(RunCommandCfg::default());
    assert_eq!(driver.step(Event::Exited), Vec::<Request>::new());
    assert_eq!(driver.step(Event::Spawned { pid: 5 }), Vec::<Request>::new());
    assert_eq!(driver.step(Event::Threads { tids: vec![5] }), Vec::<Request>::new());
    assert_eq!(driver.step(Event::Descendants { pids: vec![1, 2] }), Vec::<Request>::new());
    assert_eq!(driver.current_phase(), Phase::Ready);
    assert_eq!(driver.step(Event::Start), vec![spawn_of("sleep", &["10"])]);
    assert_eq!(driver.step(Event::Start), Vec::<Request>::new());
    assert_eq!(driver.step(Event::TimedOut), Vec::<Request>::new());
    assert_eq!(driver.current_phase(), Phase::Spawning);
}

#[test]
fn only_a_failed_termination_is_forgiven() {
    assert!(!Request::Terminate { pid: 5 }.failure_is_fatal());
    assert!(on("g", CgroupOp::Create).failure_is_fatal());
    assert!(on("g", CgroupOp::AddTask { id: 5 }).failure_is_fatal());
    assert!(spawn_of("sleep", &["1"]).failure_is_fatal());
    assert!(Request::DiscoverThreads { pid: 5, expected: 0, timeout: 1 }.failure_is_fatal());
    assert!(Request::InstallCookies { groups: vec![vec![5]] }.failure_is_fatal());
    assert!(Request::ReportCookies { tids: vec![5] }.failure_is_fatal());
    assert!(Request::Wait { pid: 5, limit: None }.failure_is_fatal());
    assert!(Request::ReportOutput { pid: 5 }.failure_is_fatal());
    assert!(Request::ListDescendants { pid: 5 }.failure_is_fatal());
}

#[test]
fn the_driver_knows_the_process_it_runs_in() {
    let driver = driver_for(RunCommandCfg::default());
    assert_eq!(driver.own_process_id(), nix::unistd::getpid().as_raw());
    assert!(driver.own_process_id() > 0);
}

#[test]
fn the_sweep_spares_the_driver_alone() {
    assert_eq!(plan_sweep(10, &vec![]), Vec::<Request>::new());
    assert_eq!(plan_sweep(10, &vec![10]), Vec::<Request>::new());
    assert_eq!(
        plan_sweep(10, &vec![10, 11, 12, 13]),
        vec![
            Request::Terminate { pid: 11 },
            Request::Terminate { pid: 12 },
            Request::Terminate { pid: 13 },
        ]
    );
    assert_eq!(
        plan_sweep(10, &vec![12, 10, 11, 10]),
        vec![Request::Terminate { pid: 12 }, Request::Terminate { pid: 11 }]
    );
}
