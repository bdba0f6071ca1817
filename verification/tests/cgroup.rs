use schedulerutils::cgroup::{
    add_task_to_cgroup, controllers, create_cgroup, next_attach, set_core_affinity,
    set_cpu_affinity, set_quota, set_weight, sub_cgroup_path, AttachBy,
};
use schedulerutils::request::{CgroupOp, Request};

fn cgroup_write(path: &str, op: CgroupOp) -> Request {
    Request::Cgroup { path: path.to_string(), op }
}

#[test]
fn no_cgroup_for_an_empty_name() {
    assert_eq!(create_cgroup(""), None);
}

#[test]
fn a_named_cgroup_is_created() {
    assert_eq!(create_cgroup("g1"), Some(cgroup_write("g1", CgroupOp::Create)));
    assert_eq!(create_cgroup("a/b"), Some(cgroup_write("a/b", CgroupOp::Create)));
}

#[test]
fn cgroups_have_the_cpuset_and_cpu_controllers() {
    assert_eq!(controllers(), vec!["cpuset".to_string(), "cpu".to_string()]);
}

#[test]
fn tasks_are_attached_by_id() {
    assert_eq!(add_task_to_cgroup("g1", 4321), cgroup_write("g1", CgroupOp::AddTask { id: 4321 }));
}

#[test]
fn attach_tries_the_thread_group_then_the_thread() {
    assert_eq!(next_attach(None), Some(AttachBy::ThreadGroup));
    assert_eq!(next_attach(Some(AttachBy::ThreadGroup)), Some(AttachBy::Thread));
    assert_eq!(next_attach(Some(AttachBy::Thread)), None);
}

#[test]
fn cpuset_weight_and_affinity_writes() {
    assert_eq!(
        set_cpu_affinity("g1", "0-3,5"),
        cgroup_write("g1", CgroupOp::SetCpus { cpus: "0-3,5".to_string() })
    );
    assert_eq!(set_weight("g1", 250), cgroup_write("g1", CgroupOp::SetShares { weight: 250 }));
    assert_eq!(
        set_core_affinity("g1/cookie-group-2"),
        cgroup_write(
            "g1/cookie-group-2",
            CgroupOp::SetAttribute { name: "cpu.affinity".to_string(), value: "core".to_string() }
        )
    );
}

#[test]
fn bandwidth_is_quota_then_period() {
    assert_eq!(
        set_quota("g1", 160000, 80000),
        vec![
            cgroup_write("g1", CgroupOp::SetCfsQuota { quota_us: 160000 }),
            cgroup_write("g1", CgroupOp::SetCfsPeriod { period_us: 80000 }),
        ]
    );
}

#[test]
fn cookie_groups_live_under_the_parent() {
    assert_eq!(sub_cgroup_path("g2", 0), "g2/cookie-group-0");
    assert_eq!(sub_cgroup_path("g2", 3), "g2/cookie-group-3");
    assert_eq!(sub_cgroup_path("a/b", 12), "a/b/cookie-group-12");
    assert_eq!(sub_cgroup_path("", 105), "/cookie-group-105");
}
