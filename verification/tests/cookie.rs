use schedulerutils::cookie::{
    cookie_call_failed, cookie_failure, create_cookie, create_cookie_grp, create_cookies, get_cookie,
    group_cookie_calls, share_cookie_to, CookieCall, SchedCoreOp, PIDTYPE_PID, PR_SCHED_CORE,
};
use schedulerutils::partition::{count_cookie_groups, group_index, partition_threads};
use schedulerutils::request::{CgroupOp, Request};
use std::collections::HashMap;

fn sizes(groups: &[Vec<i32>]) -> Vec<usize> {
    groups.iter().map(|g| g.len()).collect()
}

#[test]
fn six_workers_in_groups_of_two() {
    let tids = vec![100, 101, 102, 103, 104, 105, 106];
    let groups = partition_threads(&tids, 2);
    assert_eq!(sizes(&groups), vec![1, 2, 2, 2]);
    assert_eq!(groups, vec![vec![100], vec![101, 104], vec![102, 105], vec![103, 106]]);
}

#[test]
fn five_workers_in_groups_of_two() {
    let tids = vec![10, 11, 12, 13, 14, 15];
    assert_eq!(partition_threads(&tids, 2), vec![vec![10], vec![11, 14], vec![12, 15], vec![13]]);
}

#[test]
fn groups_of_one_give_every_thread_its_own() {
    let tids = vec![5, 6, 7, 8];
    assert_eq!(count_cookie_groups(4, 1), 4);
    assert_eq!(partition_threads(&tids, 1), vec![vec![5], vec![6], vec![7], vec![8]]);
    for n in 1usize..50 {
        assert_eq!(count_cookie_groups(n + 1, 1), n + 1);
    }
}

#[test]
fn a_lone_leader_is_one_group() {
    assert_eq!(count_cookie_groups(1, 3), 1);
    assert_eq!(partition_threads(&vec![42], 3), vec![vec![42]]);
}

#[test]
fn one_large_group_takes_all_workers() {
    assert_eq!(partition_threads(&vec![1, 2, 3, 4], 10), vec![vec![1], vec![2, 3, 4]]);
    assert_eq!(partition_threads(&vec![1, 2, 3, 4], 3), vec![vec![1], vec![2, 3, 4]]);
    assert_eq!(partition_threads(&vec![1, 2, 3, 4], u64::MAX), vec![vec![1], vec![2, 3, 4]]);
}

#[test]
fn no_groups_without_threads_or_size() {
    assert_eq!(count_cookie_groups(0, 2), 0);
    assert_eq!(count_cookie_groups(7, 0), 0);
    assert_eq!(partition_threads(&vec![], 2), Vec::<Vec<i32>>::new());
    assert_eq!(partition_threads(&vec![1, 2, 3], 0), Vec::<Vec<i32>>::new());
}

#[test]
fn group_counts_round_up() {
    assert_eq!(count_cookie_groups(7, 2), 4);
    assert_eq!(count_cookie_groups(6, 2), 4);
    assert_eq!(count_cookie_groups(5, 2), 3);
    assert_eq!(count_cookie_groups(7, 3), 3);
    assert_eq!(count_cookie_groups(8, 3), 4);
    assert_eq!(count_cookie_groups(usize::MAX, u64::MAX), 2);
}

#[test]
fn workers_are_dealt_in_turn() {
    assert_eq!(group_index(0, 3), 0);
    assert_eq!(group_index(1, 3), 1);
    assert_eq!(group_index(2, 3), 2);
    assert_eq!(group_index(3, 3), 3);
    assert_eq!(group_index(4, 3), 1);
    assert_eq!(group_index(6, 3), 3);
    assert_eq!(group_index(0, 0), 0);
}

#[test]
fn partitions_hold_every_thread_once_and_no_group_is_too_large() {
    for n in 1usize..40 {
        let tids: Vec<i32> = (0..n as i32).map(|i| 1000 + i).collect();
        for size in 1u64..12 {
            let groups = partition_threads(&tids, size);
            assert_eq!(groups.len(), count_cookie_groups(n, size));
            assert_eq!(groups[0], vec![tids[0]]);
            let mut all: Vec<i32> = groups.iter().flatten().copied().collect();
            all.sort();
            assert_eq!(all, tids);
            for (g, group) in groups.iter().enumerate() {
                assert!(!group.is_empty());
                assert!(group.len() as u64 <= size);
                for tid in group {
                    let index = (tid - 1000) as usize;
                    assert_eq!(group_index(index, groups.len() - 1), g);
                }
            }
        }
    }
}

#[test]
fn calls_are_numbered_as_the_kernel_numbers_them() {
    assert_eq!(PR_SCHED_CORE, 62);
    assert_eq!(PIDTYPE_PID, 0);
    assert_eq!(SchedCoreOp::Get.code(), 0);
    assert_eq!(SchedCoreOp::Create.code(), 1);
    assert_eq!(SchedCoreOp::ShareTo.code(), 2);
    assert_eq!(SchedCoreOp::ShareFrom.code(), 3);
}

#[test]
fn only_reading_hands_a_cookie_back() {
    assert!(SchedCoreOp::Get.reads_cookie());
    assert!(!SchedCoreOp::Create.reads_cookie());
    assert!(!SchedCoreOp::ShareTo.reads_cookie());
    assert!(!SchedCoreOp::ShareFrom.reads_cookie());
}

#[test]
fn any_result_but_zero_is_a_failure() {
    assert!(!cookie_call_failed(0));
    assert!(cookie_call_failed(-1));
    assert!(cookie_call_failed(1));
    assert!(cookie_call_failed(i32::MIN));
}

#[test]
fn every_failure_is_told_with_the_error_of_the_system() {
    assert_eq!(
        cookie_failure(get_cookie(7), "No such process (os error 3)"),
        "could not get cookie for 7: No such process (os error 3)"
    );
    assert_eq!(
        cookie_failure(create_cookie(8), "Invalid argument (os error 22)"),
        "could not create cookie for 8: Invalid argument (os error 22)"
    );
    assert_eq!(
        cookie_failure(share_cookie_to(9), "Operation not permitted (os error 1)"),
        "could not share cookie to 9: Operation not permitted (os error 1)"
    );
    assert_eq!(
        cookie_failure(CookieCall { op: SchedCoreOp::ShareFrom, pid: -1 }, ""),
        "could not share cookie from -1: "
    );
}

#[test]
fn single_calls() {
    assert_eq!(get_cookie(7), CookieCall { op: SchedCoreOp::Get, pid: 7 });
    assert_eq!(create_cookie(8), CookieCall { op: SchedCoreOp::Create, pid: 8 });
    assert_eq!(share_cookie_to(9), CookieCall { op: SchedCoreOp::ShareTo, pid: 9 });
}

#[test]
fn a_helper_creates_then_shares() {
    assert_eq!(
        group_cookie_calls(900, &vec![101, 104]),
        vec![create_cookie(900), share_cookie_to(101), share_cookie_to(104)]
    );
    assert_eq!(group_cookie_calls(900, &vec![]), vec![create_cookie(900)]);
}

#[test]
fn the_calling_thread_is_the_helper() {
    let own = palaver::thread::gettid() as i32;
    assert!(own > 0);
    assert_eq!(
        create_cookie_grp(&vec![101, 104]),
        vec![create_cookie(own), share_cookie_to(101), share_cookie_to(104)]
    );
    assert_eq!(create_cookie_grp(&vec![]), vec![create_cookie(own)]);
}

fn cookie_of(table: &HashMap<i32, u64>, tid: i32) -> u64 {
    table.get(&tid).copied().unwrap_or(0)
}

fn play(table: &mut HashMap<i32, u64>, issued: &mut u64, caller: i32, calls: &[CookieCall]) {
    for call in calls {
        match call.op {
            SchedCoreOp::Get => {}
            SchedCoreOp::Create => {
                *issued += 1;
                table.insert(call.pid, *issued);
            }
            SchedCoreOp::ShareTo => {
                let cookie = cookie_of(table, caller);
                table.insert(call.pid, cookie);
            }
            SchedCoreOp::ShareFrom => {
                let cookie = cookie_of(table, call.pid);
                table.insert(caller, cookie);
            }
        }
    }
}

#[test]
fn played_against_a_table_each_group_gets_a_cookie_of_its_own() {
    let tids = vec![100, 101, 102, 103, 104, 105, 106];
    let groups = partition_threads(&tids, 2);
    let mut table: HashMap<i32, u64> = HashMap::new();
    table.insert(1, 77);
    let mut issued = 77u64;
    for (g, group) in groups.iter().enumerate() {
        let helper = 9000 + g as i32;
        play(&mut table, &mut issued, helper, &group_cookie_calls(helper, group));
        for member in group {
            assert_eq!(cookie_of(&table, *member), cookie_of(&table, helper));
        }
    }
    let cookies: Vec<u64> = tids.iter().map(|t| cookie_of(&table, *t)).collect();
    let mut distinct = cookies.clone();
    distinct.sort();
    distinct.dedup();
    assert_eq!(distinct.len(), 4);
    assert!(cookies.iter().all(|c| *c != 0));
    for i in 0..tids.len() {
        for j in 0..tids.len() {
            let together = group_index(i, 3) == group_index(j, 3);
            assert_eq!(cookies[i] == cookies[j], together);
        }
    }
    assert_eq!(cookie_of(&table, 1), 77);
}

#[test]
fn no_cookies_for_a_group_size_of_zero() {
    assert_eq!(create_cookies(0, vec![1, 2, 3], false, None), Vec::<Request>::new());
    assert_eq!(create_cookies(0, vec![1, 2, 3], true, Some("g")), Vec::<Request>::new());
}

#[test]
fn cookies_without_affinity_touch_no_cgroup() {
    assert_eq!(
        create_cookies(2, vec![10, 11, 12, 13], false, Some("g")),
        vec![
            Request::InstallCookies { groups: vec![vec![10], vec![11, 13], vec![12]] },
            Request::ReportCookies { tids: vec![10, 11, 12, 13] },
        ]
    );
    assert_eq!(
        create_cookies(2, vec![10], false, None),
        vec![
            Request::InstallCookies { groups: vec![vec![10]] },
            Request::ReportCookies { tids: vec![10] },
        ]
    );
}

fn sub_write(path: &str, op: CgroupOp) -> Request {
    Request::Cgroup { path: path.to_string(), op }
}

fn core_write(path: &str) -> Request {
    sub_write(path, CgroupOp::SetAttribute { name: "cpu.affinity".to_string(), value: "core".to_string() })
}

#[test]
fn cookies_with_affinity_build_a_sub_cgroup_per_group() {
    assert_eq!(
        create_cookies(2, vec![10, 11, 12, 13], true, Some("g2")),
        vec![
            sub_write("g2/cookie-group-0", CgroupOp::Create),
            core_write("g2/cookie-group-0"),
            sub_write("g2/cookie-group-0", CgroupOp::AddTask { id: 10 }),
            sub_write("g2/cookie-group-1", CgroupOp::Create),
            core_write("g2/cookie-group-1"),
            sub_write("g2/cookie-group-1", CgroupOp::AddTask { id: 11 }),
            sub_write("g2/cookie-group-2", CgroupOp::Create),
            core_write("g2/cookie-group-2"),
            sub_write("g2/cookie-group-2", CgroupOp::AddTask { id: 12 }),
            core_write("g2/cookie-group-1"),
            sub_write("g2/cookie-group-1", CgroupOp::AddTask { id: 13 }),
            Request::InstallCookies { groups: vec![vec![10], vec![11, 13], vec![12]] },
            Request::ReportCookies { tids: vec![10, 11, 12, 13] },
        ]
    );
}

#[test]
fn with_affinity_every_thread_is_attached_to_one_sub_cgroup() {
    let tids: Vec<i32> = (200..213).collect();
    let requests = create_cookies(3, tids.clone(), true, Some("p"));
    let groups = partition_threads(&tids, 3);
    let mut homes: Vec<(String, i32)> = Vec::new();
    let mut made: Vec<String> = Vec::new();
    for request in &requests {
        match request {
            Request::Cgroup { path, op: CgroupOp::AddTask { id } } => {
                assert!(made.contains(path));
                homes.push((path.clone(), *id));
            }
            Request::Cgroup { path, op: CgroupOp::Create } => {
                assert!(!made.contains(path));
                made.push(path.clone());
            }
            _ => {}
        }
    }
    assert_eq!(made.len(), groups.len());
    assert_eq!(homes.len(), tids.len());
    for (i, (path, id)) in homes.iter().enumerate() {
        assert_eq!(*id, tids[i]);
        let g = group_index(i, groups.len() - 1);
        assert_eq!(*path, format!("p/cookie-group-{}", g));
        assert!(groups[g].contains(id));
    }
}
