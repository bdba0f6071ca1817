use schedulerutils::tracer::{keep_busy, pause_micros, pick_work, sort, CpuTrace, Sighting, NO_CPU};

fn ascends(values: &[u64]) -> bool {
    values.windows(2).all(|pair| pair[0] <= pair[1])
}

#[test]
fn a_burst_is_sorted_and_within_bounds() {
    for n in [0u64, 1, 2, 17, 1000, 10000] {
        let values = sort(n);
        assert_eq!(values.len() as u64, n);
        assert!(values.iter().all(|v| *v <= n));
        assert!(ascends(&values));
    }
}

#[test]
fn a_large_burst_does_not_come_out_constant() {
    let values = keep_busy(5000);
    assert_eq!(values.len(), 5000);
    assert!(ascends(&values));
    assert!(values.iter().all(|v| *v <= 5000));
    assert!(values[0] < values[4999]);
}

#[test]
fn work_is_picked_within_its_bounds() {
    assert_eq!(pick_work(5, 5), 5);
    assert_eq!(pick_work(0, 0), 0);
    assert_eq!(pick_work(u64::MAX, u64::MAX), u64::MAX);
    for _ in 0..200 {
        let n = pick_work(1, 10000);
        assert!(1 <= n && n <= 10000);
        let n = pick_work(3, 4);
        assert!(n == 3 || n == 4);
    }
}

#[test]
fn work_is_not_always_one_of_its_bounds() {
    let mut above = false;
    let mut below = false;
    for _ in 0..200 {
        let n = pick_work(0, u64::MAX);
        above = above || n > 0;
        below = below || n < u64::MAX;
    }
    assert!(above && below);
}

#[test]
fn the_pause_is_the_setting_in_microseconds() {
    assert_eq!(pause_micros(0), None);
    assert_eq!(pause_micros(1), Some(1));
    assert_eq!(pause_micros(1500), Some(1500));
}

#[test]
fn the_first_look_is_always_news() {
    let mut trace = CpuTrace::new();
    assert_eq!(trace.last_cpu, NO_CPU);
    assert_eq!(trace.loops, 0);
    assert_eq!(
        trace.observe(3, 123_456),
        Sighting::Moved { cpu: 3, loops: 0, nanos_per_loop: 0 }
    );
    assert_eq!(trace.last_cpu, 3);
}

#[test]
fn a_line_is_due_only_on_a_move() {
    let mut trace = CpuTrace::new();
    let looks = [0, 0, 1, 1, 1, 0, 1];
    let mut lines: Vec<i32> = Vec::new();
    for (k, cpu) in looks.iter().enumerate() {
        match trace.observe(*cpu, 1000 * k as u128) {
            Sighting::Moved { cpu: on, loops, .. } => {
                assert_eq!(on, *cpu);
                assert_eq!(loops, k as u64);
                lines.push(on);
            }
            Sighting::Stayed => assert_eq!(trace.last_cpu, *cpu),
            Sighting::Lost => panic!("lost"),
        }
        trace.count_loop();
    }
    assert_eq!(lines, vec![0, 1, 0, 1]);
    assert!(lines.iter().all(|cpu| looks.contains(cpu)));
}

#[test]
fn the_velocity_is_the_time_per_loop_rounded_down() {
    let mut trace = CpuTrace { last_cpu: 0, loops: 3 };
    assert_eq!(
        trace.observe(1, 10_000),
        Sighting::Moved { cpu: 1, loops: 3, nanos_per_loop: 3333 }
    );
    let mut trace = CpuTrace { last_cpu: 0, loops: 4 };
    assert_eq!(trace.observe(2, 3), Sighting::Moved { cpu: 2, loops: 4, nanos_per_loop: 0 });
    let mut trace = CpuTrace { last_cpu: 5, loops: u64::MAX };
    assert_eq!(
        trace.observe(6, u128::MAX),
        Sighting::Moved { cpu: 6, loops: u64::MAX, nanos_per_loop: u128::MAX / u64::MAX as u128 }
    );
}

#[test]
fn an_unknown_cpu_ends_the_trace() {
    let mut trace = CpuTrace { last_cpu: 2, loops: 9 };
    assert_eq!(trace.observe(-1, 500), Sighting::Lost);
    assert_eq!(trace, CpuTrace { last_cpu: 2, loops: 9 });
    let mut fresh = CpuTrace::new();
    assert_eq!(fresh.observe(NO_CPU, 0), Sighting::Lost);
}

#[test]
fn loops_are_counted_up_to_the_limit() {
    let mut trace = CpuTrace::new();
    trace.count_loop();
    trace.count_loop();
    assert_eq!(trace.loops, 2);
    let mut full = CpuTrace { last_cpu: 1, loops: u64::MAX - 1 };
    full.count_loop();
    assert_eq!(full.loops, u64::MAX);
    full.count_loop();
    assert_eq!(full.loops, u64::MAX);
    assert_eq!(full.last_cpu, 1);
}
