use schedulerutils::report::{cookie_report, quota_refusal, task_report, trace_line};
use schedulerutils::text::push_signed_decimal;

#[test]
fn the_output_of_a_task_is_shown_between_quotes() {
    assert_eq!(task_report(4242, "hi\n", ""), "task 4242: out='hi\n', err=''");
    assert_eq!(task_report(1, "", "no such file"), "task 1: out='', err='no such file'");
    assert_eq!(task_report(7, "a'b", "c"), "task 7: out='a'b', err='c'");
}

#[test]
fn the_cookie_of_a_thread_is_shown_in_decimal() {
    assert_eq!(cookie_report(101, 0), "cookie for 101 is 0");
    assert_eq!(cookie_report(101, 3735928559), "cookie for 101 is 3735928559");
    assert_eq!(cookie_report(7, u64::MAX), format!("cookie for 7 is {}", u64::MAX));
}

#[test]
fn a_move_is_shown_with_its_cpu_and_velocity() {
    assert_eq!(
        trace_line(0, 1234, 1200, 3, 0, "0ns"),
        "Thread 0 (TID: 1234) - PID 1200 running on CPU 3 after 0 loops, loop velocity is 0ns"
    );
    assert_eq!(
        trace_line(5, 77, 70, 11, 4000, "1.5ms"),
        format!(
            "Thread {} (TID: {}) - PID {} running on CPU {} after {} loops, loop velocity is {:?}",
            5,
            77,
            70,
            11,
            4000,
            std::time::Duration::from_micros(1500)
        )
    );
}

#[test]
fn signed_numerals() {
    for n in [0, 1, -1, 9, -10, 12345, i32::MAX, i32::MIN, -2147483647] {
        let mut out = String::new();
        push_signed_decimal(&mut out, n);
        assert_eq!(out, format!("{}", n));
    }
}

#[test]
fn a_refused_quota_names_its_settings() {
    assert_eq!(
        quota_refusal(80000, 4, 50),
        "cannot write the quota of 4 threads at 50 percent of 80000 usecs: out of range"
    );
    assert_eq!(
        quota_refusal(u64::MAX, 1, 100),
        format!(
            "cannot write the quota of 1 threads at 100 percent of {} usecs: out of range",
            u64::MAX
        )
    );
}
