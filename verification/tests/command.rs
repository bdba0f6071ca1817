use schedulerutils::command::{parse_task, CommandLine};

fn command(program: &str, args: &[&str]) -> CommandLine {
    CommandLine { program: program.to_string(), args: args.iter().map(|a| a.to_string()).collect() }
}

#[test]
fn task_is_cut_at_single_spaces() {
    assert_eq!(parse_task("sleep 10"), command("sleep", &["10"]));
    assert_eq!(parse_task("echo hi"), command("echo", &["hi"]));
    assert_eq!(parse_task("taskset -c 0,1 ./tracer -t 2"), command("taskset", &["-c", "0,1", "./tracer", "-t", "2"]));
}

#[test]
fn task_of_one_word_has_no_arguments() {
    assert_eq!(parse_task("workload"), command("workload", &[]));
}

#[test]
fn task_without_text_names_an_empty_program() {
    assert_eq!(parse_task(""), command("", &[]));
}

#[test]
fn task_has_no_quoting() {
    assert_eq!(parse_task("sh -c 'a b'"), command("sh", &["-c", "'a", "b'"]));
    assert_eq!(parse_task("a  b"), command("a", &["", "b"]));
    assert_eq!(parse_task(" a"), command("", &["a"]));
}

#[test]
fn a_parsed_task_spells_the_task_again() {
    for task in ["", "sleep 10", "a  b", " lead", "trail ", "taskset -c 0,1 ./tracer -t 2", "é ü"] {
        assert_eq!(parse_task(task).spell(), task);
    }
    assert_eq!(command("echo", &["hi", "there"]).spell(), "echo hi there");
    assert_eq!(command("one", &[]).spell(), "one");
}
