//! Decision logic of a harness that exercises the Linux CPU scheduler.
//!
//! The harness spawns a workload, waits for its threads, places them in a
//! cgroup, tunes weight, bandwidth and affinity, hands out core-scheduling
//! cookies, waits for the workload and sweeps what is left of it. A
//! companion workload, the CPU tracer, burns CPU in random bursts and notes
//! every move to another logical CPU.
//!
//! Everything here works on plain values. What is to be done is computed
//! and proved in this crate; the caller reads `/proc`, writes to the cgroup
//! filesystem, makes the system calls that change anything and reports back
//! what came of them. The crate itself asks only for random numbers and for
//! the ids of the process and the thread that it runs in.
//!
//! - `config`: the settings of a run and the combinations that are refused;
//! - `command`: the workload's command line;
//! - `driver`: the phases of a run, as answers to events;
//! - `request`: what the driver asks of its caller;
//! - `cgroup`: the writes that configure a cgroup;
//! - `bandwidth`: the CFS quota that a percentage stands for;
//! - `partition`: which threads share a cookie;
//! - `cookie`: the calls and the plan that hand the cookies out;
//! - `sched_core`: a model of the kernel's cookies, and what the plan
//!   achieves in it;
//! - `proc`: child lists, the walk over the process tree, the wait for
//!   threads;
//! - `tracer`: the synthetic work and the tracer's bookkeeping;
//! - `report`: the lines that are printed;
//! - `text`: splitting and numerals.

pub mod bandwidth;
pub mod cgroup;
pub mod command;
pub mod config;
pub mod cookie;
pub mod driver;
pub mod partition;
pub mod proc;
pub mod report;
pub mod request;
pub mod sched_core;
pub mod text;
pub mod tracer;
