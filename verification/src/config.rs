//! The driver's configuration and the combinations of settings it refuses.

use crate::bandwidth::quota_of;
use vstd::prelude::*;
use vstd::string::*;

verus! {

/// The CPU weight that a cgroup has when none is asked for.
pub const DEFAULT_WEIGHT: u64 = 100;

/// The CFS period, in microseconds, that is used when none is asked for.
pub const DEFAULT_CFS_PERIOD_US: u64 = 80000;

/// What one run of the driver is asked to do.
#[derive(Debug, PartialEq, Eq)]
pub struct RunCommandCfg {
    /// The command line of the workload, cut at single spaces.
    pub task: String,
    /// How many threads the workload starts, its leader not counted.
    pub threads: usize,
    /// How long to wait for those threads to appear, in seconds.
    pub thread_wait: u64,
    /// How long the workload may run, in seconds; zero for no limit.
    pub timeout: u64,
    /// The cgroup to put the workload in; empty for none.
    pub cgroup: String,
    /// The CPUs of the cgroup, in list format; empty to leave them alone.
    pub cpuset: String,
    /// The CPU weight of the cgroup.
    pub weight: u64,
    /// How many threads share a core-scheduling cookie; zero for no cookies.
    pub cookie_group_size: u64,
    /// The CFS period of the cgroup, in microseconds.
    pub cfs_bw_period_us: u64,
    /// The share of a period that each thread may use, in percent; zero to
    /// leave the bandwidth alone.
    pub cfs_bw_quota_pc: u64,
    /// Whether each cookie group gets a sub-cgroup with core affinity.
    pub cookie_affinity: bool,
}

/// A configuration with its texts as sequences of characters.
pub struct RunCommandCfgView {
    pub task: Seq<char>,
    pub threads: usize,
    pub thread_wait: u64,
    pub timeout: u64,
    pub cgroup: Seq<char>,
    pub cpuset: Seq<char>,
    pub weight: u64,
    pub cookie_group_size: u64,
    pub cfs_bw_period_us: u64,
    pub cfs_bw_quota_pc: u64,
    pub cookie_affinity: bool,
}

impl View for RunCommandCfg {
    type V = RunCommandCfgView;

    open spec fn view(&self) -> RunCommandCfgView {
        RunCommandCfgView {
            task: self.task@,
            threads: self.threads,
            thread_wait: self.thread_wait,
            timeout: self.timeout,
            cgroup: self.cgroup@,
            cpuset: self.cpuset@,
            weight: self.weight,
            cookie_group_size: self.cookie_group_size,
            cfs_bw_period_us: self.cfs_bw_period_us,
            cfs_bw_quota_pc: self.cfs_bw_quota_pc,
            cookie_affinity: self.cookie_affinity,
        }
    }
}

/// Why a configuration is refused.
#[derive(Clone, Copy, Debug, PartialEq, Eq, Structural)]
pub enum ConfigError {
    /// A cpuset is given and no cgroup to apply it to.
    CpusetWithoutCgroup,
    /// A weight other than the default is given and no cgroup.
    WeightWithoutCgroup,
    /// A bandwidth quota is given and no cgroup.
    QuotaWithoutCgroup,
    /// Cookie affinity is asked for and no cgroup to hold the sub-cgroups.
    CookieAffinityWithoutCgroup,
    /// Cookie affinity is asked for and cookies are switched off.
    CookieAffinityWithoutCookies,
}

impl RunCommandCfgView {
    /// Whether a cgroup is asked for.
    pub open spec fn has_cgroup(self) -> bool {
        self.cgroup.len() > 0
    }

    /// The quota in microseconds that the configuration stands for.
    pub open spec fn quota(self) -> int {
        quota_of(self.cfs_bw_period_us, self.threads, self.cfs_bw_quota_pc)
    }

    /// The first reason, in the order in which they are looked for, to refuse
    /// the configuration.
    pub open spec fn violation(self) -> Option<ConfigError> {
        if !self.has_cgroup() && self.cpuset.len() > 0 {
            Some(ConfigError::CpusetWithoutCgroup)
        } else if !self.has_cgroup() && self.weight != DEFAULT_WEIGHT {
            Some(ConfigError::WeightWithoutCgroup)
        } else if !self.has_cgroup() && self.cfs_bw_quota_pc > 0 {
            Some(ConfigError::QuotaWithoutCgroup)
        } else if !self.has_cgroup() && self.cookie_affinity {
            Some(ConfigError::CookieAffinityWithoutCgroup)
        } else if self.cookie_affinity && self.cookie_group_size == 0 {
            Some(ConfigError::CookieAffinityWithoutCookies)
        } else {
            None
        }
    }

    /// A configuration that can be run: whatever needs a cgroup comes with
    /// one, and cookie affinity comes with cookies. The task, the thread
    /// count, the waits and the period are never a reason to refuse.
    pub open spec fn consistent(self) -> bool {
        &&& !self.has_cgroup() ==> self.cpuset.len() == 0 && self.weight == DEFAULT_WEIGHT
            && self.cfs_bw_quota_pc == 0 && !self.cookie_affinity
        &&& self.cookie_affinity ==> self.cookie_group_size > 0
    }

    /// Whether the quota that the configuration stands for can be written:
    /// the kernel holds it in a signed field of 64 bits.
    pub open spec fn quota_fits(self) -> bool {
        self.quota() <= i64::MAX
    }
}

/// A configuration is refused exactly when it is not consistent.
pub proof fn lemma_violation_iff_inconsistent(cfg: RunCommandCfgView)
    ensures
        cfg.violation() is None <==> cfg.consistent(),
{
}

/// Only the combination counts: two configurations that agree on the
/// cgroup, the cpuset, the weight, the percentage and the cookie settings
/// are refused alike, whatever their task, thread count, waits and period.
pub proof fn lemma_only_the_combination_counts(a: RunCommandCfgView, b: RunCommandCfgView)
    requires
        a.cgroup == b.cgroup,
        a.cpuset == b.cpuset,
        a.weight == b.weight,
        a.cfs_bw_quota_pc == b.cfs_bw_quota_pc,
        a.cookie_affinity == b.cookie_affinity,
        a.cookie_group_size == b.cookie_group_size,
    ensures
        a.violation() == b.violation(),
        a.consistent() == b.consistent(),
{
}

impl ConfigError {
    /// The one-line message that names the offending combination.
    pub open spec fn text(self) -> Seq<char> {
        match self {
            ConfigError::CpusetWithoutCgroup => "cannot specify cpuset without cgroups"@,
            ConfigError::WeightWithoutCgroup => "cannot specify weight without cgroups"@,
            ConfigError::QuotaWithoutCgroup => "cannot specify quota without cgroups"@,
            ConfigError::CookieAffinityWithoutCgroup => "cannot specify cookie affinity without cgroups"@,
            ConfigError::CookieAffinityWithoutCookies => "cannot specify cookie affinity with a zero cookie group size"@,
        }
    }

    /// Renders `text`.
    pub fn message(&self) -> (message: String)
        ensures
            message@ == self.text(),
    {
        match self {
            ConfigError::CpusetWithoutCgroup => String::from_str(
                "cannot specify cpuset without cgroups",
            ),
            ConfigError::WeightWithoutCgroup => String::from_str(
                "cannot specify weight without cgroups",
            ),
            ConfigError::QuotaWithoutCgroup => String::from_str(
                "cannot specify quota without cgroups",
            ),
            ConfigError::CookieAffinityWithoutCgroup => String::from_str(
                "cannot specify cookie affinity without cgroups",
            ),
            ConfigError::CookieAffinityWithoutCookies => String::from_str(
                "cannot specify cookie affinity with a zero cookie group size",
            ),
        }
    }
}

impl RunCommandCfg {
    /// Checks the configuration before anything is touched. The checks run
    /// in a fixed order and the first that fails is reported.
    pub fn validate(&self) -> (verdict: Result<(), ConfigError>)
        ensures
            verdict is Ok <==> self@.consistent(),
            match verdict {
                Ok(_) => self@.violation() is None,
                Err(e) => self@.violation() == Some(e),
            },
    {
        let no_cgroup: bool = self.cgroup.as_str().is_empty();
        if no_cgroup {
            if !self.cpuset.as_str().is_empty() {
                return Err(ConfigError::CpusetWithoutCgroup);
            }
            if self.weight != DEFAULT_WEIGHT {
                return Err(ConfigError::WeightWithoutCgroup);
            }
            if self.cfs_bw_quota_pc > 0 {
                return Err(ConfigError::QuotaWithoutCgroup);
            }
            if self.cookie_affinity {
                return Err(ConfigError::CookieAffinityWithoutCgroup);
            }
        }
        if self.cookie_affinity && self.cookie_group_size == 0 {
            return Err(ConfigError::CookieAffinityWithoutCookies);
        }
        Ok(())
    }
}

impl Default for RunCommandCfg {
    /// The configuration of a run without options: `sleep 10`, no extra
    /// threads, one second to find them, no time limit, no cgroup.
    fn default() -> (cfg: RunCommandCfg)
        ensures
            cfg@ == (RunCommandCfgView {
                task: "sleep 10"@,
                threads: 0,
                thread_wait: 1,
                timeout: 0,
                cgroup: Seq::<char>::empty(),
                cpuset: Seq::<char>::empty(),
                weight: DEFAULT_WEIGHT,
                cookie_group_size: 0,
                cfs_bw_period_us: DEFAULT_CFS_PERIOD_US,
                cfs_bw_quota_pc: 0,
                cookie_affinity: false,
            }),
            cfg@.consistent(),
    {
        RunCommandCfg {
            task: String::from_str("sleep 10"),
            threads: 0,
            thread_wait: 1,
            timeout: 0,
            cgroup: String::new(),
            cpuset: String::new(),
            weight: DEFAULT_WEIGHT,
            cookie_group_size: 0,
            cfs_bw_period_us: DEFAULT_CFS_PERIOD_US,
            cfs_bw_quota_pc: 0,
            cookie_affinity: false,
        }
    }
}

} // verus!
