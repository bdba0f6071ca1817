//! A model of the kernel's core-scheduling cookies, and what the calls that
//! the cookie plan asks for achieve in it.
//!
//! The interface only copies between the caller and one other task, so a
//! group gets its cookie from a helper thread that is no part of the
//! workload: the helper takes a fresh cookie and copies it onto each member.
//! The model runs the helpers one after the other; they touch different
//! tasks, so the order between them does not matter.

use crate::cookie::{group_calls, CookieCall, SchedCoreOp};
use crate::partition::{
    cookie_group_count, cookie_partition, group_of, lemma_every_thread_placed, lemma_group_sizes,
    lemma_members_belong, worker_group_count,
};
use vstd::prelude::*;

verus! {

/// The cookies of the tasks of a machine. A task without an entry has no
/// cookie, which reads as zero; `issued` counts the cookies made so far, and
/// the next one made is `issued + 1`.
pub struct CookieTable {
    pub cookies: Map<i32, nat>,
    pub issued: nat,
}

impl CookieTable {
    /// The cookie of `tid`; zero for none.
    pub open spec fn cookie_of(self, tid: i32) -> nat {
        if self.cookies.contains_key(tid) {
            self.cookies[tid]
        } else {
            0
        }
    }

    /// The table after `caller` has made `call`. Reading changes nothing;
    /// creating gives the named task a cookie that no task has; sharing
    /// copies the caller's cookie onto the named task, or the other way
    /// round.
    pub open spec fn apply(self, caller: i32, call: CookieCall) -> CookieTable {
        match call.op {
            SchedCoreOp::Get => self,
            SchedCoreOp::Create => CookieTable {
                cookies: self.cookies.insert(call.pid, self.issued + 1),
                issued: self.issued + 1,
            },
            SchedCoreOp::ShareTo => CookieTable {
                cookies: self.cookies.insert(call.pid, self.cookie_of(caller)),
                issued: self.issued,
            },
            SchedCoreOp::ShareFrom => CookieTable {
                cookies: self.cookies.insert(caller, self.cookie_of(call.pid)),
                issued: self.issued,
            },
        }
    }

    /// The table after `caller` has made `calls` in order.
    pub open spec fn run(self, caller: i32, calls: Seq<CookieCall>) -> CookieTable
        decreases calls.len(),
    {
        if calls.len() == 0 {
            self
        } else {
            self.run(caller, calls.drop_last()).apply(caller, calls.last())
        }
    }

    /// The table after the cookies of `groups` were installed, the group at
    /// index `g` by the helper `helpers[g]`.
    pub open spec fn install(self, helpers: Seq<i32>, groups: Seq<Seq<i32>>) -> CookieTable
        decreases groups.len(),
    {
        if groups.len() == 0 {
            self
        } else {
            self.install(helpers.drop_last(), groups.drop_last()).run(
                helpers.last(),
                group_calls(helpers.last(), groups.last()),
            )
        }
    }
}

/// A cookie that was shared reads back: right after `caller` has shared its
/// cookie to `pid`, the cookie of `pid` is the caller's.
pub proof fn lemma_shared_cookie_reads_back(table: CookieTable, caller: i32, pid: i32)
    ensures
        table.apply(caller, CookieCall { op: SchedCoreOp::ShareTo, pid }).cookie_of(pid)
            == table.cookie_of(caller),
        table.apply(caller, CookieCall { op: SchedCoreOp::ShareTo, pid }).apply(
            caller,
            CookieCall { op: SchedCoreOp::Get, pid },
        ).cookie_of(pid) == table.cookie_of(caller),
{
}

/// What one helper achieves: it and every member of its group hold the one
/// cookie made, and no other task's cookie has changed.
pub proof fn lemma_group_shares_one_cookie(table: CookieTable, helper: i32, members: Seq<i32>)
    requires
        !members.contains(helper),
    ensures
        ({
            let after = table.run(helper, group_calls(helper, members));
            &&& after.issued == table.issued + 1
            &&& after.cookie_of(helper) == table.issued + 1
            &&& forall|i: int|
                0 <= i < members.len() ==> after.cookie_of(#[trigger] members[i]) == table.issued
                    + 1
            &&& forall|tid: i32|
                tid != helper && !members.contains(tid) ==> #[trigger] after.cookie_of(tid)
                    == table.cookie_of(tid)
        }),
    decreases members.len(),
{
    let calls = group_calls(helper, members);
    let after = table.run(helper, calls);
    if members.len() == 0 {
        assert(calls.drop_last().len() == 0);
        assert(table.run(helper, calls.drop_last()) == table);
        assert(calls.last() == CookieCall { op: SchedCoreOp::Create, pid: helper });
    } else {
        let fewer = members.drop_last();
        assert(!fewer.contains(helper)) by {
            if fewer.contains(helper) {
                let at = choose|at: int| 0 <= at < fewer.len() && fewer[at] == helper;
                assert(members[at] == helper);
            }
        }
        lemma_group_shares_one_cookie(table, helper, fewer);
        assert(calls.drop_last() == group_calls(helper, fewer));
        assert(calls.last() == CookieCall { op: SchedCoreOp::ShareTo, pid: members.last() });
        let before = table.run(helper, group_calls(helper, fewer));
        assert(after == before.apply(helper, calls.last()));
        assert(members.last() != helper) by {
            assert(members[members.len() - 1] == members.last());
        }
        assert forall|i: int| 0 <= i < members.len() implies after.cookie_of(
            #[trigger] members[i],
        ) == table.issued + 1 by {
            if i < fewer.len() {
                assert(fewer[i] == members[i]);
            }
        }
        assert forall|tid: i32| tid != helper && !members.contains(tid) implies #[trigger]
            after.cookie_of(tid) == table.cookie_of(tid) by {
            assert(tid != members.last()) by {
                assert(members[members.len() - 1] == members.last());
            }
            assert(!fewer.contains(tid)) by {
                if fewer.contains(tid) {
                    let at = choose|at: int| 0 <= at < fewer.len() && fewer[at] == tid;
                    assert(members[at] == tid);
                }
            }
            assert(before.cookie_of(tid) == table.cookie_of(tid));
            assert(after.cookies == before.cookies.insert(
                members.last(),
                before.cookie_of(helper),
            ));
        }
    }
}

/// Whether the groups and their helpers keep out of each other's way: no
/// task is in two groups, and no helper is in any group.
pub open spec fn apart(helpers: Seq<i32>, groups: Seq<Seq<i32>>) -> bool {
    &&& helpers.len() == groups.len()
    &&& forall|g: int, h: int, i: int, j: int|
        0 <= g < groups.len() && 0 <= h < groups.len() && g != h && 0 <= i < groups[g].len() && 0
            <= j < groups[h].len() ==> #[trigger] groups[g][i] != #[trigger] groups[h][j]
    &&& forall|g: int, h: int, j: int|
        0 <= g < helpers.len() && 0 <= h < groups.len() && 0 <= j < groups[h].len()
            ==> #[trigger] helpers[g] != #[trigger] groups[h][j]
}

/// What installing achieves: every member of the group at index `g` holds
/// the `g + 1`-th cookie made since, so that two members hold the same cookie
/// exactly when they are in the same group, and none is left without one.
pub proof fn lemma_install_marks_groups(
    table: CookieTable,
    helpers: Seq<i32>,
    groups: Seq<Seq<i32>>,
)
    requires
        apart(helpers, groups),
    ensures
        table.install(helpers, groups).issued == table.issued + groups.len(),
        forall|g: int, i: int|
            0 <= g < groups.len() && 0 <= i < groups[g].len() ==> table.install(
                helpers,
                groups,
            ).cookie_of(#[trigger] groups[g][i]) == table.issued + g + 1,
    decreases groups.len(),
{
    if groups.len() > 0 {
        let earlier = groups.drop_last();
        let their = helpers.drop_last();
        assert(apart(their, earlier)) by {
            assert forall|g: int, h: int, i: int, j: int|
                0 <= g < earlier.len() && 0 <= h < earlier.len() && g != h && 0 <= i
                    < earlier[g].len() && 0 <= j < earlier[h].len() implies #[trigger] earlier[g][i]
                != #[trigger] earlier[h][j] by {
                assert(groups[g][i] != groups[h][j]);
            }
            assert forall|g: int, h: int, j: int|
                0 <= g < their.len() && 0 <= h < earlier.len() && 0 <= j
                    < earlier[h].len() implies #[trigger] their[g] != #[trigger] earlier[h][j] by {
                assert(helpers[g] != groups[h][j]);
            }
        }
        lemma_install_marks_groups(table, their, earlier);
        let before = table.install(their, earlier);
        let helper = helpers.last();
        let members = groups.last();
        let last = groups.len() - 1;
        assert(!members.contains(helper)) by {
            if members.contains(helper) {
                let at = choose|at: int| 0 <= at < members.len() && members[at] == helper;
                assert(helpers[last] != groups[last][at]);
            }
        }
        lemma_group_shares_one_cookie(before, helper, members);
        let after = table.install(helpers, groups);
        assert forall|g: int, i: int| 0 <= g < groups.len() && 0 <= i < groups[g].len() implies
            after.cookie_of(#[trigger] groups[g][i]) == table.issued + g + 1 by {
            if g < last {
                let tid = groups[g][i];
                assert(earlier[g][i] == tid);
                assert(tid != helper) by {
                    assert(helpers[last] != groups[g][i]);
                }
                assert(!members.contains(tid)) by {
                    if members.contains(tid) {
                        let at = choose|at: int| 0 <= at < members.len() && members[at] == tid;
                        assert(groups[g][i] != groups[last][at]);
                    }
                }
                assert(after.cookie_of(tid) == before.cookie_of(tid));
            } else {
                assert(groups[g][i] == members[i]);
            }
        }
    }
}

/// The cookies match the groups. Let the threads of a workload be told
/// apart by their ids, and let each cookie group have a helper that is none
/// of them. Then, once the cookies of the partition are installed, every
/// thread has a cookie made for the purpose, and two threads have the same
/// cookie exactly when the dealing rule put them in the same group.
pub proof fn lemma_cookies_match_groups(
    table: CookieTable,
    helpers: Seq<i32>,
    tids: Seq<i32>,
    group_size: nat,
)
    requires
        group_size >= 1,
        helpers.len() == cookie_group_count(tids.len(), group_size),
        forall|i: int, j: int| 0 <= i < j < tids.len() ==> tids[i] != tids[j],
        forall|g: int, i: int|
            0 <= g < helpers.len() && 0 <= i < tids.len() ==> #[trigger] helpers[g]
                != #[trigger] tids[i],
    ensures
        ({
            let after = table.install(helpers, cookie_partition(tids, group_size));
            let worker_groups = worker_group_count(tids.len(), group_size);
            &&& forall|i: int|
                0 <= i < tids.len() ==> after.cookie_of(#[trigger] tids[i]) == table.issued
                    + group_of(i as nat, worker_groups) + 1
            &&& forall|i: int, j: int|
                0 <= i < tids.len() && 0 <= j < tids.len() ==> (after.cookie_of(#[trigger] tids[i])
                    == after.cookie_of(#[trigger] tids[j]) <==> group_of(i as nat, worker_groups)
                    == group_of(j as nat, worker_groups))
        }),
{
    let groups = cookie_partition(tids, group_size);
    let worker_groups = worker_group_count(tids.len(), group_size);
    assert(apart(helpers, groups)) by {
        assert forall|g: int, h: int, i: int, j: int|
            0 <= g < groups.len() && 0 <= h < groups.len() && g != h && 0 <= i < groups[g].len()
                && 0 <= j < groups[h].len() implies #[trigger] groups[g][i]
            != #[trigger] groups[h][j] by {
            lemma_members_belong(tids, worker_groups, g as nat, i);
            lemma_members_belong(tids, worker_groups, h as nat, j);
        }
        assert forall|g: int, h: int, j: int|
            0 <= g < helpers.len() && 0 <= h < groups.len() && 0 <= j
                < groups[h].len() implies #[trigger] helpers[g] != #[trigger] groups[h][j] by {
            lemma_members_belong(tids, worker_groups, h as nat, j);
        }
    }
    lemma_install_marks_groups(table, helpers, groups);
    let after = table.install(helpers, groups);
    assert forall|i: int| 0 <= i < tids.len() implies after.cookie_of(#[trigger] tids[i])
        == table.issued + group_of(i as nat, worker_groups) + 1 by {
        lemma_every_thread_placed(tids, group_size, i);
        let g = group_of(i as nat, worker_groups) as int;
        let at = choose|at: int| 0 <= at < groups[g].len() && groups[g][at] == tids[i];
        assert(after.cookie_of(groups[g][at]) == table.issued + g + 1);
    }
}

/// Whether installing the cookies of `groups` touches the task `tid`: it
/// does where the task is a helper or a member of a group.
pub open spec fn touched(helpers: Seq<i32>, groups: Seq<Seq<i32>>, tid: i32) -> bool {
    helpers.contains(tid) || exists|g: int| 0 <= g < groups.len() && (#[trigger] groups[g]).contains(
        tid,
    )
}

/// Installing cookies leaves every other task alone: a task that is neither
/// a helper nor a member of a group keeps the cookie it had. The driver is
/// such a task, since it hands the work to helpers.
pub proof fn lemma_install_spares_others(
    table: CookieTable,
    helpers: Seq<i32>,
    groups: Seq<Seq<i32>>,
    tid: i32,
)
    requires
        helpers.len() == groups.len(),
        !touched(helpers, groups, tid),
        forall|g: int| 0 <= g < groups.len() ==> !(#[trigger] groups[g]).contains(helpers[g]),
    ensures
        table.install(helpers, groups).cookie_of(tid) == table.cookie_of(tid),
    decreases groups.len(),
{
    if groups.len() > 0 {
        let earlier = groups.drop_last();
        let their = helpers.drop_last();
        let last = groups.len() - 1;
        assert(!touched(their, earlier, tid)) by {
            if their.contains(tid) {
                let at = choose|at: int| 0 <= at < their.len() && their[at] == tid;
                assert(helpers[at] == tid);
            }
            if exists|g: int| 0 <= g < earlier.len() && (#[trigger] earlier[g]).contains(tid) {
                let g = choose|g: int| 0 <= g < earlier.len() && (#[trigger] earlier[g]).contains(
                    tid,
                );
                assert(groups[g].contains(tid));
            }
        }
        assert forall|g: int| 0 <= g < earlier.len() implies !(#[trigger] earlier[g]).contains(
            their[g],
        ) by {
            assert(!groups[g].contains(helpers[g]));
        }
        lemma_install_spares_others(table, their, earlier, tid);
        assert(!groups[last].contains(helpers[last]));
        lemma_group_shares_one_cookie(table.install(their, earlier), helpers.last(), groups.last());
        assert(helpers[last] != tid);
        assert(!groups[last].contains(tid));
    }
}

/// Whether some thread of the first `thread_count` falls into `group`.
pub open spec fn inhabited(thread_count: nat, worker_groups: nat, group: int) -> bool {
    exists|i: int| 0 <= i < thread_count && #[trigger] group_of(i as nat, worker_groups) == group
}

/// What handing out the cookies achieves, seen from the thread that asks
/// for it.
///
/// The kernel tells the tasks that are alive apart by their ids. So let
/// `alive` hold the ids in use when the cookies are handed out: those of
/// the threads of the workload, which are told apart by them, and that of
/// the caller, which is no thread of the workload. The helpers are threads
/// made for the purpose, so the kernel gives each an id that is not in use.
/// Then, with every call carried out:
///
/// - every thread of the workload has a cookie, one that was made since;
/// - two threads have the same cookie exactly when the dealing rule put
///   them in the same group;
/// - every group has a thread, so that there are as many cookies among the
///   threads as there are groups;
/// - the caller has the cookie that it had.
pub proof fn lemma_cookies_handed_out(
    table: CookieTable,
    alive: Set<i32>,
    caller: i32,
    helpers: Seq<i32>,
    tids: Seq<i32>,
    group_size: nat,
)
    requires
        group_size >= 1,
        tids.len() >= 1,
        forall|i: int, j: int| 0 <= i < j < tids.len() ==> tids[i] != tids[j],
        forall|i: int| 0 <= i < tids.len() ==> alive.contains(#[trigger] tids[i]) && tids[i]
            != caller,
        alive.contains(caller),
        helpers.len() == cookie_group_count(tids.len(), group_size),
        forall|g: int| 0 <= g < helpers.len() ==> !alive.contains(#[trigger] helpers[g]),
    ensures
        ({
            let after = table.install(helpers, cookie_partition(tids, group_size));
            let worker_groups = worker_group_count(tids.len(), group_size);
            &&& forall|i: int|
                0 <= i < tids.len() ==> after.cookie_of(#[trigger] tids[i]) > table.issued
            &&& forall|i: int|
                0 <= i < tids.len() ==> after.cookie_of(#[trigger] tids[i]) == table.issued
                    + group_of(i as nat, worker_groups) + 1
            &&& forall|i: int, j: int|
                0 <= i < tids.len() && 0 <= j < tids.len() ==> (after.cookie_of(#[trigger] tids[i])
                    == after.cookie_of(#[trigger] tids[j]) <==> group_of(i as nat, worker_groups)
                    == group_of(j as nat, worker_groups))
            &&& forall|g: int|
                0 <= g < cookie_group_count(tids.len(), group_size) ==> #[trigger] inhabited(
                    tids.len(),
                    worker_groups,
                    g,
                )
            &&& after.cookie_of(caller) == table.cookie_of(caller)
        }),
{
    let groups = cookie_partition(tids, group_size);
    let worker_groups = worker_group_count(tids.len(), group_size);
    lemma_cookies_match_groups(table, helpers, tids, group_size);
    assert forall|g: int| 0 <= g < groups.len() implies #[trigger] inhabited(
        tids.len(),
        worker_groups,
        g,
    ) by {
        lemma_group_sizes(tids, group_size, g);
        lemma_members_belong(tids, worker_groups, g as nat, 0);
        let index = choose|index: int|
            0 <= index < tids.len() && group_of(index as nat, worker_groups) == g as nat
                && #[trigger] tids[index] == groups[g][0];
        assert(group_of(index as nat, worker_groups) == g);
    }
    assert(!touched(helpers, groups, caller)) by {
        if helpers.contains(caller) {
            let g = choose|g: int| 0 <= g < helpers.len() && helpers[g] == caller;
            assert(!alive.contains(helpers[g]));
        }
        if exists|g: int| 0 <= g < groups.len() && (#[trigger] groups[g]).contains(caller) {
            let g = choose|g: int| 0 <= g < groups.len() && (#[trigger] groups[g]).contains(
                caller,
            );
            let at = choose|at: int| 0 <= at < groups[g].len() && groups[g][at] == caller;
            lemma_members_belong(tids, worker_groups, g as nat, at);
        }
    }
    assert forall|g: int| 0 <= g < groups.len() implies !(#[trigger] groups[g]).contains(
        helpers[g],
    ) by {
        if groups[g].contains(helpers[g]) {
            let at = choose|at: int| 0 <= at < groups[g].len() && groups[g][at] == helpers[g];
            lemma_members_belong(tids, worker_groups, g as nat, at);
            assert(!alive.contains(helpers[g]));
        }
    }
    lemma_install_spares_others(table, helpers, groups, caller);
}

} // verus!
