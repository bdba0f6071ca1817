//! The cookie partition: which threads of a workload share a cookie.
//!
//! The leader, the first thread found, is alone in the first group. The
//! other threads, the workers, are dealt out in turn to as many groups as it
//! takes for none to hold more than the group size.

use vstd::prelude::*;

verus! {

/// How many groups the workers fall into: the number of workers divided by
/// the group size, rounded up. The leader, the first thread, is no worker.
/// Without threads or without a group size there are none.
pub open spec fn worker_group_count(thread_count: nat, group_size: nat) -> nat {
    if thread_count == 0 || group_size == 0 {
        0
    } else {
        ((thread_count - 1 + group_size - 1) / group_size as int) as nat
    }
}

/// How many groups there are in all: the leader's, then the workers'.
pub open spec fn cookie_group_count(thread_count: nat, group_size: nat) -> nat {
    if thread_count == 0 || group_size == 0 {
        0
    } else {
        worker_group_count(thread_count, group_size) + 1
    }
}

/// The group of the thread at `index`: the leader, at index zero, is alone
/// in group zero, and the workers take the groups from one on in turn.
pub open spec fn group_of(index: nat, worker_groups: nat) -> nat {
    if index == 0 {
        0
    } else {
        ((index - 1) % worker_groups as int + 1) as nat
    }
}

/// The threads of `tids` that fall into `group`, in the order in which they
/// were found.
pub open spec fn group_members(tids: Seq<i32>, worker_groups: nat, group: nat) -> Seq<i32>
    decreases tids.len(),
{
    if tids.len() == 0 {
        Seq::<i32>::empty()
    } else {
        let before = group_members(tids.drop_last(), worker_groups, group);
        if group_of((tids.len() - 1) as nat, worker_groups) == group {
            before.push(tids.last())
        } else {
            before
        }
    }
}

/// The cookie partition of `tids` for groups of `group_size` threads.
pub open spec fn cookie_partition(tids: Seq<i32>, group_size: nat) -> Seq<Seq<i32>> {
    Seq::new(
        cookie_group_count(tids.len(), group_size),
        |g: int| group_members(tids, worker_group_count(tids.len(), group_size), g as nat),
    )
}

/// Counts the cookie groups for `thread_count` threads.
pub fn count_cookie_groups(thread_count: usize, group_size: u64) -> (count: usize)
    ensures
        count == cookie_group_count(thread_count as nat, group_size as nat),
        count <= thread_count,
{
    if thread_count == 0 || group_size == 0 {
        return 0;
    }
    let workers: u64 = (thread_count - 1) as u64;
    let full: u64 = workers / group_size;
    let partial: u64 = if workers % group_size == 0 {
        0
    } else {
        1
    };
    proof {
        lemma_rounded_up(workers as int, group_size as int);
    }
    let worker_groups: u64 = full + partial;
    (worker_groups as usize) + 1
}

/// Rounding a quotient up: the workers, shared out in groups of `size`, fill
/// as many groups as the quotient says, and one more if some are left over.
/// That is at most one group per worker, and enough groups for all.
pub proof fn lemma_rounded_up(workers: int, size: int)
    requires
        0 <= workers,
        0 < size,
    ensures
        (workers + size - 1) / size == workers / size + if workers % size == 0 {
            0int
        } else {
            1int
        },
        (workers + size - 1) / size <= workers,
        workers > 0 ==> (workers + size - 1) / size >= 1,
        workers <= size * ((workers + size - 1) / size),
{
    let q = workers / size;
    let r = workers % size;
    assert(workers == size * q + r && 0 <= r < size) by {
        vstd::arithmetic::div_mod::lemma_fundamental_div_mod(workers, size);
    }
    assert(q >= 0) by (nonlinear_arith)
        requires
            workers == size * q + r,
            0 <= r < size,
            0 <= workers,
            0 < size,
    ;
    if r == 0 {
        assert(workers + size - 1 == q * size + (size - 1)) by (nonlinear_arith)
            requires
                workers == size * q + r,
                r == 0,
        ;
        vstd::arithmetic::div_mod::lemma_fundamental_div_mod_converse(
            workers + size - 1,
            size,
            q,
            size - 1,
        );
    } else {
        assert(workers + size - 1 == (q + 1) * size + (r - 1)) by (nonlinear_arith)
            requires
                workers == size * q + r,
        ;
        vstd::arithmetic::div_mod::lemma_fundamental_div_mod_converse(
            workers + size - 1,
            size,
            q + 1,
            r - 1,
        );
    }
    let g = (workers + size - 1) / size;
    assert(g <= workers && workers <= size * g && (workers > 0 ==> g >= 1)) by (nonlinear_arith)
        requires
            workers == size * q + r,
            0 <= r < size,
            0 <= q,
            0 < size,
            g == q + if r == 0 {
                0int
            } else {
                1int
            },
    ;
}

/// Finds the group of the thread at `index`. A worker needs a worker group
/// to go to: past index zero, `worker_groups` must not be zero.
pub fn group_index(index: usize, worker_groups: usize) -> (group: usize)
    requires
        index > 0 ==> worker_groups > 0,
    ensures
        group == group_of(index as nat, worker_groups as nat),
        group <= worker_groups,
{
    if index == 0 {
        0
    } else {
        (index - 1) % worker_groups + 1
    }
}

/// Sorts the threads into cookie groups: the leader alone in the first
/// group, the workers dealt out to the others in turn. Without threads, or
/// with a group size of zero, there are no groups.
pub fn partition_threads(thread_ids: &Vec<i32>, group_size: u64) -> (groups: Vec<Vec<i32>>)
    ensures
        groups.deep_view() == cookie_partition(thread_ids@, group_size as nat),
{
    let n: usize = thread_ids.len();
    let count: usize = count_cookie_groups(n, group_size);
    let mut groups: Vec<Vec<i32>> = Vec::new();
    if count == 0 {
        assert(groups.deep_view() =~= cookie_partition(thread_ids@, group_size as nat));
        return groups;
    }
    let worker_groups: usize = count - 1;
    let mut g: usize = 0;
    while g < count
        invariant
            g <= count,
            groups@.len() == g,
            forall|k: int| 0 <= k < g ==> (#[trigger] groups@[k])@ == Seq::<i32>::empty(),
        decreases count - g,
    {
        groups.push(Vec::new());
        g = g + 1;
    }
    let mut i: usize = 0;
    assert(thread_ids@.take(0) == Seq::<i32>::empty());
    while i < n
        invariant
            i <= n,
            n == thread_ids@.len(),
            n >= 1,
            group_size >= 1,
            count == worker_groups + 1,
            worker_groups == worker_group_count(n as nat, group_size as nat),
            groups@.len() == count,
            forall|k: int|
                0 <= k < count ==> (#[trigger] groups@[k])@ == group_members(
                    thread_ids@.take(i as int),
                    worker_groups as nat,
                    k as nat,
                ),
        decreases n - i,
    {
        proof {
            if i > 0 {
                lemma_rounded_up(n - 1, group_size as int);
            }
        }
        let target: usize = group_index(i, worker_groups);
        let tid: i32 = thread_ids[i];
        let ghost seen = thread_ids@.take(i as int);
        let ghost next = thread_ids@.take(i as int + 1);
        assert(next.drop_last() == seen);
        assert(next.last() == tid);
        groups[target].push(tid);
        assert(forall|k: int|
            0 <= k < count ==> (#[trigger] groups@[k])@ == group_members(
                next,
                worker_groups as nat,
                k as nat,
            ));
        i = i + 1;
    }
    assert(thread_ids@.take(n as int) == thread_ids@);
    assert(groups.deep_view() =~~= cookie_partition(thread_ids@, group_size as nat));
    groups
}

/// A thread is among the members of the group that the dealing rule names
/// for its index.
proof fn lemma_members_grow(tids: Seq<i32>, worker_groups: nat, group: nat, index: int)
    requires
        0 <= index < tids.len(),
        group_of(index as nat, worker_groups) == group,
    ensures
        group_members(tids, worker_groups, group).contains(tids[index]),
    decreases tids.len(),
{
    let before = group_members(tids.drop_last(), worker_groups, group);
    if index == tids.len() - 1 {
        assert(before.push(tids.last()).last() == tids[index]);
    } else {
        lemma_members_grow(tids.drop_last(), worker_groups, group, index);
        let at = choose|at: int| 0 <= at < before.len() && before[at] == tids.drop_last()[index];
        assert(group_members(tids, worker_groups, group)[at] == tids[index]);
    }
}

/// Only the first thread falls into group zero.
proof fn lemma_leader_group(tids: Seq<i32>, worker_groups: nat)
    requires
        tids.len() >= 1,
        tids.len() >= 2 ==> worker_groups >= 1,
    ensures
        group_members(tids, worker_groups, 0) == seq![tids[0]],
    decreases tids.len(),
{
    if tids.len() == 1 {
        assert(tids.drop_last().len() == 0);
        assert(group_members(tids.drop_last(), worker_groups, 0) == Seq::<i32>::empty());
        assert(group_members(tids, worker_groups, 0) =~= seq![tids[0]]);
    } else {
        lemma_leader_group(tids.drop_last(), worker_groups);
        assert(group_of((tids.len() - 1) as nat, worker_groups) >= 1);
    }
}

/// The leader is alone: the first group of a partition holds the first
/// thread and no other.
pub proof fn lemma_leader_alone(tids: Seq<i32>, group_size: nat)
    requires
        tids.len() >= 1,
        group_size >= 1,
    ensures
        cookie_partition(tids, group_size).len() >= 1,
        cookie_partition(tids, group_size)[0] == seq![tids[0]],
{
    lemma_rounded_up(tids.len() - 1, group_size as int);
    lemma_leader_group(tids, worker_group_count(tids.len(), group_size));
}

/// Every thread is placed: the thread at `index` is a member of the group
/// that the dealing rule names for it, and that group is one of the
/// partition's.
pub proof fn lemma_every_thread_placed(tids: Seq<i32>, group_size: nat, index: int)
    requires
        group_size >= 1,
        0 <= index < tids.len(),
    ensures
        group_of(index as nat, worker_group_count(tids.len(), group_size)) < cookie_partition(
            tids,
            group_size,
        ).len(),
        cookie_partition(tids, group_size)[group_of(
            index as nat,
            worker_group_count(tids.len(), group_size),
        ) as int].contains(tids[index]),
{
    let worker_groups = worker_group_count(tids.len(), group_size);
    lemma_rounded_up(tids.len() - 1, group_size as int);
    let group = group_of(index as nat, worker_groups);
    if index > 0 {
        assert(worker_groups >= 1);
        assert(0 <= (index - 1) % (worker_groups as int) < worker_groups);
    }
    lemma_members_grow(tids, worker_groups, group, index);
}

/// A thread is in no group but its own: whatever a group holds stands in
/// the list at an index that the dealing rule sends to that group.
pub proof fn lemma_members_belong(tids: Seq<i32>, worker_groups: nat, group: nat, at: int)
    requires
        0 <= at < group_members(tids, worker_groups, group).len(),
    ensures
        exists|index: int|
            0 <= index < tids.len() && group_of(index as nat, worker_groups) == group
                && #[trigger] tids[index] == group_members(tids, worker_groups, group)[at],
    decreases tids.len(),
{
    let before = group_members(tids.drop_last(), worker_groups, group);
    if tids.len() > 0 {
        if at < before.len() {
            lemma_members_belong(tids.drop_last(), worker_groups, group, at);
            let index = choose|index: int|
                0 <= index < tids.drop_last().len() && group_of(index as nat, worker_groups)
                    == group && #[trigger] tids.drop_last()[index] == before[at];
            assert(tids[index] == group_members(tids, worker_groups, group)[at]);
        } else {
            assert(tids[tids.len() - 1] == group_members(tids, worker_groups, group)[at]);
        }
    }
}

/// With groups of one thread every thread has a group of its own: there are as
/// many groups as threads.
pub proof fn lemma_groups_of_one(thread_count: nat)
    ensures
        cookie_group_count(thread_count, 1) == thread_count,
{
}

/// How many of the first `thread_count` threads the dealing rule sends to
/// `group`.
pub open spec fn dealt(thread_count: nat, worker_groups: nat, group: nat) -> nat
    decreases thread_count,
{
    if thread_count == 0 {
        0
    } else {
        let before = dealt((thread_count - 1) as nat, worker_groups, group);
        if group_of((thread_count - 1) as nat, worker_groups) == group {
            before + 1
        } else {
            before
        }
    }
}

/// A group has as many members as threads were dealt to it.
pub proof fn lemma_members_count(tids: Seq<i32>, worker_groups: nat, group: nat)
    ensures
        group_members(tids, worker_groups, group).len() == dealt(tids.len(), worker_groups, group),
    decreases tids.len(),
{
    if tids.len() > 0 {
        lemma_members_count(tids.drop_last(), worker_groups, group);
    }
}

/// How a quotient moves when the dividend grows by one.
proof fn lemma_next_quotient(a: int, d: int)
    requires
        0 <= a,
        0 < d,
    ensures
        (a + 1) % d == 0 ==> (a + 1) / d == a / d + 1,
        (a + 1) % d != 0 ==> (a + 1) / d == a / d,
        (a + 1) % d == 0 <==> a % d == d - 1,
{
    let q = a / d;
    let r = a % d;
    vstd::arithmetic::div_mod::lemma_fundamental_div_mod(a, d);
    assert(a == q * d + r) by (nonlinear_arith)
        requires
            a == d * q + r,
    ;
    if r + 1 < d {
        vstd::arithmetic::div_mod::lemma_fundamental_div_mod_converse(a + 1, d, q, r + 1);
    } else {
        assert(a + 1 == (q + 1) * d + 0) by (nonlinear_arith)
            requires
                a == q * d + r,
                r + 1 == d,
        ;
        vstd::arithmetic::div_mod::lemma_fundamental_div_mod_converse(a + 1, d, q + 1, 0);
    }
}

/// When a worker's turn falls on the group in `slot`.
proof fn lemma_turn_comes(worker: int, slot: int, groups: int)
    requires
        0 <= worker,
        0 <= slot < groups,
    ensures
        worker % groups == slot <==> (worker + groups - 1 - slot) % groups == groups - 1,
{
    let q = worker / groups;
    let r = worker % groups;
    vstd::arithmetic::div_mod::lemma_fundamental_div_mod(worker, groups);
    let shifted = worker + groups - 1 - slot;
    if r >= slot + 1 {
        assert(shifted == (q + 1) * groups + (r - slot - 1)) by (nonlinear_arith)
            requires
                worker == groups * q + r,
                shifted == worker + groups - 1 - slot,
        ;
        vstd::arithmetic::div_mod::lemma_fundamental_div_mod_converse(
            shifted,
            groups,
            q + 1,
            r - slot - 1,
        );
    } else {
        assert(shifted == q * groups + (r + groups - 1 - slot)) by (nonlinear_arith)
            requires
                worker == groups * q + r,
                shifted == worker + groups - 1 - slot,
        ;
        vstd::arithmetic::div_mod::lemma_fundamental_div_mod_converse(
            shifted,
            groups,
            q,
            r + groups - 1 - slot,
        );
    }
}

/// Dealing in turn shares the workers out evenly: of `thread_count` threads,
/// the worker group `group` gets the workers divided by the number of
/// worker groups, rounded up for the groups that come early in the turn.
pub proof fn lemma_dealt_in_turn(thread_count: nat, worker_groups: nat, group: nat)
    requires
        thread_count >= 1,
        1 <= group <= worker_groups,
    ensures
        dealt(thread_count, worker_groups, group) == (thread_count - 1 + worker_groups - group)
            / worker_groups as int,
    decreases thread_count,
{
    let groups = worker_groups as int;
    if thread_count == 1 {
        assert(dealt(0, worker_groups, group) == 0);
        assert(dealt(1, worker_groups, group) == 0);
        vstd::arithmetic::div_mod::lemma_fundamental_div_mod_converse(
            groups - group,
            groups,
            0,
            groups - group,
        );
    } else {
        let before = (thread_count - 1) as nat;
        lemma_dealt_in_turn(before, worker_groups, group);
        let worker = before - 1;
        let a = worker + groups - group;
        lemma_next_quotient(a, groups);
        lemma_turn_comes(worker, group - 1, groups);
        assert(group_of(before, worker_groups) == group <==> worker % groups == group - 1);
        assert(a == worker + groups - 1 - (group - 1));
        assert(thread_count - 1 + worker_groups - group == a + 1);
    }
}

/// No cookie group is larger than asked for, and none is empty: in the
/// partition of at least one thread into groups of `group_size`, the
/// leader's group has one member and every worker group has at least one
/// and at most `group_size`.
pub proof fn lemma_group_sizes(tids: Seq<i32>, group_size: nat, group: int)
    requires
        group_size >= 1,
        0 <= group < cookie_partition(tids, group_size).len(),
    ensures
        1 <= cookie_partition(tids, group_size)[group].len() <= group_size,
        group == 0 ==> cookie_partition(tids, group_size)[group].len() == 1,
{
    let worker_groups = worker_group_count(tids.len(), group_size);
    let workers = tids.len() - 1;
    lemma_rounded_up(workers, group_size as int);
    if group == 0 {
        lemma_leader_alone(tids, group_size);
    } else {
        lemma_members_count(tids, worker_groups, group as nat);
        lemma_dealt_in_turn(tids.len(), worker_groups, group as nat);
        let groups = worker_groups as int;
        let size = group_size as int;
        let a = workers + groups - group;
        assert(1 <= a / groups <= size) by (nonlinear_arith)
            requires
                groups <= workers,
                workers <= size * groups,
                1 <= group <= groups,
                a == workers + groups - group,
                1 <= size,
        ;
    }
}

/// The sizes of the first `count` groups, added up.
pub open spec fn dealt_in_all(thread_count: nat, worker_groups: nat, count: nat) -> nat
    decreases count,
{
    if count == 0 {
        0
    } else {
        dealt_in_all(thread_count, worker_groups, (count - 1) as nat) + dealt(
            thread_count,
            worker_groups,
            (count - 1) as nat,
        )
    }
}

/// One more thread adds one to the sum, if its group is among those summed.
proof fn lemma_one_more_dealt(thread_count: nat, worker_groups: nat, count: nat)
    requires
        thread_count >= 1,
    ensures
        dealt_in_all(thread_count, worker_groups, count) == dealt_in_all(
            (thread_count - 1) as nat,
            worker_groups,
            count,
        ) + if group_of((thread_count - 1) as nat, worker_groups) < count {
            1nat
        } else {
            0nat
        },
    decreases count,
{
    if count > 0 {
        lemma_one_more_dealt(thread_count, worker_groups, (count - 1) as nat);
    }
}

/// Every thread is in exactly one group: the threads dealt to groups that
/// all the threads' turns reach add up to the number of threads.
pub proof fn lemma_dealt_once(thread_count: nat, worker_groups: nat, count: nat)
    requires
        forall|index: nat| index < thread_count ==> #[trigger] group_of(index, worker_groups) < count,
    ensures
        dealt_in_all(thread_count, worker_groups, count) == thread_count,
    decreases thread_count,
{
    if thread_count == 0 {
        lemma_none_dealt(worker_groups, count);
    } else {
        lemma_one_more_dealt(thread_count, worker_groups, count);
        assert(group_of((thread_count - 1) as nat, worker_groups) < count);
        lemma_dealt_once((thread_count - 1) as nat, worker_groups, count);
    }
}

/// Without threads every group is empty.
proof fn lemma_none_dealt(worker_groups: nat, count: nat)
    ensures
        dealt_in_all(0, worker_groups, count) == 0,
    decreases count,
{
    if count > 0 {
        lemma_none_dealt(worker_groups, (count - 1) as nat);
    }
}

/// The sizes of the groups of a partition add up to the number of threads:
/// with `lemma_every_thread_placed`, every thread is in one group and in
/// no other.
pub proof fn lemma_partition_sizes_add_up(tids: Seq<i32>, group_size: nat)
    requires
        group_size >= 1,
    ensures
        dealt_in_all(
            tids.len(),
            worker_group_count(tids.len(), group_size),
            cookie_group_count(tids.len(), group_size),
        ) == tids.len(),
        forall|group: int|
            0 <= group < cookie_partition(tids, group_size).len() ==> (#[trigger] cookie_partition(
                tids,
                group_size,
            )[group]).len() == dealt(
                tids.len(),
                worker_group_count(tids.len(), group_size),
                group as nat,
            ),
{
    let worker_groups = worker_group_count(tids.len(), group_size);
    let count = cookie_group_count(tids.len(), group_size);
    if tids.len() > 0 {
        lemma_rounded_up(tids.len() - 1, group_size as int);
    }
    assert forall|index: nat| index < tids.len() implies #[trigger] group_of(index, worker_groups)
        < count by {
        if index > 0 {
            assert(0 <= (index - 1) % (worker_groups as int) < worker_groups);
        }
    }
    lemma_dealt_once(tids.len(), worker_groups, count);
    assert forall|group: int| 0 <= group < cookie_partition(tids, group_size).len() implies (
    #[trigger] cookie_partition(tids, group_size)[group]).len() == dealt(
        tids.len(),
        worker_groups,
        group as nat,
    ) by {
        lemma_members_count(tids, worker_groups, group as nat);
    }
}

} // verus!
