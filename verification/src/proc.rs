//! The proc inspector: reading child lists, walking a process tree and
//! waiting for the threads of a workload.

use crate::text::{push_decimal, split, split_text, decimal, Delimiter};
use vstd::prelude::*;
use vstd::string::*;

verus! {

/// Whether `c` is one of the ten ASCII digits.
pub open spec fn is_digit(c: char) -> bool {
    0x30 <= c as u32 <= 0x39
}

/// The number that a run of digits writes in base ten.
pub open spec fn digits_value(digits: Seq<char>) -> nat
    decreases digits.len(),
{
    if digits.len() == 0 {
        0
    } else {
        (digits_value(digits.drop_last()) * 10 + (digits.last() as u32 - 0x30)) as nat
    }
}

/// Whether `digits` holds digits only.
pub open spec fn all_digits(digits: Seq<char>) -> bool {
    forall|i: int| 0 <= i < digits.len() ==> is_digit(#[trigger] digits[i])
}

/// The process id that a word stands for: an optional sign, then at least
/// one digit and nothing else, naming a number that a 32-bit signed integer
/// can hold. Any other word stands for none.
pub open spec fn pid_of(word: Seq<char>) -> Option<i32> {
    let signed = word.len() > 0 && (word[0] == '-' || word[0] == '+');
    let negative = word.len() > 0 && word[0] == '-';
    let digits = if signed {
        word.skip(1)
    } else {
        word
    };
    let value = if negative {
        -(digits_value(digits) as int)
    } else {
        digits_value(digits) as int
    };
    if digits.len() > 0 && all_digits(digits) && i32::MIN <= value <= i32::MAX {
        Some(value as i32)
    } else {
        None
    }
}

/// The ids among `words`, in order; words that stand for none are passed
/// over.
pub open spec fn pids_of(words: Seq<Seq<char>>) -> Seq<i32>
    decreases words.len(),
{
    if words.len() == 0 {
        Seq::<i32>::empty()
    } else {
        let before = pids_of(words.drop_last());
        match pid_of(words.last()) {
            Some(pid) => before.push(pid),
            None => before,
        }
    }
}

/// The children that the text of a child list names: its words between
/// white space, each read as a process id.
pub open spec fn child_ids(content: Seq<char>) -> Seq<i32> {
    pids_of(split(content, Delimiter::Whitespace))
}

/// More digits do not write a smaller number: the value of a run of
/// digits is at least that of any of its beginnings.
proof fn lemma_digits_grow(digits: Seq<char>, upto: int)
    requires
        all_digits(digits),
        0 <= upto <= digits.len(),
    ensures
        digits_value(digits.take(upto)) <= digits_value(digits),
    decreases digits.len() - upto,
{
    if upto < digits.len() {
        assert(digits.take(upto + 1).drop_last() == digits.take(upto));
        assert(is_digit(digits[upto]));
        assert(digits.take(upto + 1).last() == digits[upto]);
        lemma_digits_grow(digits, upto + 1);
    } else {
        assert(digits.take(upto) == digits);
    }
}

/// Reads a word as a process id.
pub fn parse_pid(word: &str) -> (pid: Option<i32>)
    ensures
        pid == pid_of(word@),
{
    let n: usize = word.unicode_len();
    if n == 0 {
        return None;
    }
    let first: char = word.get_char(0);
    let negative: bool = first == '-';
    let start: usize = if first == '-' || first == '+' {
        1
    } else {
        0
    };
    let ghost digits = word@.skip(start as int);
    assert(word@.skip(0) == word@);
    if start == n {
        return None;
    }
    let limit: u64 = 0x8000_0000;
    let mut magnitude: u64 = 0;
    let mut i: usize = start;
    assert(digits.take(0) == Seq::<char>::empty());
    while i < n
        invariant
            start <= i <= n,
            start < n,
            0 < n == word@.len(),
            negative == (word@[0] == '-'),
            start == if word@[0] == '-' || word@[0] == '+' {
                1usize
            } else {
                0usize
            },
            digits == word@.skip(start as int),
            word@.skip(0) == word@,
            limit == 0x8000_0000,
            magnitude <= limit,
            magnitude == digits_value(digits.take(i - start)),
            forall|k: int| 0 <= k < i - start ==> is_digit(#[trigger] digits[k]),
        decreases n - i,
    {
        let c: char = word.get_char(i);
        let code: u32 = c as u32;
        assert(digits[i - start] == c);
        if code < 0x30 || code > 0x39 {
            assert(!is_digit(digits[i - start]));
            return None;
        }
        assert(digits.take(i - start + 1).drop_last() == digits.take(i - start));
        assert(digits.take(i - start + 1).last() == c);
        magnitude = magnitude * 10 + (code - 0x30) as u64;
        if magnitude > limit {
            proof {
                if all_digits(digits) {
                    lemma_digits_grow(digits, i - start + 1);
                }
            }
            return None;
        }
        i = i + 1;
    }
    assert(digits.take(n - start) == digits);
    if negative {
        Some((0 - magnitude as i64) as i32)
    } else if magnitude < limit {
        Some(magnitude as i32)
    } else {
        None
    }
}

/// Reads the text of a child list: the ids of the children in the order in
/// which the kernel lists them.
pub fn get_child_processes_ids(content: &str) -> (children: Vec<i32>)
    ensures
        children@ == child_ids(content@),
{
    let words: Vec<String> = split_text(content, Delimiter::Whitespace);
    let mut children: Vec<i32> = Vec::new();
    let mut i: usize = 0;
    assert(words.deep_view().take(0) == Seq::<Seq<char>>::empty());
    while i < words.len()
        invariant
            i <= words.len(),
            children@ == pids_of(words.deep_view().take(i as int)),
        decreases words.len() - i,
    {
        assert(words.deep_view().take(i as int + 1).drop_last() == words.deep_view().take(
            i as int,
        ));
        assert(words.deep_view().take(i as int + 1).last() == words@[i as int]@);
        match parse_pid(words[i].as_str()) {
            Some(pid) => {
                children.push(pid);
            },
            None => {},
        }
        i = i + 1;
    }
    assert(words.deep_view().take(words.len() as int) == words.deep_view());
    children
}

/// The children of `pid` in a table of child lists; a process without an
/// entry has none.
pub open spec fn children_in(table: Map<i32, Seq<i32>>, pid: i32) -> Seq<i32> {
    if table.contains_key(pid) {
        table[pid]
    } else {
        Seq::<i32>::empty()
    }
}

/// One step of the walk: the process at `expanded` is the next to be asked
/// for its children, which go to the end of the list. Once every process of
/// the list was asked, nothing changes any more.
pub open spec fn walk_step(found: Seq<i32>, expanded: nat, children: Seq<i32>) -> (Seq<i32>, nat) {
    if expanded < found.len() {
        (found + children, expanded + 1)
    } else {
        (found, expanded)
    }
}

/// The processes found after `steps` steps of a breadth-first walk from
/// `pid`: the root, then the children of each process in the order in which
/// the processes themselves were found.
pub open spec fn walk_after(table: Map<i32, Seq<i32>>, pid: i32, steps: nat) -> Seq<i32>
    decreases steps,
{
    if steps == 0 {
        seq![pid]
    } else {
        let found = walk_after(table, pid, (steps - 1) as nat);
        if steps - 1 < found.len() {
            found + children_in(table, found[steps - 1])
        } else {
            found
        }
    }
}

/// Whether `list` is the finished walk from `pid`: what the walk has found
/// after as many steps as the list is long, so that every process of the
/// list was asked and none is left.
pub open spec fn is_descendant_list(table: Map<i32, Seq<i32>>, pid: i32, list: Seq<i32>) -> bool {
    list == walk_after(table, pid, list.len())
}

/// A walk never forgets: what was found after `steps` steps still stands, in
/// place, after any later step, and the root stands first.
pub proof fn lemma_walk_grows(table: Map<i32, Seq<i32>>, pid: i32, steps: nat, later: nat)
    requires
        steps <= later,
    ensures
        walk_after(table, pid, steps).len() >= 1,
        walk_after(table, pid, steps)[0] == pid,
        walk_after(table, pid, steps).len() <= walk_after(table, pid, later).len(),
        walk_after(table, pid, later).take(walk_after(table, pid, steps).len() as int)
            == walk_after(table, pid, steps),
    decreases later,
{
    if later == 0 {
        assert(walk_after(table, pid, 0).take(1) == walk_after(table, pid, 0));
    } else if steps == later {
        lemma_walk_grows(table, pid, 0, (later - 1) as nat);
        let all = walk_after(table, pid, steps);
        assert(all.take(all.len() as int) == all);
    } else {
        lemma_walk_grows(table, pid, steps, (later - 1) as nat);
        let early = walk_after(table, pid, steps);
        let before = walk_after(table, pid, (later - 1) as nat);
        let after = walk_after(table, pid, later);
        assert(after.take(early.len() as int) =~= before.take(early.len() as int));
    }
}

/// A walk that has asked every process it found has come to rest: later
/// steps find nothing new.
pub proof fn lemma_walk_rests(table: Map<i32, Seq<i32>>, pid: i32, steps: nat, later: nat)
    requires
        steps <= later,
        walk_after(table, pid, steps).len() <= steps,
    ensures
        walk_after(table, pid, later) == walk_after(table, pid, steps),
    decreases later,
{
    if later > steps {
        lemma_walk_rests(table, pid, steps, (later - 1) as nat);
    }
}

/// There is one finished walk at most: two lists that both are the
/// descendants of `pid` in `table` are the same list.
pub proof fn lemma_descendant_list_unique(
    table: Map<i32, Seq<i32>>,
    pid: i32,
    first: Seq<i32>,
    second: Seq<i32>,
)
    requires
        is_descendant_list(table, pid, first),
        is_descendant_list(table, pid, second),
    ensures
        first == second,
{
    if first.len() <= second.len() {
        lemma_walk_rests(table, pid, first.len(), second.len());
    } else {
        lemma_walk_rests(table, pid, second.len(), first.len());
    }
}

/// The root comes first in the list of its descendants.
pub proof fn lemma_root_first(table: Map<i32, Seq<i32>>, pid: i32, list: Seq<i32>)
    requires
        is_descendant_list(table, pid, list),
    ensures
        list.len() >= 1,
        list[0] == pid,
{
    lemma_walk_grows(table, pid, list.len(), list.len());
}

/// A finished walk was at work until its end: before as many steps as the
/// list is long, there was always a process left to ask, and it is the one
/// that stands in the list at the number of the step.
pub proof fn lemma_walk_asks_in_order(
    table: Map<i32, Seq<i32>>,
    pid: i32,
    list: Seq<i32>,
    step: nat,
)
    requires
        is_descendant_list(table, pid, list),
        step < list.len(),
    ensures
        step < walk_after(table, pid, step).len() <= list.len(),
        walk_after(table, pid, step)[step as int] == list[step as int],
        walk_after(table, pid, step + 1) == walk_after(table, pid, step) + children_in(
            table,
            list[step as int],
        ),
{
    if walk_after(table, pid, step).len() <= step {
        lemma_walk_rests(table, pid, step, list.len());
    }
    lemma_walk_grows(table, pid, step, list.len());
    let early = walk_after(table, pid, step);
    assert(list.take(early.len() as int)[step as int] == list[step as int]);
}

/// The list is closed: the children of every listed process are listed
/// too, behind their parent.
pub proof fn lemma_children_listed(
    table: Map<i32, Seq<i32>>,
    pid: i32,
    list: Seq<i32>,
    parent: int,
    child: int,
)
    requires
        is_descendant_list(table, pid, list),
        0 <= parent < list.len(),
        0 <= child < children_in(table, list[parent]).len(),
    ensures
        exists|at: int|
            parent < at < list.len() && #[trigger] list[at] == children_in(
                table,
                list[parent],
            )[child],
{
    lemma_walk_asks_in_order(table, pid, list, parent as nat);
    lemma_walk_grows(table, pid, (parent + 1) as nat, list.len());
    let early = walk_after(table, pid, parent as nat);
    let grown = walk_after(table, pid, (parent + 1) as nat);
    let at = early.len() + child;
    assert(grown[at] == children_in(table, list[parent])[child]);
    assert(list.take(grown.len() as int)[at] == list[at]);
}

/// Nothing is listed without cause: every listed process but the root is a
/// child of a process that stands before it in the list.
pub proof fn lemma_listed_has_parent(
    table: Map<i32, Seq<i32>>,
    pid: i32,
    list: Seq<i32>,
    at: int,
)
    requires
        is_descendant_list(table, pid, list),
        1 <= at < list.len(),
    ensures
        exists|parent: int|
            0 <= parent < at && children_in(table, #[trigger] list[parent]).contains(list[at]),
{
    lemma_found_by_parent(table, pid, list, list.len(), at);
}

/// Whatever the walk has found after `steps` steps, beyond the root, is a
/// child of a process that stands before it.
proof fn lemma_found_by_parent(
    table: Map<i32, Seq<i32>>,
    pid: i32,
    list: Seq<i32>,
    steps: nat,
    at: int,
)
    requires
        is_descendant_list(table, pid, list),
        steps <= list.len(),
        1 <= at < walk_after(table, pid, steps).len(),
    ensures
        exists|parent: int|
            0 <= parent < at && children_in(table, #[trigger] list[parent]).contains(list[at]),
    decreases steps,
{
    if steps > 0 {
        let before = (steps - 1) as nat;
        let early = walk_after(table, pid, before);
        lemma_walk_grows(table, pid, steps, list.len());
        if at < early.len() {
            lemma_found_by_parent(table, pid, list, before, at);
        } else {
            lemma_walk_asks_in_order(table, pid, list, before);
            let grown = walk_after(table, pid, steps);
            let children = children_in(table, list[before as int]);
            assert(grown[at] == children[at - early.len()]);
            assert(list.take(grown.len() as int)[at] == list[at]);
            assert(children.contains(list[at]));
            assert(before < at);
        }
    }
}

/// The child lists of a snapshot of the process table.
pub struct ProcessTable {
    entries: Vec<(i32, Vec<i32>)>,
}

/// The table that a list of entries stands for: a later entry for a process
/// replaces an earlier one.
pub open spec fn table_of(entries: Seq<(i32, Vec<i32>)>) -> Map<i32, Seq<i32>>
    decreases entries.len(),
{
    if entries.len() == 0 {
        Map::<i32, Seq<i32>>::empty()
    } else {
        table_of(entries.drop_last()).insert(entries.last().0, entries.last().1@)
    }
}

impl View for ProcessTable {
    type V = Map<i32, Seq<i32>>;

    closed spec fn view(&self) -> Map<i32, Seq<i32>> {
        table_of(self.entries@)
    }
}

impl ProcessTable {
    /// A table without entries.
    pub fn new() -> (table: ProcessTable)
        ensures
            table@ == Map::<i32, Seq<i32>>::empty(),
    {
        ProcessTable { entries: Vec::new() }
    }

    /// Records the child list of `pid`, in place of any it had.
    pub fn insert(&mut self, pid: i32, children: Vec<i32>)
        ensures
            final(self)@ == old(self)@.insert(pid, children@),
    {
        let ghost before = self.entries@;
        self.entries.push((pid, children));
        assert(self.entries@.drop_last() == before);
    }

    /// Looks the child list of `pid` up.
    pub fn children(&self, pid: i32) -> (list: Option<&Vec<i32>>)
        ensures
            match list {
                Some(children) => self@.contains_key(pid) && children@ == self@[pid],
                None => !self@.contains_key(pid),
            },
    {
        let mut list: Option<&Vec<i32>> = None;
        let mut i: usize = 0;
        assert(self.entries@.take(0) == Seq::<(i32, Vec<i32>)>::empty());
        while i < self.entries.len()
            invariant
                i <= self.entries.len(),
                match list {
                    Some(children) => table_of(self.entries@.take(i as int)).contains_key(pid)
                        && children@ == table_of(self.entries@.take(i as int))[pid],
                    None => !table_of(self.entries@.take(i as int)).contains_key(pid),
                },
            decreases self.entries.len() - i,
        {
            assert(self.entries@.take(i as int + 1).drop_last() == self.entries@.take(i as int));
            assert(self.entries@.take(i as int + 1).last() == self.entries@[i as int]);
            if self.entries[i].0 == pid {
                list = Some(&self.entries[i].1);
            }
            i = i + 1;
        }
        assert(self.entries@.take(self.entries.len() as int) == self.entries@);
        list
    }
}

/// A breadth-first walk over a process tree that is read one child list at
/// a time: the walk names the process to read next, and its caller reads.
pub struct DescendantWalk {
    pids: Vec<i32>,
    cursor: usize,
}

impl DescendantWalk {
    /// No more processes were asked than were found.
    #[verifier::type_invariant]
    spec fn within(&self) -> bool {
        self.cursor <= self.pids@.len()
    }

    /// The processes found so far, the root first.
    pub closed spec fn found(&self) -> Seq<i32> {
        self.pids@
    }

    /// How many of them were asked for their children.
    pub closed spec fn expanded(&self) -> nat {
        self.cursor as nat
    }

    /// Starts a walk at `pid`.
    pub fn new(pid: i32) -> (walk: DescendantWalk)
        ensures
            walk.found() == seq![pid],
            walk.expanded() == 0,
    {
        let mut pids: Vec<i32> = Vec::new();
        pids.push(pid);
        assert(pids@ =~= seq![pid]);
        DescendantWalk { pids, cursor: 0 }
    }

    /// The process whose children are to be read next; `None` once every
    /// process that was found has been asked.
    pub fn pending(&self) -> (next: Option<i32>)
        ensures
            self.expanded() <= self.found().len(),
            self.expanded() < self.found().len() ==> next == Some(
                self.found()[self.expanded() as int],
            ),
            self.expanded() == self.found().len() ==> next is None,
    {
        proof {
            use_type_invariant(self);
        }
        if self.cursor < self.pids.len() {
            Some(self.pids[self.cursor])
        } else {
            None
        }
    }

    /// Takes the children of the pending process and moves on. Where none is
    /// pending the walk stays as it is.
    pub fn record(self, children: &Vec<i32>) -> (walk: DescendantWalk)
        ensures
            (walk.found(), walk.expanded()) == walk_step(
                self.found(),
                self.expanded(),
                children@,
            ),
    {
        proof {
            use_type_invariant(&self);
        }
        let DescendantWalk { pids, cursor } = self;
        let mut pids: Vec<i32> = pids;
        if cursor < pids.len() {
            let ghost before = pids@;
            let mut i: usize = 0;
            while i < children.len()
                invariant
                    i <= children.len(),
                    cursor < pids@.len(),
                    pids@ == before + children@.take(i as int),
                decreases children.len() - i,
            {
                pids.push(children[i]);
                assert(children@.take(i as int + 1) == children@.take(i as int).push(
                    children@[i as int],
                ));
                i = i + 1;
            }
            assert(children@.take(children.len() as int) == children@);
            DescendantWalk { pids, cursor: cursor + 1 }
        } else {
            DescendantWalk { pids, cursor }
        }
    }

    /// Ends the walk and hands out what it found.
    pub fn into_pids(self) -> (pids: Vec<i32>)
        ensures
            pids@ == self.found(),
    {
        self.pids
    }
}

/// Lists `pid` and all its descendants in the snapshot `table`, breadth
/// first: the root at index zero, then the children of each listed process
/// in the order of the list.
///
/// The walk takes one step for each process of the list, and a list holds
/// `usize::MAX` processes at most, so the walk ends. What comes back is the
/// finished list. A table that makes a process its own descendant has no
/// finished list from that process: there the list grows with every step
/// until no memory is left for it, and the allocator stops the program
/// before anything is handed back.
pub fn get_all_children_processes_ids(pid: i32, table: &ProcessTable) -> (pids: Vec<i32>)
    ensures
        is_descendant_list(table@, pid, pids@),
        pids@.len() >= 1,
        pids@[0] == pid,
{
    let mut walk: DescendantWalk = DescendantWalk::new(pid);
    let none: Vec<i32> = Vec::new();
    let mut steps: usize = 0;
    loop
        invariant
            none@ == Seq::<i32>::empty(),
            steps == walk.expanded(),
            walk.found() == walk_after(table@, pid, steps as nat),
        ensures
            walk.found().len() == steps,
            walk.found() == walk_after(table@, pid, steps as nat),
        decreases usize::MAX - steps,
    {
        match walk.pending() {
            None => {
                break ;
            },
            Some(parent) => {
                let ghost before = walk.found();
                match table.children(parent) {
                    Some(children) => {
                        walk = walk.record(children);
                    },
                    None => {
                        walk = walk.record(&none);
                        assert(before + none@ == before);
                    },
                }
                steps = steps + 1;
            },
        }
    }
    proof {
        lemma_root_first(table@, pid, walk.found());
    }
    walk.into_pids()
}

/// The pause between two scans for threads, in milliseconds.
pub const POLL_INTERVAL_MS: u64 = 100;

/// What to do next while waiting for the threads of a workload.
#[derive(Debug, PartialEq, Eq)]
pub enum WatchStep {
    /// List the threads of every process in the tree under `pid`, then ask
    /// again with the list.
    Scan { pid: i32 },
    /// Sleep for `millis` milliseconds, then scan again.
    Pause { millis: u64 },
    /// The threads are there.
    Ready { tids: Vec<i32> },
    /// The time is up and the threads are not there: the run cannot go on.
    TimedOut { found: usize, expected: usize },
}

/// A step of the wait with its list as a sequence.
pub enum WatchStepView {
    Scan { pid: i32 },
    Pause { millis: u64 },
    Ready { tids: Seq<i32> },
    TimedOut { found: usize, expected: usize },
}

impl View for WatchStep {
    type V = WatchStepView;

    open spec fn view(&self) -> WatchStepView {
        match self {
            WatchStep::Scan { pid } => WatchStepView::Scan { pid: *pid },
            WatchStep::Pause { millis } => WatchStepView::Pause { millis: *millis },
            WatchStep::Ready { tids } => WatchStepView::Ready { tids: tids@ },
            WatchStep::TimedOut { found, expected } => WatchStepView::TimedOut {
                found: *found,
                expected: *expected,
            },
        }
    }
}

/// What a scan amounts to. The leader is a thread too, so the threads are
/// there once their number exceeds `expected`, the number of threads beside
/// the leader. Short of that the wait goes on until more than `timeout`
/// seconds have gone by.
pub open spec fn scan_verdict(
    tids: Seq<i32>,
    expected: usize,
    timeout: u64,
    waited_nanos: u128,
) -> WatchStepView {
    if tids.len() > expected {
        WatchStepView::Ready { tids }
    } else if waited_nanos > timeout * 1_000_000_000 {
        WatchStepView::TimedOut { found: tids.len() as usize, expected }
    } else {
        WatchStepView::Pause { millis: POLL_INTERVAL_MS }
    }
}

/// The rule of the wait. Process id zero stands for no workload: there is
/// nothing to wait for and no thread to report. Otherwise the first thing
/// to do is a scan, and each scan is judged by `scan_verdict`.
pub open spec fn watch_step(
    pid: i32,
    expected: usize,
    timeout: u64,
    scanned: Option<Seq<i32>>,
    waited_nanos: u128,
) -> WatchStepView {
    if pid == 0 {
        WatchStepView::Ready { tids: Seq::<i32>::empty() }
    } else {
        match scanned {
            None => WatchStepView::Scan { pid },
            Some(tids) => scan_verdict(tids, expected, timeout, waited_nanos),
        }
    }
}

/// The threads of a scan as a sequence, where there was a scan.
pub open spec fn scanned_view(scanned: Option<Vec<i32>>) -> Option<Seq<i32>> {
    match scanned {
        Some(tids) => Some(tids@),
        None => None,
    }
}

/// Decides how the wait for the threads under `pid` goes on. `scanned` is
/// the latest scan, if there was one, and `waited_nanos` the time since the
/// wait began, in nanoseconds; `timeout` is in seconds.
pub fn wait_for_threads(
    pid: i32,
    expected_thread_count: usize,
    timeout: u64,
    scanned: Option<Vec<i32>>,
    waited_nanos: u128,
) -> (step: WatchStep)
    ensures
        step@ == watch_step(
            pid,
            expected_thread_count,
            timeout,
            scanned_view(scanned),
            waited_nanos,
        ),
        pid == 0 ==> step@ == (WatchStepView::Ready { tids: Seq::<i32>::empty() }),
{
    if pid == 0 {
        return WatchStep::Ready { tids: Vec::new() };
    }
    match scanned {
        None => WatchStep::Scan { pid },
        Some(tids) => {
            let found: usize = tids.len();
            if found > expected_thread_count {
                WatchStep::Ready { tids }
            } else if waited_nanos > (timeout as u128) * 1_000_000_000 {
                WatchStep::TimedOut { found, expected: expected_thread_count }
            } else {
                WatchStep::Pause { millis: POLL_INTERVAL_MS }
            }
        },
    }
}

/// The lists of `lists` one after the other.
pub open spec fn concat(lists: Seq<Seq<i32>>) -> Seq<i32>
    decreases lists.len(),
{
    if lists.len() == 0 {
        Seq::<i32>::empty()
    } else {
        concat(lists.drop_last()) + lists.last()
    }
}

/// The threads of the first process come first, and so its leader, where
/// the kernel lists a process's leader first, is the first thread of all.
pub proof fn lemma_first_process_first(lists: Seq<Seq<i32>>)
    requires
        lists.len() >= 1,
    ensures
        lists[0].len() <= concat(lists).len(),
        concat(lists).take(lists[0].len() as int) == lists[0],
    decreases lists.len(),
{
    if lists.len() == 1 {
        assert(lists.drop_last().len() == 0);
        assert(concat(lists.drop_last()) == Seq::<i32>::empty());
        assert(concat(lists) == lists[0]);
        assert(lists[0].take(lists[0].len() as int) == lists[0]);
    } else {
        lemma_first_process_first(lists.drop_last());
        assert(lists.drop_last()[0] == lists[0]);
        let before = concat(lists.drop_last());
        assert(concat(lists).take(lists[0].len() as int) =~= before.take(lists[0].len() as int));
    }
}

/// Gathers the threads of a scan: the threads of each process of the tree,
/// in the order of the processes.
pub fn collect_threads(per_process: &Vec<Vec<i32>>) -> (tids: Vec<i32>)
    ensures
        tids@ == concat(per_process.deep_view()),
{
    let mut tids: Vec<i32> = Vec::new();
    let mut i: usize = 0;
    assert(per_process.deep_view().take(0) == Seq::<Seq<i32>>::empty());
    while i < per_process.len()
        invariant
            i <= per_process.len(),
            tids@ == concat(per_process.deep_view().take(i as int)),
        decreases per_process.len() - i,
    {
        let threads: &Vec<i32> = &per_process[i];
        let ghost before = tids@;
        let mut j: usize = 0;
        while j < threads.len()
            invariant
                j <= threads.len(),
                tids@ == before + threads@.take(j as int),
            decreases threads.len() - j,
        {
            tids.push(threads[j]);
            assert(threads@.take(j as int + 1) == threads@.take(j as int).push(threads@[j as int]));
            j = j + 1;
        }
        assert(threads@.take(threads.len() as int) == threads@);
        assert(per_process.deep_view().take(i as int + 1).drop_last()
            == per_process.deep_view().take(i as int));
        assert(per_process.deep_view().take(i as int + 1).last() == threads@);
        i = i + 1;
    }
    assert(per_process.deep_view().take(per_process.len() as int) == per_process.deep_view());
    tids
}

/// The words of the complaint that ends a wait without the threads.
pub open spec fn timeout_text(found: usize, expected: usize) -> Seq<char> {
    "timeout waiting for threads, only "@ + decimal(found as nat) + " found, expected "@ + decimal(
        expected as nat,
    )
}

/// Renders `timeout_text`.
pub fn timeout_message(found: usize, expected: usize) -> (message: String)
    ensures
        message@ == timeout_text(found, expected),
{
    let mut message: String = String::from_str("timeout waiting for threads, only ");
    push_decimal(&mut message, found as u64);
    message.append(" found, expected ");
    push_decimal(&mut message, expected as u64);
    message
}

} // verus!
