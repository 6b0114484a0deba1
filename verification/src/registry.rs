//! The registry of running services: which process runs under which name.
//!
//! The registry owns the handles of the processes it holds.  A handle leaves
//! it only through a call that hands the handle to the caller, who is then
//! the one holder and is expected to terminate the process.

use vstd::prelude::*;

verus! {

/// A running service: the handle of its process with the name and the rank
/// of the service it was started for.
pub struct ManagedProcess<H> {
    /// The logical name of the service.
    pub name: String,
    /// The position of the service in the startup order.
    pub rank: u32,
    /// The handle by which the process is terminated.
    pub handle: H,
}

/// The content of a [`ManagedProcess`].
pub struct ProcessView<H> {
    pub name: Seq<char>,
    pub rank: u32,
    pub handle: H,
}

impl<H> View for ManagedProcess<H> {
    type V = ProcessView<H>;

    open spec fn view(&self) -> ProcessView<H> {
        ProcessView { name: self.name@, rank: self.rank, handle: self.handle }
    }
}

impl<H> DeepView for ManagedProcess<H> {
    type V = ProcessView<H>;

    open spec fn deep_view(&self) -> ProcessView<H> {
        self@
    }
}

/// The index in `ps` of the first process called `name`.
pub open spec fn position<H>(ps: Seq<ProcessView<H>>, name: Seq<char>) -> Option<int>
    decreases ps.len(),
{
    if ps.len() == 0 {
        None
    } else if ps[0].name == name {
        Some(0)
    } else {
        match position(ps.drop_first(), name) {
            Some(i) => Some(i + 1),
            None => None,
        }
    }
}

/// The process that runs under `name`, if there is one.
pub open spec fn find<H>(ps: Seq<ProcessView<H>>, name: Seq<char>) -> Option<ProcessView<H>> {
    match position(ps, name) {
        Some(i) => Some(ps[i]),
        None => None,
    }
}

/// `ps` without the process that runs under `name`.
pub open spec fn without<H>(ps: Seq<ProcessView<H>>, name: Seq<char>) -> Seq<ProcessView<H>> {
    match position(ps, name) {
        Some(i) => ps.remove(i),
        None => ps,
    }
}

/// The number of processes at the start of `ps` whose rank is at most `rank`.
pub open spec fn slot<H>(ps: Seq<ProcessView<H>>, rank: u32) -> int
    decreases ps.len(),
{
    if ps.len() > 0 && ps[0].rank <= rank {
        1 + slot(ps.drop_first(), rank)
    } else {
        0
    }
}

/// `ps` with `p` put behind the processes of its own and of lower ranks.
pub open spec fn placed<H>(ps: Seq<ProcessView<H>>, p: ProcessView<H>) -> Seq<ProcessView<H>> {
    ps.insert(slot(ps, p.rank), p)
}

/// The processes are in the order of their ranks.
pub open spec fn ranked<H>(ps: Seq<ProcessView<H>>) -> bool {
    forall|i: int, j: int| 0 <= i <= j < ps.len() ==> ps[i].rank <= ps[j].rank
}

/// No two of the processes run under one name.
pub open spec fn distinct_names<H>(ps: Seq<ProcessView<H>>) -> bool {
    forall|i: int, j: int| 0 <= i < j < ps.len() ==> ps[i].name != ps[j].name
}

/// `position` finds the first index that holds the name, and only such an index.
pub proof fn lemma_position<H>(ps: Seq<ProcessView<H>>, name: Seq<char>)
    ensures
        match position(ps, name) {
            Some(i) => 0 <= i < ps.len() && ps[i].name == name && forall|k: int|
                0 <= k < i ==> (#[trigger] ps[k]).name != name,
            None => forall|k: int| 0 <= k < ps.len() ==> (#[trigger] ps[k]).name != name,
        },
    decreases ps.len(),
{
    if ps.len() > 0 && ps[0].name != name {
        let rest = ps.drop_first();
        lemma_position(rest, name);
        match position(rest, name) {
            Some(i) => {
                assert forall|k: int| 0 <= k < i + 1 implies (#[trigger] ps[k]).name != name by {
                    if k > 0 {
                        assert(ps[k] == rest[k - 1]);
                    }
                }
            },
            None => {
                assert forall|k: int| 0 <= k < ps.len() implies (#[trigger] ps[k]).name
                    != name by {
                    if k > 0 {
                        assert(ps[k] == rest[k - 1]);
                    }
                }
            },
        }
    }
}

/// An index that holds the name, with none before it that does, is the position.
pub proof fn lemma_position_at<H>(ps: Seq<ProcessView<H>>, name: Seq<char>, i: int)
    requires
        0 <= i <= ps.len(),
        forall|k: int| 0 <= k < i ==> (#[trigger] ps[k]).name != name,
        i < ps.len() ==> ps[i].name == name,
    ensures
        position(ps, name) == if i < ps.len() {
            Some(i)
        } else {
            None
        },
{
    lemma_position(ps, name);
}

/// `slot` counts a run of ranks that are at most `rank`.
pub proof fn lemma_slot<H>(ps: Seq<ProcessView<H>>, rank: u32, k: int)
    requires
        0 <= k <= ps.len(),
        forall|i: int| 0 <= i < k ==> (#[trigger] ps[i]).rank <= rank,
        k < ps.len() ==> ps[k].rank > rank,
    ensures
        slot(ps, rank) == k,
    decreases k,
{
    if k > 0 {
        let rest = ps.drop_first();
        lemma_slot(rest, rank, k - 1);
    }
}

/// The slot lies within the sequence; ranks before it are at most `rank`, and
/// the rank at it is greater.
pub proof fn lemma_slot_bounds<H>(ps: Seq<ProcessView<H>>, rank: u32)
    ensures
        0 <= slot(ps, rank) <= ps.len(),
        forall|i: int| 0 <= i < slot(ps, rank) ==> (#[trigger] ps[i]).rank <= rank,
        slot(ps, rank) < ps.len() ==> ps[slot(ps, rank)].rank > rank,
    decreases ps.len(),
{
    if ps.len() > 0 && ps[0].rank <= rank {
        let rest = ps.drop_first();
        lemma_slot_bounds(rest, rank);
        assert forall|i: int| 0 <= i < slot(ps, rank) implies (#[trigger] ps[i]).rank <= rank by {
            if i > 0 {
                assert(ps[i] == rest[i - 1]);
            }
        }
    }
}

/// Taking a process out keeps the order of the ranks and the names distinct,
/// and leaves nothing under the name.
pub proof fn lemma_without<H>(ps: Seq<ProcessView<H>>, name: Seq<char>)
    requires
        ranked(ps),
        distinct_names(ps),
    ensures
        ranked(without(ps, name)),
        distinct_names(without(ps, name)),
        position(without(ps, name), name) is None,
        forall|other: Seq<char>| other != name ==> find(without(ps, name), other) == find(ps, other),
{
    lemma_position(ps, name);
    let rest = without(ps, name);
    lemma_position_at(rest, name, rest.len() as int);
    assert forall|other: Seq<char>| other != name implies find(rest, other) == find(
        ps,
        other,
    ) by {
        lemma_position(ps, other);
        match position(ps, name) {
            Some(i) => {
                match position(ps, other) {
                    Some(j) => {
                        let at = if j < i {
                            j
                        } else {
                            j - 1
                        };
                        lemma_position_at(rest, other, at);
                    },
                    None => {
                        lemma_position_at(rest, other, rest.len() as int);
                    },
                }
            },
            None => {},
        }
    }
}

/// Placing a process whose name is free keeps the order of the ranks and the
/// names distinct, and the process is then found under its name.
pub proof fn lemma_placed<H>(ps: Seq<ProcessView<H>>, p: ProcessView<H>)
    requires
        ranked(ps),
        distinct_names(ps),
        position(ps, p.name) is None,
    ensures
        ranked(placed(ps, p)),
        distinct_names(placed(ps, p)),
        find(placed(ps, p), p.name) == Some(p),
        forall|other: Seq<char>| other != p.name ==> find(placed(ps, p), other) == find(ps, other),
{
    lemma_slot_bounds(ps, p.rank);
    lemma_position(ps, p.name);
    let at = slot(ps, p.rank);
    let all = placed(ps, p);
    lemma_position_at(all, p.name, at);
    assert forall|other: Seq<char>| other != p.name implies find(all, other) == find(
        ps,
        other,
    ) by {
        lemma_position(ps, other);
        match position(ps, other) {
            Some(j) => {
                let to = if j < at {
                    j
                } else {
                    j + 1
                };
                lemma_position_at(all, other, to);
            },
            None => {
                lemma_position_at(all, other, all.len() as int);
            },
        }
    }
}

/// The registry after each of `started` was registered in turn, beginning
/// with the registry `ps`.
pub open spec fn registered_all<H>(ps: Seq<ProcessView<H>>, started: Seq<ProcessView<H>>) -> Seq<
    ProcessView<H>,
>
    decreases started.len(),
{
    if started.len() == 0 {
        ps
    } else {
        let before = registered_all(ps, started.drop_last());
        placed(without(before, started.last().name), started.last())
    }
}

/// The processes that were pushed out of the registry while each of
/// `started` was registered in turn, in the order in which they left.
pub open spec fn displaced_all<H>(ps: Seq<ProcessView<H>>, started: Seq<ProcessView<H>>) -> Seq<
    ProcessView<H>,
>
    decreases started.len(),
{
    if started.len() == 0 {
        Seq::empty()
    } else {
        let before = registered_all(ps, started.drop_last());
        let earlier = displaced_all(ps, started.drop_last());
        match find(before, started.last().name) {
            Some(prior) => earlier.push(prior),
            None => earlier,
        }
    }
}

/// Processes that stand in the order of their ranks under distinct names go
/// into an empty registry as they are, and push nothing out.
pub proof fn lemma_registered_all_in_order<H>(started: Seq<ProcessView<H>>)
    requires
        ranked(started),
        distinct_names(started),
    ensures
        registered_all(Seq::empty(), started) == started,
        displaced_all(Seq::empty(), started) == Seq::<ProcessView<H>>::empty(),
    decreases started.len(),
{
    if started.len() > 0 {
        let front = started.drop_last();
        let last = started.last();
        lemma_registered_all_in_order(front);
        lemma_position_at(front, last.name, front.len() as int);
        lemma_slot(front, last.rank, front.len() as int);
        assert(front.insert(front.len() as int, last) =~= started);
    }
}

/// Idempotence: taking a service that the registry does not hold yields
/// nothing and leaves the registry as it is; and once a service was
/// taken, the registry does not hold it, so that taking it again is such
/// a step.
pub proof fn lemma_take_is_idempotent<H>(ps: Seq<ProcessView<H>>, name: Seq<char>)
    requires
        ranked(ps),
        distinct_names(ps),
    ensures
        find(ps, name) is None ==> without(ps, name) == ps,
        find(without(ps, name), name) is None,
        without(without(ps, name), name) == without(ps, name),
{
    lemma_without(ps, name);
}

/// Draining a registry that holds nothing yields nothing.
pub proof fn lemma_drain_of_empty<H>()
    ensures
        Seq::<ProcessView<H>>::empty().reverse() == Seq::<ProcessView<H>>::empty(),
{
    assert(Seq::<ProcessView<H>>::empty().reverse() =~= Seq::<ProcessView<H>>::empty());
}

/// Exclusive ownership: when a `register` and a `take` on one name meet,
/// each process ends with one holder, whichever comes first.  If the
/// `register` comes first, it receives the process that ran before and
/// the `take` receives the new one; if the `take` comes first, it
/// receives the process that ran before, and the `register` receives
/// nothing and leaves the new one in the registry.  A process that was
/// handed out is not in the registry any more.
pub proof fn lemma_register_take_exclusive<H>(ps: Seq<ProcessView<H>>, p: ProcessView<H>)
    requires
        ranked(ps),
        distinct_names(ps),
    ensures
        ({
            let registered = placed(without(ps, p.name), p);
            &&& find(registered, p.name) == Some(p)
            &&& find(without(registered, p.name), p.name) is None
            &&& without(registered, p.name) == without(ps, p.name)
        }),
        ({
            let taken = without(ps, p.name);
            &&& find(taken, p.name) is None
            &&& find(placed(without(taken, p.name), p), p.name) == Some(p)
        }),
{
    lemma_without(ps, p.name);
    let rest = without(ps, p.name);
    lemma_placed(rest, p);
    let registered = placed(rest, p);
    lemma_without(registered, p.name);
    lemma_position(registered, p.name);
    lemma_slot_bounds(rest, p.rank);
    lemma_position_at(registered, p.name, slot(rest, p.rank));
}

/// One call on the registry, as the lock that guards it lets calls
/// happen: one at a time, each from start to end.
pub enum RegistryCall<H> {
    /// `register` of this process.
    Register(ProcessView<H>),
    /// `take` of this name.
    Take(Seq<char>),
    /// `drain_all`.
    DrainAll,
}

/// The process that a call brings to the registry.
pub open spec fn call_brings<H>(call: RegistryCall<H>) -> Seq<ProcessView<H>> {
    match call {
        RegistryCall::Register(p) => seq![p],
        _ => Seq::empty(),
    }
}

/// The registry after a call.
pub open spec fn call_leaves<H>(ps: Seq<ProcessView<H>>, call: RegistryCall<H>) -> Seq<
    ProcessView<H>,
> {
    match call {
        RegistryCall::Register(p) => placed(without(ps, p.name), p),
        RegistryCall::Take(name) => without(ps, name),
        RegistryCall::DrainAll => Seq::empty(),
    }
}

/// The processes that a call hands to its caller.
pub open spec fn call_hands_out<H>(ps: Seq<ProcessView<H>>, call: RegistryCall<H>) -> Seq<
    ProcessView<H>,
> {
    match call {
        RegistryCall::Register(p) => match find(ps, p.name) {
            Some(prior) => seq![prior],
            None => Seq::empty(),
        },
        RegistryCall::Take(name) => match find(ps, name) {
            Some(taken) => seq![taken],
            None => Seq::empty(),
        },
        RegistryCall::DrainAll => ps.reverse(),
    }
}

/// The registry after a run of calls, in the order in which the lock let
/// them happen.
pub open spec fn calls_leave<H>(ps: Seq<ProcessView<H>>, calls: Seq<RegistryCall<H>>) -> Seq<
    ProcessView<H>,
>
    decreases calls.len(),
{
    if calls.len() == 0 {
        ps
    } else {
        call_leaves(calls_leave(ps, calls.drop_last()), calls.last())
    }
}

/// Everything that a run of calls brought to the registry.
pub open spec fn calls_bring<H>(calls: Seq<RegistryCall<H>>) -> Seq<ProcessView<H>>
    decreases calls.len(),
{
    if calls.len() == 0 {
        Seq::empty()
    } else {
        calls_bring(calls.drop_last()) + call_brings(calls.last())
    }
}

/// Everything that a run of calls handed to callers.
pub open spec fn calls_hand_out<H>(ps: Seq<ProcessView<H>>, calls: Seq<RegistryCall<H>>) -> Seq<
    ProcessView<H>,
>
    decreases calls.len(),
{
    if calls.len() == 0 {
        Seq::empty()
    } else {
        calls_hand_out(ps, calls.drop_last()) + call_hands_out(
            calls_leave(ps, calls.drop_last()),
            calls.last(),
        )
    }
}

/// A call keeps the registry in order.
pub proof fn lemma_call_keeps_order<H>(ps: Seq<ProcessView<H>>, call: RegistryCall<H>)
    requires
        ranked(ps),
        distinct_names(ps),
    ensures
        ranked(call_leaves(ps, call)),
        distinct_names(call_leaves(ps, call)),
{
    match call {
        RegistryCall::Register(p) => {
            lemma_without(ps, p.name);
            lemma_placed(without(ps, p.name), p);
        },
        RegistryCall::Take(name) => {
            lemma_without(ps, name);
        },
        RegistryCall::DrainAll => {},
    }
}

/// No call loses or doubles a process: what the registry holds after the
/// call, with what the call handed out, is what the registry held before,
/// with what the call brought.
pub proof fn lemma_call_conserves<H>(ps: Seq<ProcessView<H>>, call: RegistryCall<H>)
    requires
        ranked(ps),
        distinct_names(ps),
    ensures
        (call_leaves(ps, call) + call_hands_out(ps, call)).to_multiset() == (ps + call_brings(
            call,
        )).to_multiset(),
{
    broadcast use
        vstd::seq_lib::lemma_multiset_commutative,
        vstd::seq_lib::to_multiset_insert,
        vstd::seq_lib::to_multiset_remove,
        vstd::seq_lib::to_multiset_build,
    ;

    let nothing = Seq::<ProcessView<H>>::empty();
    match call {
        RegistryCall::Register(p) => {
            lemma_position(ps, p.name);
            lemma_without(ps, p.name);
            let rest = without(ps, p.name);
            lemma_slot_bounds(rest, p.rank);
            let all = placed(rest, p);
            assert(all.to_multiset() =~= rest.to_multiset().insert(p));
            assert((ps + seq![p]).to_multiset() =~= ps.to_multiset().insert(p)) by {
                assert(ps + seq![p] =~= ps.push(p));
            }
            match position(ps, p.name) {
                Some(i) => {
                    assert(rest.to_multiset() =~= ps.to_multiset().remove(ps[i]));
                    assert(ps.to_multiset().count(ps[i]) > 0) by {
                        assert(ps.contains(ps[i]));
                        ps.to_multiset_ensures();
                    }
                    assert((all + seq![ps[i]]).to_multiset() =~= all.to_multiset().insert(ps[i])) by {
                        assert(all + seq![ps[i]] =~= all.push(ps[i]));
                    }
                    assert(rest.to_multiset().insert(p).insert(ps[i]) =~= ps.to_multiset().insert(
                        p,
                    ));
                },
                None => {
                    assert(all + nothing =~= all);
                },
            }
        },
        RegistryCall::Take(name) => {
            lemma_position(ps, name);
            let rest = without(ps, name);
            assert(ps + nothing =~= ps);
            match position(ps, name) {
                Some(i) => {
                    assert(rest.to_multiset() =~= ps.to_multiset().remove(ps[i]));
                    assert(ps.to_multiset().count(ps[i]) > 0) by {
                        assert(ps.contains(ps[i]));
                        ps.to_multiset_ensures();
                    }
                    assert((rest + seq![ps[i]]).to_multiset() =~= rest.to_multiset().insert(ps[i])) by {
                        assert(rest + seq![ps[i]] =~= rest.push(ps[i]));
                    }
                    assert(ps.to_multiset().remove(ps[i]).insert(ps[i]) =~= ps.to_multiset());
                },
                None => {
                    assert(rest + nothing =~= ps);
                },
            }
        },
        RegistryCall::DrainAll => {
            assert(nothing + ps.reverse() =~= ps.reverse());
            assert(ps + nothing =~= ps);
            ps.lemma_reverse_to_multiset();
        },
    }
}

/// Over any run of calls the registry stays in order, and no process is
/// lost or doubled: what the registry holds at the end, with all that the
/// calls handed out, is what it held at the start, with all that the calls
/// brought.
pub proof fn lemma_calls_conserve<H>(ps: Seq<ProcessView<H>>, calls: Seq<RegistryCall<H>>)
    requires
        ranked(ps),
        distinct_names(ps),
    ensures
        ranked(calls_leave(ps, calls)),
        distinct_names(calls_leave(ps, calls)),
        (calls_leave(ps, calls) + calls_hand_out(ps, calls)).to_multiset() == (ps + calls_bring(
            calls,
        )).to_multiset(),
    decreases calls.len(),
{
    broadcast use vstd::seq_lib::lemma_multiset_commutative;

    if calls.len() == 0 {
        assert(ps + Seq::<ProcessView<H>>::empty() =~= ps);
    } else {
        let front = calls.drop_last();
        let before = calls_leave(ps, front);
        lemma_calls_conserve(ps, front);
        lemma_call_keeps_order(before, calls.last());
        lemma_call_conserves(before, calls.last());
        let after = calls_leave(ps, calls).to_multiset();
        let held = before.to_multiset();
        let out_now = call_hands_out(before, calls.last()).to_multiset();
        let out_before = calls_hand_out(ps, front).to_multiset();
        let in_now = call_brings(calls.last()).to_multiset();
        assert((calls_leave(ps, calls) + calls_hand_out(ps, calls)).to_multiset() =~= after.add(
            out_now,
        ).add(out_before));
        assert(held.add(in_now).add(out_before) =~= held.add(out_before).add(in_now));
    }
}

/// Exclusive ownership under any interleaving: if no process was in the
/// registry twice or brought to it twice, then after any run of calls no
/// process has two holders.  It is in the registry, or it was handed to
/// one caller, once.
pub proof fn lemma_calls_are_exclusive<H>(ps: Seq<ProcessView<H>>, calls: Seq<RegistryCall<H>>)
    requires
        ranked(ps),
        distinct_names(ps),
        (ps + calls_bring(calls)).no_duplicates(),
    ensures
        (calls_leave(ps, calls) + calls_hand_out(ps, calls)).no_duplicates(),
{
    lemma_calls_conserve(ps, calls);
    (ps + calls_bring(calls)).lemma_multiset_has_no_duplicates();
    (calls_leave(ps, calls) + calls_hand_out(ps, calls)).lemma_multiset_has_no_duplicates_conv();
}

/// Turns the processes round: the one started last comes first.
pub fn in_reverse<H>(processes: Vec<ManagedProcess<H>>) -> (reversed: Vec<ManagedProcess<H>>)
    ensures
        reversed.deep_view() == processes.deep_view().reverse(),
{
    let ghost all = processes.deep_view();
    let mut rest = processes;
    let mut reversed: Vec<ManagedProcess<H>> = Vec::new();
    while rest.len() > 0
        invariant
            rest.len() <= all.len(),
            reversed.len() == all.len() - rest.len(),
            rest.deep_view() == all.take(rest.len() as int),
            forall|k: int|
                0 <= k < reversed.len() ==> (#[trigger] reversed.deep_view()[k]) == all[all.len() - 1
                    - k],
        decreases rest.len(),
    {
        let ghost held = rest.deep_view();
        let ghost done = reversed.deep_view();
        match rest.pop() {
            Some(process) => {
                assert(process@ == held[held.len() - 1]);
                assert(rest.deep_view() =~= all.take(rest.len() as int));
                reversed.push(process);
                assert(reversed.deep_view() =~= done.push(process@));
            },
            None => {},
        }
    }
    assert(reversed.deep_view() =~= all.reverse());
    reversed
}

/// The registry: the processes that are believed to be alive, in the order of
/// their ranks, at most one under each name.
pub struct SupervisorRegistry<H> {
    entries: Vec<ManagedProcess<H>>,
}

impl<H> SupervisorRegistry<H> {
    /// The registered processes, lowest rank first.
    pub closed spec fn processes(&self) -> Seq<ProcessView<H>> {
        self.entries.deep_view()
    }

    /// The registry is in order: its processes stand in the order of their
    /// ranks, and no two of them run under one name.
    pub open spec fn wf(&self) -> bool {
        ranked(self.processes()) && distinct_names(self.processes())
    }

    /// A registry that holds no process.
    pub fn new() -> (registry: Self)
        ensures
            registry.wf(),
            registry.processes() == Seq::<ProcessView<H>>::empty(),
    {
        SupervisorRegistry { entries: Vec::new() }
    }

    /// Tells whether the registry is in order.  A registry that was made by
    /// `new` and changed only through its own operations always is.
    pub fn is_in_order(&self) -> (ok: bool)
        ensures
            ok == self.wf(),
    {
        let n = self.entries.len();
        let ghost ps = self.processes();
        let mut j: usize = 0;
        while j < n
            invariant
                j <= n,
                n == self.entries.len(),
                ps == self.processes(),
                forall|a: int, b: int| 0 <= a <= b < j ==> ps[a].rank <= ps[b].rank,
                forall|a: int, b: int| 0 <= a < b < j ==> ps[a].name != ps[b].name,
            decreases n - j,
        {
            if j > 0 && self.entries[j - 1].rank > self.entries[j].rank {
                assert(ps[j - 1].rank > ps[j as int].rank);
                return false;
            }
            let mut i: usize = 0;
            while i < j
                invariant
                    i <= j < n,
                    n == self.entries.len(),
                    ps == self.processes(),
                    forall|a: int| 0 <= a < i ==> (#[trigger] ps[a]).name != ps[j as int].name,
                decreases j - i,
            {
                if self.entries[i].name == self.entries[j].name {
                    assert(ps[i as int].name == ps[j as int].name);
                    return false;
                }
                i += 1;
            }
            assert forall|a: int, b: int| 0 <= a <= b < j + 1 implies ps[a].rank <= ps[b].rank by {
                if b == j && a < j {
                    assert(ps[a].rank <= ps[j - 1].rank);
                }
            }
            j += 1;
        }
        true
    }

    /// The number of registered processes.
    pub fn len(&self) -> (n: usize)
        ensures
            n == self.processes().len(),
    {
        self.entries.len()
    }

    /// Tells whether a process runs under `name`.
    pub fn is_running(&self, name: &String) -> (running: bool)
        ensures
            running == find(self.processes(), name@).is_some(),
    {
        self.index_of(name).is_some()
    }

    fn index_of(&self, name: &String) -> (found: Option<usize>)
        ensures
            match found {
                Some(i) => position(self.processes(), name@) == Some(i as int) && i
                    < self.entries.len(),
                None => position(self.processes(), name@) is None,
            },
    {
        let mut i: usize = 0;
        while i < self.entries.len()
            invariant
                i <= self.entries.len(),
                forall|k: int| 0 <= k < i ==> (#[trigger] self.processes()[k]).name != name@,
            decreases self.entries.len() - i,
        {
            if self.entries[i].name == *name {
                proof {
                    lemma_position_at(self.processes(), name@, i as int);
                }
                return Some(i);
            }
            i += 1;
        }
        proof {
            lemma_position_at(self.processes(), name@, i as int);
        }
        None
    }

    /// The process that runs under `name`, if there is one.
    pub fn get(&self, name: &String) -> (held: Option<&ManagedProcess<H>>)
        ensures
            match held {
                Some(process) => find(self.processes(), name@) == Some(process@),
                None => find(self.processes(), name@) is None,
            },
    {
        match self.index_of(name) {
            Some(i) => Some(&self.entries[i]),
            None => None,
        }
    }

    /// Removes the process that runs under `name` and hands it to the caller.
    /// Where none runs under that name, the registry stays as it is.
    pub fn take(&mut self, name: &String) -> (taken: Option<ManagedProcess<H>>)
        requires
            old(self).wf(),
        ensures
            final(self).wf(),
            taken.deep_view() == find(old(self).processes(), name@),
            final(self).processes() == without(old(self).processes(), name@),
    {
        match self.index_of(name) {
            Some(i) => {
                let ghost before = self.processes();
                let process = self.entries.remove(i);
                assert(self.entries.deep_view() =~= before.remove(i as int));
                Some(process)
            },
            None => None,
        }
    }

    /// Registers `process` under its name, behind the processes of its own
    /// and of lower ranks.  A process that ran under that name before leaves
    /// the registry and is handed to the caller.
    pub fn register(&mut self, process: ManagedProcess<H>) -> (prior: Option<ManagedProcess<H>>)
        requires
            old(self).wf(),
        ensures
            final(self).wf(),
            prior.deep_view() == find(old(self).processes(), process.name@),
            final(self).processes() == placed(
                without(old(self).processes(), process.name@),
                process@,
            ),
    {
        let prior = self.take(&process.name);
        let ghost rest = self.processes();
        proof {
            lemma_without(old(self).processes(), process.name@);
            lemma_placed(rest, process@);
        }
        let mut at: usize = 0;
        while at < self.entries.len() && self.entries[at].rank <= process.rank
            invariant
                at <= self.entries.len(),
                self.processes() == rest,
                forall|k: int| 0 <= k < at ==> (#[trigger] rest[k]).rank <= process.rank,
            decreases self.entries.len() - at,
        {
            at += 1;
        }
        proof {
            lemma_slot(rest, process.rank, at as int);
        }
        self.entries.insert(at, process);
        assert(self.entries.deep_view() =~= rest.insert(at as int, process@));
        prior
    }

    /// Empties the registry and hands every process to the caller, highest
    /// rank first: the order in which the processes are to be terminated.
    pub fn drain_all(&mut self) -> (drained: Vec<ManagedProcess<H>>)
        ensures
            final(self).wf(),
            final(self).processes() == Seq::<ProcessView<H>>::empty(),
            drained.deep_view() == old(self).processes().reverse(),
    {
        let mut held: Vec<ManagedProcess<H>> = Vec::new();
        std::mem::swap(&mut self.entries, &mut held);
        assert(self.entries.deep_view() =~= Seq::<ProcessView<H>>::empty());
        in_reverse(held)
    }

    /// Replaces what the registry holds by `started`: every process that was
    /// registered before leaves it, highest rank first, and then each of
    /// `started` is registered in turn.  The caller receives the processes
    /// that left, in the order in which they are to be terminated.
    pub fn replace_all(&mut self, started: Vec<ManagedProcess<H>>) -> (displaced: Vec<
        ManagedProcess<H>,
    >)
        ensures
            final(self).wf(),
            final(self).processes() == registered_all(Seq::empty(), started.deep_view()),
            displaced.deep_view() == old(self).processes().reverse() + displaced_all(
                Seq::empty(),
                started.deep_view(),
            ),
    {
        let ghost before = self.processes();
        let ghost all = started.deep_view();
        let mut displaced = self.drain_all();
        let mut started = started;
        let ghost mut done: int = 0;
        assert(all.take(0) =~= Seq::<ProcessView<H>>::empty());
        assert(all.skip(0) =~= all);
        assert(displaced.deep_view() =~= before.reverse() + Seq::<ProcessView<H>>::empty());
        while started.len() > 0
            invariant
                self.wf(),
                0 <= done <= all.len(),
                started.deep_view() == all.skip(done),
                self.processes() == registered_all(Seq::empty(), all.take(done)),
                displaced.deep_view() == before.reverse() + displaced_all(
                    Seq::empty(),
                    all.take(done),
                ),
            decreases started.len(),
        {
            let ghost so_far = displaced.deep_view();
            let ghost waiting = started.deep_view();
            let process = started.remove(0);
            assert(process@ == waiting[0]);
            assert(started.deep_view() =~= waiting.remove(0));
            assert(waiting.remove(0) =~= all.skip(done + 1));
            assert(all.take(done + 1).drop_last() =~= all.take(done));
            match self.register(process) {
                Some(prior) => {
                    displaced.push(prior);
                    assert(displaced.deep_view() =~= so_far.push(prior@));
                },
                None => {},
            }
            proof {
                done = done + 1;
            }
        }
        assert(all.take(done) =~= all);
        displaced
    }
}

} // verus!
