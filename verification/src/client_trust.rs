//! The clients a server trusts, and the last attempts to connect to it.

use crate::inode::INodeNo;
use crate::table::NameTable;
use std::collections::{HashMap, VecDeque};
use vstd::prelude::*;
use vstd::string::StringExecFns;

verus! {

broadcast use vstd::std_specs::hash::group_hash_axioms;

/// How many lines each log of connection attempts keeps.
pub const CONNECTION_ATTEMPTS_LOG_CAPACITY: usize = 50;

/// The fingerprints of the approved clients, each with the inode of its file,
/// and the logs of approved, pending and rejected connection attempts.
#[derive(Debug)]
pub struct ClientTrustState {
    approved_name_to_ino: NameTable<INodeNo>,
    approved_ino_to_name: HashMap<u64, String>,
    next_ino: u64,
    approved_log: VecDeque<String>,
    pending_log: VecDeque<String>,
    rejected_log: VecDeque<String>,
}

/// What may happen to the clients of a server: a fingerprint is approved and gets an
/// inode, an approval is withdrawn, or an attempt is logged.
pub ghost enum TrustStep {
    Approved(Seq<char>, INodeNo),
    Withdrawn(Seq<char>, bool),
    Logged,
}

/// The lines of a log.
pub open spec fn lines(log: Seq<String>) -> Seq<Seq<char>> {
    Seq::new(log.len(), |i: int| log[i]@)
}

/// `log` with `entry` as its newest line; a full log drops its oldest line.
pub open spec fn pushed(log: Seq<Seq<char>>, entry: Seq<char>) -> Seq<Seq<char>> {
    if log.len() >= CONNECTION_ATTEMPTS_LOG_CAPACITY {
        log.drop_first().push(entry)
    } else {
        log.push(entry)
    }
}

/// The three logs once the attempt of an approved client was logged.
pub open spec fn with_approved(
    logs: (Seq<Seq<char>>, Seq<Seq<char>>, Seq<Seq<char>>),
    entry: Seq<char>,
) -> (Seq<Seq<char>>, Seq<Seq<char>>, Seq<Seq<char>>) {
    (pushed(logs.0, entry), logs.1, logs.2)
}

/// The three logs once the attempt of a client that is not approved yet was logged.
pub open spec fn with_pending(
    logs: (Seq<Seq<char>>, Seq<Seq<char>>, Seq<Seq<char>>),
    entry: Seq<char>,
) -> (Seq<Seq<char>>, Seq<Seq<char>>, Seq<Seq<char>>) {
    (logs.0, pushed(logs.1, entry), logs.2)
}

/// The three logs once an attempt that failed for another reason was logged.
pub open spec fn with_rejected(
    logs: (Seq<Seq<char>>, Seq<Seq<char>>, Seq<Seq<char>>),
    entry: Seq<char>,
) -> (Seq<Seq<char>>, Seq<Seq<char>>, Seq<Seq<char>>) {
    (logs.0, logs.1, pushed(logs.2, entry))
}

/// Each attempt is the newest line of the log of its kind, and the other two logs stay as
/// they are.
pub proof fn law_attempts_are_logged_apart(
    logs: (Seq<Seq<char>>, Seq<Seq<char>>, Seq<Seq<char>>),
    entry: Seq<char>,
)
    ensures
        with_approved(logs, entry).0.last() == entry,
        with_approved(logs, entry).1 == logs.1 && with_approved(logs, entry).2 == logs.2,
        with_pending(logs, entry).1.last() == entry,
        with_pending(logs, entry).0 == logs.0 && with_pending(logs, entry).2 == logs.2,
        with_rejected(logs, entry).2.last() == entry,
        with_rejected(logs, entry).0 == logs.0 && with_rejected(logs, entry).1 == logs.1,
{
}

/// `log` once each of `entries` was added, in order.
pub open spec fn pushed_all(log: Seq<Seq<char>>, entries: Seq<Seq<char>>) -> Seq<Seq<char>>
    decreases entries.len(),
{
    if entries.len() == 0 {
        log
    } else {
        pushed(pushed_all(log, entries.drop_last()), entries.last())
    }
}

/// A log to which lines are added one by one holds the last fifty of them, in order.
pub proof fn law_log_keeps_the_newest(entries: Seq<Seq<char>>)
    ensures
        pushed_all(Seq::empty(), entries) == (if entries.len() <= 50 {
            entries
        } else {
            entries.skip(entries.len() - 50)
        }),
    decreases entries.len(),
{
    if entries.len() > 0 {
        law_log_keeps_the_newest(entries.drop_last());
        assert(pushed_all(Seq::empty(), entries) =~= (if entries.len() <= 50 {
            entries
        } else {
            entries.skip(entries.len() - 50)
        }));
    } else {
        assert(entries =~= Seq::empty());
    }
}

/// What is shown of a log is its lines, in order, with a newline behind each.
pub proof fn law_log_shows_its_lines(log: Seq<Seq<char>>)
    ensures
        joined(log) == log.map_values(|line: Seq<char>| line + seq!['\n']).flatten(),
    decreases log.len(),
{
    let ended = |line: Seq<char>| line + seq!['\n'];
    if log.len() == 0 {
        assert(log.map_values(ended).flatten() =~= Seq::<char>::empty());
    } else {
        let front = log.drop_last();
        law_log_shows_its_lines(front);
        assert(log.map_values(ended) =~= front.map_values(ended).push(ended(log.last())));
        front.map_values(ended).lemma_flatten_push(ended(log.last()));
        assert(ended(log.last()) =~= log.last().push('\n'));
    }
}

/// The lines of `log`, each ended by a newline.
pub open spec fn joined(log: Seq<Seq<char>>) -> Seq<char>
    decreases log.len(),
{
    if log.len() == 0 {
        Seq::empty()
    } else {
        joined(log.drop_last()) + log.last().push('\n')
    }
}

/// Adds `entry` to `log`, and drops the oldest line of a full log.
pub fn push_bounded(log: &mut VecDeque<String>, entry: String)
    ensures
        lines(final(log)@) == pushed(lines(old(log)@), entry@),
        old(log)@.len() <= CONNECTION_ATTEMPTS_LOG_CAPACITY ==> final(log)@.len()
            <= CONNECTION_ATTEMPTS_LOG_CAPACITY,
{
    if log.len() >= CONNECTION_ATTEMPTS_LOG_CAPACITY {
        log.pop_front();
        assert(log@ =~= old(log)@.drop_first());
        assert(lines(log@) =~= lines(old(log)@).drop_first());
    }
    let ghost before = log@;
    log.push_back(entry);
    assert(lines(log@) =~= lines(before).push(entry@));
}

/// The content of a log file.
pub fn join_log(log: &VecDeque<String>) -> (content: String)
    ensures
        content@ == joined(lines(log@)),
{
    let mut content = String::new();
    let mut i: usize = 0;
    while i < log.len()
        invariant
            i <= log@.len(),
            content@ == joined(lines(log@).take(i as int)),
        decreases log@.len() - i,
    {
        let ghost before = content@;
        content.append(log[i].as_str());
        content.push('\n');
        assert(lines(log@).take(i + 1).drop_last() =~= lines(log@).take(i as int));
        assert(content@ =~= before + log@[i as int]@.push('\n'));
        i = i + 1;
    }
    assert(lines(log@).take(log@.len() as int) =~= lines(log@));
    content
}

impl ClientTrustState {
    /// The inode of each approved fingerprint.
    pub closed spec fn inodes(self) -> Map<Seq<char>, INodeNo> {
        self.approved_name_to_ino@
    }

    /// The approved fingerprints and their inodes, in the order of approval.
    pub closed spec fn listing(self) -> Seq<(String, INodeNo)> {
        self.approved_name_to_ino.items()
    }

    /// The fingerprint at each inode.
    pub closed spec fn fingerprints(self) -> Map<u64, String> {
        self.approved_ino_to_name@
    }

    /// The inode of the next fingerprint to be approved.
    pub closed spec fn next(self) -> u64 {
        self.next_ino
    }

    /// The lines of the three logs: approved, pending and rejected attempts.
    pub closed spec fn logs(self) -> (Seq<Seq<char>>, Seq<Seq<char>>, Seq<Seq<char>>) {
        (lines(self.approved_log@), lines(self.pending_log@), lines(self.rejected_log@))
    }

    /// Whether no log is longer than its capacity.
    pub open spec fn logs_bounded(self) -> bool {
        &&& self.logs().0.len() <= CONNECTION_ATTEMPTS_LOG_CAPACITY
        &&& self.logs().1.len() <= CONNECTION_ATTEMPTS_LOG_CAPACITY
        &&& self.logs().2.len() <= CONNECTION_ATTEMPTS_LOG_CAPACITY
    }

    /// Whether both states know the same fingerprints and count alike.
    pub open spec fn same_clients(self, other: Self) -> bool {
        &&& self.inodes() == other.inodes()
        &&& self.listing() == other.listing()
        &&& self.fingerprints() == other.fingerprints()
        &&& self.next() == other.next()
    }

    /// Whether the fingerprints, the inodes and the listing match up, and the
    /// next inode is a new one.
    pub open spec fn consistent(self) -> bool {
        &&& forall|name: Seq<char>| #[trigger]
            self.inodes().dom().contains(name) ==> {
                &&& self.inodes()[name].0 < self.next()
                &&& self.fingerprints().dom().contains(self.inodes()[name].0)
                &&& self.fingerprints()[self.inodes()[name].0]@ == name
            }
        &&& forall|ino: u64| #[trigger]
            self.fingerprints().dom().contains(ino) ==> {
                &&& self.inodes().dom().contains(self.fingerprints()[ino]@)
                &&& self.inodes()[self.fingerprints()[ino]@] == INodeNo(ino)
            }
        &&& forall|i: int|
            0 <= i < self.listing().len() ==> {
                &&& self.inodes().dom().contains((#[trigger] self.listing()[i]).0@)
                &&& self.inodes()[self.listing()[i].0@] == self.listing()[i].1
            }
    }

    /// Whether every approved fingerprint is in the listing.
    pub open spec fn listed(self) -> bool {
        forall|name: Seq<char>| #[trigger]
            self.inodes().dom().contains(name) ==> exists|i: int|
                0 <= i < self.listing().len() && (#[trigger] self.listing()[i]).0@ == name
    }

    /// Whether approving `name` turns `before` into `after` and gives `ino`.
    pub open spec fn approves(before: Self, after: Self, name: Seq<char>, ino: INodeNo) -> bool {
        &&& after.logs() == before.logs()
        &&& if before.inodes().dom().contains(name) {
            &&& ino == before.inodes()[name]
            &&& after.same_clients(before)
        } else {
            &&& ino == INodeNo(before.next())
            &&& after.next() == before.next() + 1
            &&& after.inodes() == before.inodes().insert(name, ino)
            &&& after.fingerprints().dom() == before.fingerprints().dom().insert(ino.0)
            &&& after.fingerprints()[ino.0]@ == name
            &&& forall|other: u64|
                before.fingerprints().dom().contains(other) && other != ino.0
                    ==> #[trigger] after.fingerprints()[other] == before.fingerprints()[other]
            &&& after.listing().len() == before.listing().len() + 1
            &&& after.listing().drop_last() == before.listing()
            &&& after.listing().last().0@ == name
            &&& after.listing().last().1 == ino
        }
    }

    /// Whether withdrawing the approval of `name` turns `before` into `after`
    /// and reports `removed`.
    pub open spec fn withdraws(before: Self, after: Self, name: Seq<char>, removed: bool) -> bool {
        &&& after.logs() == before.logs()
        &&& after.next() == before.next()
        &&& removed == before.inodes().dom().contains(name)
        &&& if removed {
            &&& after.inodes() == before.inodes().remove(name)
            &&& after.fingerprints() == before.fingerprints().remove(before.inodes()[name].0)
            &&& exists|i: int|
                0 <= i < before.listing().len() && (#[trigger] before.listing()[i]).0@ == name
                    && after.listing() == before.listing().remove(i)
        } else {
            &&& after.inodes() == before.inodes()
            &&& after.fingerprints() == before.fingerprints()
            &&& after.listing() == before.listing()
        }
    }

    /// Whether `step` turns `before` into `after`.
    pub open spec fn takes(before: Self, after: Self, step: TrustStep) -> bool {
        match step {
            TrustStep::Approved(name, ino) => Self::approves(before, after, name, ino),
            TrustStep::Withdrawn(name, removed) => Self::withdraws(before, after, name, removed),
            TrustStep::Logged => after.same_clients(before),
        }
    }

    /// Whether `steps` lead from each of `states` to the next.
    pub open spec fn is_history(states: Seq<Self>, steps: Seq<TrustStep>) -> bool {
        &&& states.len() == steps.len() + 1
        &&& forall|k: int|
            0 <= k < steps.len() ==> Self::takes(states[k], states[k + 1], #[trigger] steps[k])
    }

    /// Every approved fingerprint stays in the listing, whatever is approved, withdrawn or
    /// logged.
    pub proof fn law_listing_stays_complete(before: Self, after: Self, step: TrustStep)
        requires
            before.listed(),
            Self::takes(before, after, step),
        ensures
            after.listed(),
    {
        assert forall|name: Seq<char>| #[trigger]
            after.inodes().dom().contains(name) implies exists|i: int|
            0 <= i < after.listing().len() && (#[trigger] after.listing()[i]).0@ == name by {
            match step {
                TrustStep::Approved(made, _) => {
                    if before.inodes().dom().contains(name) {
                        let k = choose|k: int|
                            0 <= k < before.listing().len() && (
                            #[trigger] before.listing()[k]).0@ == name;
                        if !before.inodes().dom().contains(made) {
                            assert(after.listing().drop_last()[k] == before.listing()[k]);
                        }
                        assert(after.listing()[k].0@ == name);
                    } else {
                        assert(after.listing()[after.listing().len() - 1].0@ == name);
                    }
                },
                TrustStep::Withdrawn(gone, removed) => {
                    assert(before.inodes().dom().contains(name));
                    let k = choose|k: int|
                        0 <= k < before.listing().len() && (#[trigger] before.listing()[k]).0@
                            == name;
                    if removed {
                        let i = choose|i: int|
                            0 <= i < before.listing().len() && (
                            #[trigger] before.listing()[i]).0@ == gone && after.listing()
                                == before.listing().remove(i);
                        if k < i {
                            assert(after.listing()[k].0@ == name);
                        } else {
                            assert(after.listing()[k - 1].0@ == name);
                        }
                    }
                },
                TrustStep::Logged => {
                    assert(before.inodes().dom().contains(name));
                },
            }
        }
    }

    /// Approving a fingerprint gives it an inode under which it is found, and by
    /// which it finds it; a fingerprint that is approved already keeps its inode, and
    /// nothing else changes.
    pub proof fn law_approved_client_is_found(
        before: Self,
        after: Self,
        name: Seq<char>,
        ino: INodeNo,
        other: Seq<char>,
    )
        requires
            before.consistent(),
            Self::approves(before, after, name, ino),
        ensures
            after.consistent(),
            after.inodes().dom().contains(name) && after.inodes()[name] == ino,
            after.fingerprints().dom().contains(ino.0) && after.fingerprints()[ino.0]@ == name,
            before.inodes().dom().contains(name) ==> after.same_clients(before),
            after.logs() == before.logs(),
            other != name ==> {
                &&& after.inodes().dom().contains(other) == before.inodes().dom().contains(other)
                &&& after.inodes()[other] == before.inodes()[other]
            },
    {
        if before.inodes().dom().contains(name) {
            Self::lemma_consistent(before, after);
        } else {
            assert forall|k: u64| #[trigger] after.fingerprints().dom().contains(k) implies {
                &&& after.inodes().dom().contains(after.fingerprints()[k]@)
                &&& after.inodes()[after.fingerprints()[k]@] == INodeNo(k)
            } by {
                if k != ino.0 {
                    assert(before.fingerprints().dom().contains(k));
                    assert(after.fingerprints()[k] == before.fingerprints()[k]);
                }
            }
            assert forall|n: Seq<char>| #[trigger] after.inodes().dom().contains(n) implies {
                &&& after.inodes()[n].0 < after.next()
                &&& after.fingerprints().dom().contains(after.inodes()[n].0)
                &&& after.fingerprints()[after.inodes()[n].0]@ == n
            } by {
                if n != name {
                    assert(before.inodes().dom().contains(n));
                }
            }
            assert forall|i: int| 0 <= i < after.listing().len() implies {
                &&& after.inodes().dom().contains((#[trigger] after.listing()[i]).0@)
                &&& after.inodes()[after.listing()[i].0@] == after.listing()[i].1
            } by {
                if i < before.listing().len() {
                    assert(after.listing().drop_last()[i] == after.listing()[i]);
                    assert(before.inodes().dom().contains(before.listing()[i].0@));
                }
            }
        }
    }

    /// Whether each approved fingerprint has an inode of its own below the next one,
    /// and is found by it.
    spec fn numbered(self) -> bool {
        forall|name: Seq<char>| #[trigger]
            self.inodes().dom().contains(name) ==> {
                &&& self.inodes()[name].0 < self.next()
                &&& self.fingerprints().dom().contains(self.inodes()[name].0)
                &&& self.fingerprints()[self.inodes()[name].0]@ == name
            }
    }

    proof fn lemma_step_numbered(before: Self, after: Self, step: TrustStep)
        requires
            before.numbered(),
            Self::takes(before, after, step),
        ensures
            after.numbered(),
            before.next() <= after.next(),
    {
        assert forall|n: Seq<char>| #[trigger] after.inodes().dom().contains(n) implies {
            &&& after.inodes()[n].0 < after.next()
            &&& after.fingerprints().dom().contains(after.inodes()[n].0)
            &&& after.fingerprints()[after.inodes()[n].0]@ == n
        } by {
            if before.inodes().dom().contains(n) {
                if let TrustStep::Withdrawn(name, removed) = step {
                    if removed {
                        assert(before.inodes().dom().contains(name));
                        assert(before.fingerprints()[before.inodes()[name].0]@ == name);
                    }
                }
            }
        }
    }

    /// After `from`, the inode that was given to `name` is that of nobody else.
    proof fn lemma_inode_stays(
        states: Seq<Self>,
        steps: Seq<TrustStep>,
        from: int,
        to: int,
        name: Seq<char>,
        ino: INodeNo,
    )
        requires
            Self::is_history(states, steps),
            states[0].numbered(),
            0 <= from < to <= steps.len(),
            steps[from] == TrustStep::Approved(name, ino),
        ensures
            states[to].numbered(),
            ino.0 < states[to].next(),
            forall|other: Seq<char>| #[trigger]
                states[to].inodes().dom().contains(other) && states[to].inodes()[other] == ino
                    ==> other == name,
        decreases to,
    {
        Self::lemma_all_numbered(states, steps, to - 1);
        Self::lemma_step_numbered(states[to - 1], states[to], steps[to - 1]);
        if to - 1 > from {
            Self::lemma_inode_stays(states, steps, from, to - 1, name, ino);
        } else {
            assert(Self::takes(states[from], states[from + 1], steps[from]));
            assert(states[to].inodes().dom().contains(name));
        }
        assert forall|other: Seq<char>| #[trigger]
            states[to].inodes().dom().contains(other) && states[to].inodes()[other]
                == ino implies other == name by {
            assert(states[to].inodes().dom().contains(name) || to - 1 > from);
            if to - 1 > from {
                assert(Self::takes(states[to - 1], states[to], steps[to - 1]));
                if !states[to - 1].inodes().dom().contains(other) {
                    assert(states[to].inodes()[other].0 >= states[to - 1].next());
                } else {
                    assert(states[to - 1].inodes()[other] == ino);
                }
            }
        }
    }

    proof fn lemma_all_numbered(states: Seq<Self>, steps: Seq<TrustStep>, k: int)
        requires
            Self::is_history(states, steps),
            states[0].numbered(),
            0 <= k <= steps.len(),
        ensures
            states[k].numbered(),
        decreases k,
    {
        if k > 0 {
            Self::lemma_all_numbered(states, steps, k - 1);
            Self::lemma_step_numbered(states[k - 1], states[k], steps[k - 1]);
        }
    }

    /// No step lowers the inode that is given out next, and a fingerprint that is
    /// approved anew gets one from there on, below the next one.
    pub proof fn law_inode_counter_only_rises(before: Self, after: Self, step: TrustStep)
        requires
            Self::takes(before, after, step),
        ensures
            before.next() <= after.next(),
            step matches TrustStep::Approved(name, ino) ==> before.inodes().dom().contains(name)
                || before.next() <= ino.0 < after.next(),
    {
    }

    /// An inode that was used up, and that nobody has any more, is given to nobody
    /// again.
    pub proof fn law_used_inode_stays_unused(
        states: Seq<Self>,
        steps: Seq<TrustStep>,
        from: int,
        to: int,
        ino: INodeNo,
    )
        requires
            Self::is_history(states, steps),
            0 <= from <= to <= steps.len(),
            ino.0 < states[from].next(),
            forall|name: Seq<char>| #[trigger]
                states[from].inodes().dom().contains(name) ==> states[from].inodes()[name] != ino,
        ensures
            ino.0 < states[to].next(),
            forall|name: Seq<char>| #[trigger]
                states[to].inodes().dom().contains(name) ==> states[to].inodes()[name] != ino,
            to < steps.len() && steps[to] is Approved ==> steps[to]->Approved_1 != ino,
        decreases to - from,
    {
        if from < to {
            Self::law_used_inode_stays_unused(states, steps, from, to - 1, ino);
            assert(Self::takes(states[to - 1], states[to], steps[to - 1]));
            assert forall|name: Seq<char>| #[trigger]
                states[to].inodes().dom().contains(name) implies states[to].inodes()[name]
                != ino by {
                if states[to - 1].inodes().dom().contains(name) {
                    assert(states[to - 1].inodes()[name] != ino);
                }
            }
        }
        if to < steps.len() {
            assert(Self::takes(states[to], states[to + 1], steps[to]));
        }
    }

    /// Over any history no inode is given to two clients: where an approval gives an
    /// inode that was given before, it is that of the same fingerprint, which still
    /// has it, and nothing changes.
    pub proof fn law_inodes_are_given_out_once(
        states: Seq<Self>,
        steps: Seq<TrustStep>,
        earlier: int,
        later: int,
    )
        requires
            Self::is_history(states, steps),
            states[0].consistent(),
            0 <= earlier < later < steps.len(),
            steps[earlier] is Approved,
            steps[later] is Approved,
            steps[earlier]->Approved_1 == steps[later]->Approved_1,
        ensures
            steps[earlier]->Approved_0 == steps[later]->Approved_0,
            states[later].inodes().dom().contains(steps[later]->Approved_0),
            states[later + 1].same_clients(states[later]),
    {
        let name = steps[earlier]->Approved_0;
        let ino = steps[earlier]->Approved_1;
        let again = steps[later]->Approved_0;
        Self::lemma_inode_stays(states, steps, earlier, later, name, ino);
        assert(Self::takes(states[later], states[later + 1], steps[later]));
        if !states[later].inodes().dom().contains(again) {
            assert(ino == INodeNo(states[later].next()));
        }
    }

    /// Approving a fingerprint twice is approving it once: the second time
    /// gives the same inode and changes nothing.
    pub proof fn law_approval_is_idempotent(
        before: Self,
        once: Self,
        twice: Self,
        name: Seq<char>,
        first: INodeNo,
        second: INodeNo,
    )
        requires
            Self::approves(before, once, name, first),
            Self::approves(once, twice, name, second),
        ensures
            second == first,
            twice.same_clients(once),
            twice.logs() == once.logs(),
    {
    }

    /// Withdrawing an approval that was just given leaves the clients as they
    /// were, but for the inode that is used up.
    pub proof fn law_withdrawal_undoes_approval(
        before: Self,
        approved: Self,
        after: Self,
        name: Seq<char>,
        ino: INodeNo,
        removed: bool,
    )
        requires
            before.consistent(),
            !before.inodes().dom().contains(name),
            Self::approves(before, approved, name, ino),
            Self::withdraws(approved, after, name, removed),
        ensures
            removed,
            after.inodes() == before.inodes(),
            after.fingerprints() == before.fingerprints(),
            after.logs() == before.logs(),
    {
        assert(!before.fingerprints().dom().contains(ino.0)) by {
            if before.fingerprints().dom().contains(ino.0) {
                let other = before.fingerprints()[ino.0]@;
                assert(before.inodes().dom().contains(other));
            }
        }
        assert(after.inodes() =~= before.inodes());
        assert(after.fingerprints().dom() =~= before.fingerprints().dom());
        assert(after.fingerprints() =~= before.fingerprints());
    }

    /// A state stays consistent where only its next inode moves: up, or anywhere while
    /// nobody is approved.
    proof fn lemma_consistent(before: Self, after: Self)
        requires
            before.consistent(),
            after.inodes() == before.inodes(),
            after.listing() == before.listing(),
            after.fingerprints() == before.fingerprints(),
            before.next() <= after.next() || before.fingerprints() == Map::<u64, String>::empty(),
        ensures
            after.consistent(),
    {
        assert forall|i: int| 0 <= i < after.listing().len() implies {
            &&& after.inodes().dom().contains((#[trigger] after.listing()[i]).0@)
            &&& after.inodes()[after.listing()[i].0@] == after.listing()[i].1
        } by {
            assert(before.inodes().dom().contains(before.listing()[i].0@));
        }
        assert forall|name: Seq<char>| #[trigger]
            after.inodes().dom().contains(name) implies {
            &&& after.inodes()[name].0 < after.next()
            &&& after.fingerprints().dom().contains(after.inodes()[name].0)
            &&& after.fingerprints()[after.inodes()[name].0]@ == name
        } by {
            assert(before.inodes().dom().contains(name));
        }
        assert forall|ino: u64| #[trigger] after.fingerprints().dom().contains(ino) implies {
            &&& after.inodes().dom().contains(after.fingerprints()[ino]@)
            &&& after.inodes()[after.fingerprints()[ino]@] == INodeNo(ino)
        } by {
            assert(before.fingerprints().dom().contains(ino));
        }
    }

    /// A state that trusts nobody, with empty logs.
    pub fn new() -> (state: Self)
        ensures
            state.inodes() == Map::<Seq<char>, INodeNo>::empty(),
            state.listing() == Seq::<(String, INodeNo)>::empty(),
            state.fingerprints() == Map::<u64, String>::empty(),
            state.next() == 0,
            state.logs().0 == Seq::<Seq<char>>::empty(),
            state.logs().1 == Seq::<Seq<char>>::empty(),
            state.logs().2 == Seq::<Seq<char>>::empty(),
            state.logs_bounded(),
            state.consistent(),
    {
        ClientTrustState {
            approved_name_to_ino: NameTable::new(),
            approved_ino_to_name: HashMap::new(),
            next_ino: 0,
            approved_log: VecDeque::new(),
            pending_log: VecDeque::new(),
            rejected_log: VecDeque::new(),
        }
    }

    /// Sets the inode of the next fingerprint to be approved.
    pub fn set_next_ino(&mut self, next_ino: u64)
        ensures
            final(self).inodes() == old(self).inodes(),
            final(self).listing() == old(self).listing(),
            final(self).fingerprints() == old(self).fingerprints(),
            final(self).next() == next_ino,
            final(self).logs() == old(self).logs(),
            old(self).consistent() && (old(self).next() <= next_ino || old(self).fingerprints()
                == Map::<u64, String>::empty()) ==> final(self).consistent(),
    {
        self.next_ino = next_ino;
        proof {
            if old(self).consistent() && (old(self).next() <= next_ino || old(self).fingerprints()
                == Map::<u64, String>::empty()) {
                Self::lemma_consistent(*old(self), *self);
            }
        }
    }

    /// Approves `fingerprint` and returns the inode of its file: the one it
    /// has if it is approved already, else a new one.
    pub fn insert_approved(&mut self, fingerprint: &str) -> (ino: INodeNo)
        requires
            old(self).inodes().dom().contains(fingerprint@) || old(self).next() < u64::MAX,
        ensures
            Self::approves(*old(self), *final(self), fingerprint@, ino),
            old(self).consistent() ==> final(self).consistent(),
    {
        if let Some(ino) = self.approved_name_to_ino.get(fingerprint) {
            return *ino;
        }
        let ino = INodeNo(self.next_ino);
        self.next_ino = self.next_ino + 1;
        self.approved_name_to_ino.set(String::from_str(fingerprint), ino);
        self.approved_ino_to_name.insert(ino.0, String::from_str(fingerprint));
        assert(self.listing().drop_last() =~= old(self).listing());
        proof {
            if old(self).consistent() {
                Self::law_approved_client_is_found(
                    *old(self),
                    *self,
                    fingerprint@,
                    ino,
                    fingerprint@,
                );
            }
        }
        ino
    }

    /// Withdraws the approval of `fingerprint`; says whether it was approved.
    pub fn remove_approved(&mut self, fingerprint: &str) -> (removed: bool)
        ensures
            Self::withdraws(*old(self), *final(self), fingerprint@, removed),
            old(self).consistent() ==> final(self).consistent(),
    {
        match self.approved_name_to_ino.remove(fingerprint) {
            Some(ino) => {
                proof {
                    let i = choose|i: int|
                        old(self).approved_name_to_ino.is_at(fingerprint@, i)
                            && self.approved_name_to_ino.items()
                                == old(self).approved_name_to_ino.items().remove(i);
                    assert(old(self).listing()[i].0@ == fingerprint@);
                    let table = old(self).approved_name_to_ino;
                    if old(self).consistent() {
                        assert forall|k: int| 0 <= k < self.listing().len() implies {
                            &&& self.inodes().dom().contains((#[trigger] self.listing()[k]).0@)
                            &&& self.inodes()[self.listing()[k].0@] == self.listing()[k].1
                        } by {
                            let x = if k < i {
                                k
                            } else {
                                k + 1
                            };
                            let entry = old(self).listing()[x];
                            assert(self.listing()[k] == entry);
                            assert(table.items()[x].0@ != table.items()[i].0@);
                            assert(old(self).inodes().dom().contains(entry.0@));
                        }
                    }
                }
                let ghost listing = self.listing();
                let ghost inodes = self.inodes();
                self.approved_ino_to_name.remove(&ino.0);
                assert(self.listing() == listing && self.inodes() == inodes);
                assert(old(self).consistent() ==> self.consistent());
                true
            },
            None => {
                proof {
                    assert(self.inodes() =~= old(self).inodes());
                    if old(self).consistent() {
                        Self::lemma_consistent(*old(self), *self);
                    }
                }
                false
            },
        }
    }

    /// The inode of `fingerprint`, if it is approved.
    pub fn ino_by_fingerprint(&self, fingerprint: &str) -> (ino: Option<INodeNo>)
        ensures
            ino == (if self.inodes().dom().contains(fingerprint@) {
                Some(self.inodes()[fingerprint@])
            } else {
                None
            }),
    {
        match self.approved_name_to_ino.get(fingerprint) {
            Some(ino) => Some(*ino),
            None => None,
        }
    }

    /// The approved fingerprint whose file has the inode `ino`.
    pub fn fingerprint_by_ino(&self, ino: INodeNo) -> (fingerprint: Option<&str>)
        ensures
            fingerprint is Some <==> self.fingerprints().dom().contains(ino.0),
            fingerprint matches Some(f) ==> f@ == self.fingerprints()[ino.0]@,
    {
        match self.approved_ino_to_name.get(&ino.0) {
            Some(fingerprint) => Some(fingerprint.as_str()),
            None => None,
        }
    }

    /// The approved fingerprints and their inodes.
    pub fn approved_entries(&self) -> (entries: Vec<(String, INodeNo)>)
        ensures
            entries@.len() == self.listing().len(),
            forall|i: int|
                0 <= i < entries@.len() ==> {
                    &&& (#[trigger] entries@[i]).0@ == self.listing()[i].0@
                    &&& entries@[i].1 == self.listing()[i].1
                    &&& self.inodes().dom().contains(entries@[i].0@)
                    &&& self.inodes()[entries@[i].0@] == entries@[i].1
                },
            forall|name: Seq<char>| #[trigger]
                self.inodes().dom().contains(name) ==> exists|i: int|
                    0 <= i < entries@.len() && (#[trigger] entries@[i]).0@ == name,
    {
        let mut entries: Vec<(String, INodeNo)> = Vec::new();
        let mut i: usize = 0;
        let count: usize = self.approved_name_to_ino.len();
        while i < count
            invariant
                count == self.listing().len(),
                self.approved_name_to_ino.wf(),
                i <= count,
                entries@.len() == i,
                forall|k: int|
                    0 <= k < i ==> {
                        &&& (#[trigger] entries@[k]).0@ == self.listing()[k].0@
                        &&& entries@[k].1 == self.listing()[k].1
                        &&& self.inodes().dom().contains(entries@[k].0@)
                        &&& self.inodes()[entries@[k].0@] == entries@[k].1
                    },
            decreases count - i,
        {
            let (fingerprint, ino) = self.approved_name_to_ino.entry(i);
            entries.push((String::from_str(fingerprint), *ino));
            i = i + 1;
        }
        assert forall|name: Seq<char>| #[trigger]
            self.inodes().dom().contains(name) implies exists|i: int|
            0 <= i < entries@.len() && (#[trigger] entries@[i]).0@ == name by {
            let k = self.approved_name_to_ino.lemma_position(name);
            assert(entries@[k].0@ == name);
        }
        entries
    }

    /// Logs the attempt of a client that is approved.
    pub fn log_approved(&mut self, entry: &str)
        ensures
            final(self).same_clients(*old(self)),
            final(self).logs() == with_approved(old(self).logs(), entry@),
            old(self).logs_bounded() ==> final(self).logs_bounded(),
    {
        push_bounded(&mut self.approved_log, String::from_str(entry));
    }

    /// Logs the attempt of a client that is not approved yet.
    pub fn log_pending(&mut self, entry: &str)
        ensures
            final(self).same_clients(*old(self)),
            final(self).logs() == with_pending(old(self).logs(), entry@),
            old(self).logs_bounded() ==> final(self).logs_bounded(),
    {
        push_bounded(&mut self.pending_log, String::from_str(entry));
    }

    /// Logs an attempt that failed for another reason.
    pub fn log_rejected(&mut self, entry: &str)
        ensures
            final(self).same_clients(*old(self)),
            final(self).logs() == with_rejected(old(self).logs(), entry@),
            old(self).logs_bounded() ==> final(self).logs_bounded(),
    {
        push_bounded(&mut self.rejected_log, String::from_str(entry));
    }

    /// The content of the log of approved attempts.
    pub fn approved_log_content(&self) -> (content: String)
        ensures
            content@ == joined(self.logs().0),
    {
        join_log(&self.approved_log)
    }

    /// The content of the log of pending attempts.
    pub fn pending_log_content(&self) -> (content: String)
        ensures
            content@ == joined(self.logs().1),
    {
        join_log(&self.pending_log)
    }

    /// The content of the log of rejected attempts.
    pub fn rejected_log_content(&self) -> (content: String)
        ensures
            content@ == joined(self.logs().2),
    {
        join_log(&self.rejected_log)
    }
}

} // verus!
