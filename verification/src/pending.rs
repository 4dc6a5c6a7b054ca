//! The pending-request table: a map from outstanding request ids to one-shot
//! response slots, and the correlation protocol proved over it.
//!
//! A waiter observes exactly one outcome: the response its id was answered
//! with, or closure of its slot. The table keeps at most one slot per id;
//! a slot leaves the table exactly once, by an answer, by being orphaned
//! when its id is reused, or by `clear` at shutdown.

use vstd::prelude::*;

use crate::decode::bytes_eq;
use crate::transport::{oneshot_send, ResponseOutcome, ResponseSender};

verus! {

broadcast use vstd::seq::group_seq_axioms, vstd::std_specs::vec::group_vec_axioms;

// ---------------------------------------------------------------------------
// The table
// ---------------------------------------------------------------------------

pub open spec fn entries_map(s: Seq<(Vec<u8>, ResponseSender)>) -> Map<Seq<u8>, ResponseSender>
    decreases s.len(),
{
    if s.len() == 0 {
        Map::empty()
    } else {
        entries_map(s.drop_last()).insert(s.last().0@, s.last().1)
    }
}

/// Outstanding request ids and the slots waiting on them.
pub struct PendingRequests {
    entries: Vec<(Vec<u8>, ResponseSender)>,
}

impl PendingRequests {
    /// At most one entry per id.
    pub closed spec fn wf(&self) -> bool {
        forall|i: int, j: int|
            0 <= i < j < self.entries@.len() ==> self.entries@[i].0@ != self.entries@[j].0@
    }

    /// The table as a map from id to its waiting slot.
    pub closed spec fn as_map(&self) -> Map<Seq<u8>, ResponseSender> {
        entries_map(self.entries@)
    }

    pub fn new() -> (r: PendingRequests)
        ensures
            r.wf(),
            r.as_map() == Map::<Seq<u8>, ResponseSender>::empty(),
    {
        PendingRequests { entries: Vec::new() }
    }

    /// Record a waiter for `id`. A prior waiter under the same id is
    /// orphaned: its slot is dropped, which its receiver observes as
    /// closure.
    pub fn insert(&mut self, id: Vec<u8>, sender: ResponseSender)
        requires
            old(self).wf(),
        ensures
            final(self).wf(),
            final(self).as_map() == old(self).as_map().insert(id@, sender),
    {
        let ghost gid = id@;
        let n = self.entries.len();
        let mut i: usize = 0;
        while i < n
            invariant
                i <= n,
                n == self.entries@.len(),
                old(self).wf(),
                self == old(self),
                id@ == gid,
                forall|t: int| 0 <= t < i as int ==> self.entries@[t].0@ != id@,
            decreases n - i,
        {
            if bytes_eq(&self.entries[i].0, &id) {
                let ghost pre = self.entries@;
                // the old slot at `i` is dropped with the replaced entry
                self.entries.remove(i);
                let pair = (id, sender);
                let ghost gpair = pair;
                self.entries.push(pair);
                proof {
                    let q = pre.remove(i as int);
                    assert(self.entries@.drop_last() =~= q);
                    assert(self.entries@.last() == gpair);
                    assert(gpair.0@ == gid && gpair.1 == sender);
                    assert(entries_map(self.entries@) == entries_map(q).insert(gid, sender));
                    lemma_entries_map_remove(pre, i as int);
                    assert(pre[i as int].0@ == gid);
                    lemma_map_remove_insert(entries_map(pre), gid, sender);
                    lemma_remove_keeps_distinct(pre, i as int);
                    assert(forall|a: int, b: int|
                        0 <= a < b < self.entries@.len() - 1 ==> self.entries@[a].0@
                            != self.entries@[b].0@);
                    assert(forall|a: int|
                        0 <= a < q.len() ==> #[trigger] q[a].0@ != gid);
                    assert(forall|a: int|
                        0 <= a < self.entries@.len() - 1 ==> #[trigger] self.entries@[a].0@
                            != self.entries@[self.entries@.len() - 1].0@);
                }
                return ;
            }
            i = i + 1;
        }
        let ghost pre = self.entries@;
        let pair = (id, sender);
        let ghost gpair = pair;
        self.entries.push(pair);
        proof {
            assert(self.entries@.drop_last() =~= pre);
            assert(self.entries@.last() == gpair);
            assert(gpair.0@ == gid);
            assert(entries_map(self.entries@) == entries_map(pre).insert(gid, sender));
            assert(forall|t: int|
                0 <= t < pre.len() ==> #[trigger] self.entries@[t] == pre[t]);
            assert(forall|t: int| 0 <= t < pre.len() ==> #[trigger] pre[t].0@ != gid);
        }
    }

    /// If a waiter for `id` exists, remove it and complete it with
    /// `response`; a line answering an unknown id changes nothing.
    pub fn respond(&mut self, id: &Vec<u8>, response: ResponseOutcome)
        requires
            old(self).wf(),
        ensures
            final(self).wf(),
            final(self).as_map() == old(self).as_map().remove(id@),
    {
        let n = self.entries.len();
        let mut i: usize = 0;
        while i < n
            invariant
                i <= n,
                n == self.entries@.len(),
                old(self).wf(),
                self == old(self),
                forall|t: int| 0 <= t < i as int ==> self.entries@[t].0@ != id@,
            decreases n - i,
        {
            if bytes_eq(&self.entries[i].0, id) {
                let ghost pre = self.entries@;
                let entry = self.entries.remove(i);
                let _ = oneshot_send(entry.1, response);
                proof {
                    lemma_entries_map_remove(pre, i as int);
                    lemma_remove_keeps_distinct(pre, i as int);
                }
                return ;
            }
            i = i + 1;
        }
        proof {
            lemma_entries_map_absent(self.entries@, id@);
            assert(self.as_map().remove(id@) =~= self.as_map());
        }
    }

    /// Drop every outstanding waiter; each observes closure of its slot.
    pub fn clear(&mut self)
        ensures
            final(self).wf(),
            final(self).as_map() == Map::<Seq<u8>, ResponseSender>::empty(),
    {
        self.entries.clear();
    }
}

impl Default for PendingRequests {
    /// An empty table.
    fn default() -> (r: PendingRequests)
        ensures
            r.wf(),
            r.as_map() == Map::<Seq<u8>, ResponseSender>::empty(),
    {
        PendingRequests::new()
    }
}

// ---------------------------------------------------------------------------
// Map lemmas for the table
// ---------------------------------------------------------------------------

/// An id that no entry carries is not in the map.
proof fn lemma_entries_map_absent(s: Seq<(Vec<u8>, ResponseSender)>, id: Seq<u8>)
    requires
        forall|t: int| 0 <= t < s.len() ==> s[t].0@ != id,
    ensures
        !entries_map(s).contains_key(id),
    decreases s.len(),
{
    if s.len() > 0 {
        assert(forall|t: int|
            0 <= t < s.len() - 1 ==> #[trigger] s.drop_last()[t] == s[t]);
        lemma_entries_map_absent(s.drop_last(), id);
    }
}

/// Removing the unique entry with a given id removes its key from the map.
proof fn lemma_entries_map_remove(s: Seq<(Vec<u8>, ResponseSender)>, i: int)
    requires
        0 <= i < s.len(),
        forall|a: int, b: int| 0 <= a < b < s.len() ==> s[a].0@ != s[b].0@,
    ensures
        entries_map(s.remove(i)) == entries_map(s).remove(s[i].0@),
    decreases s.len(),
{
    if i == s.len() - 1 {
        assert(s.remove(i) =~= s.drop_last());
        assert(forall|t: int| 0 <= t < s.len() - 1 ==> s.drop_last()[t].0@ != s[i].0@);
        lemma_entries_map_absent(s.drop_last(), s[i].0@);
        assert(entries_map(s.drop_last()).insert(s[i].0@, s[i].1).remove(s[i].0@)
            =~= entries_map(s.drop_last()));
    } else {
        let d = s.drop_last();
        assert(forall|a: int, b: int| 0 <= a < b < d.len() ==> d[a].0@ != d[b].0@);
        lemma_entries_map_remove(d, i);
        assert(s.remove(i).drop_last() =~= d.remove(i));
        assert(s.remove(i).last() == s.last());
        assert(entries_map(s.remove(i)) == entries_map(d.remove(i)).insert(
            s.last().0@,
            s.last().1,
        ));
        assert(s[i].0@ != s.last().0@);
        assert(entries_map(d).remove(s[i].0@).insert(s.last().0@, s.last().1) =~= entries_map(
            d,
        ).insert(s.last().0@, s.last().1).remove(s[i].0@));
    }
}

/// Removing a key then inserting it again is just an insert.
proof fn lemma_map_remove_insert(
    m: Map<Seq<u8>, ResponseSender>,
    id: Seq<u8>,
    tx: ResponseSender,
)
    ensures
        m.remove(id).insert(id, tx) == m.insert(id, tx),
{
    assert(m.remove(id).insert(id, tx) =~= m.insert(id, tx));
}

/// Removing an entry keeps the remaining ids distinct.
proof fn lemma_remove_keeps_distinct(s: Seq<(Vec<u8>, ResponseSender)>, i: int)
    requires
        0 <= i < s.len(),
        forall|a: int, b: int| 0 <= a < b < s.len() ==> s[a].0@ != s[b].0@,
    ensures
        forall|a: int, b: int|
            0 <= a < b < s.remove(i).len() ==> s.remove(i)[a].0@ != s.remove(i)[b].0@,
{
    assert forall|a: int, b: int|
        0 <= a < b < s.remove(i).len() implies s.remove(i)[a].0@ != s.remove(i)[b].0@ by {
        let ra: int = if a < i {
            a
        } else {
            a + 1
        };
        let rb: int = if b < i {
            b
        } else {
            b + 1
        };
        assert(s.remove(i)[a] == s[ra]);
        assert(s.remove(i)[b] == s[rb]);
    }
}

} // verus!

verus! {

// ---------------------------------------------------------------------------
// The correlation protocol
// ---------------------------------------------------------------------------
//
// The table's callers run a protocol: the writer inserts a waiter under a
// request id, the reader answers ids as responses arrive, shutdown clears
// the table. The laws below are proved over a ghost model of that protocol,
// in which the waiter created by the `k`-th operation is identified by `k`
// and a waiter's observation is its fate: the outcome it was answered with
// (`Delivered`), or closure of its dropped slot (`Closed`). The exec methods
// `insert`, `respond` and `clear` realize the three operations: their
// `as_map` transitions match `protocol_step`, and a slot leaves the table
// exactly when the model assigns its fate, completed via its one-shot sender
// or dropped.

/// One operation on the pending table.
pub enum TableOp<O> {
    Insert(Seq<u8>),
    Respond(Seq<u8>, O),
    Clear,
}

/// What one waiter eventually observes.
pub enum SlotFate<O> {
    Delivered(O),
    Closed,
}

/// The protocol state: which insert holds each id, and each retired
/// waiter's fate.
pub struct ProtocolRun<O> {
    pub table: Map<Seq<u8>, int>,
    pub fates: Map<int, SlotFate<O>>,
}

/// The waiters a `Clear` retires: every one still in the table.
pub open spec fn closed_all<O>(table: Map<Seq<u8>, int>) -> Map<int, SlotFate<O>> {
    Map::new(
        |w: int| exists|id: Seq<u8>| #[trigger] table.contains_key(id) && table[id] == w,
        |w: int| SlotFate::Closed,
    )
}

/// How the `k`-th operation changes the protocol state.
pub open spec fn protocol_step<O>(st: ProtocolRun<O>, op: TableOp<O>, k: int) -> ProtocolRun<O> {
    match op {
        TableOp::Insert(id) => ProtocolRun {
            table: st.table.insert(id, k),
            fates: if st.table.contains_key(id) {
                st.fates.insert(st.table[id], SlotFate::Closed)
            } else {
                st.fates
            },
        },
        TableOp::Respond(id, o) => if st.table.contains_key(id) {
            ProtocolRun {
                table: st.table.remove(id),
                fates: st.fates.insert(st.table[id], SlotFate::Delivered(o)),
            }
        } else {
            st
        },
        TableOp::Clear => ProtocolRun {
            table: Map::empty(),
            fates: st.fates.union_prefer_right(closed_all(st.table)),
        },
    }
}

/// The protocol state after a sequence of operations.
pub open spec fn run_protocol<O>(ops: Seq<TableOp<O>>) -> ProtocolRun<O>
    decreases ops.len(),
{
    if ops.len() == 0 {
        ProtocolRun { table: Map::<Seq<u8>, int>::empty(), fates: Map::<int, SlotFate<O>>::empty() }
    } else {
        protocol_step(run_protocol(ops.drop_last()), ops.last(), ops.len() - 1)
    }
}

/// Structural facts that hold of every run.
pub open spec fn run_inv<O>(ops: Seq<TableOp<O>>) -> bool {
    let st = run_protocol(ops);
    &&& forall|id: Seq<u8>| #[trigger] st.table.contains_key(id) ==> 0 <= st.table[id]
        < ops.len() && ops[st.table[id]] == TableOp::<O>::Insert(id)
    &&& forall|w: int| #[trigger] st.fates.contains_key(w) ==> 0 <= w < ops.len()
        && ops[w] is Insert
    &&& forall|id: Seq<u8>| #[trigger] st.table.contains_key(id) ==> !st.fates.contains_key(
        st.table[id],
    )
    &&& forall|j: int| 0 <= j < ops.len() && ops[j] is Insert ==> st.fates.contains_key(j) || (
    exists|id: Seq<u8>| #[trigger] st.table.contains_key(id) && st.table[id] == j)
}

/// Every run satisfies the structural facts.
pub proof fn lemma_run_inv<O>(ops: Seq<TableOp<O>>)
    ensures
        run_inv(ops),
    decreases ops.len(),
{
    if ops.len() > 0 {
        let prefix = ops.drop_last();
        lemma_run_inv::<O>(prefix);
        let st = run_protocol(prefix);
        let k = ops.len() - 1;
        let stp = run_protocol(ops);
        assert(forall|t: int| 0 <= t < prefix.len() ==> #[trigger] prefix[t] == ops[t]);
        match ops.last() {
            TableOp::Insert(id) => {
                assert forall|j: int|
                    0 <= j < ops.len() && ops[j] is Insert implies stp.fates.contains_key(j) || (
                exists|id2: Seq<u8>| #[trigger] stp.table.contains_key(id2) && stp.table[id2]
                    == j) by {
                    if j == k {
                        assert(stp.table.contains_key(id) && stp.table[id] == k);
                    } else {
                        if st.fates.contains_key(j) {
                        } else {
                            let id2 = choose|id2: Seq<u8>|
                                #[trigger] st.table.contains_key(id2) && st.table[id2] == j;
                            if id2 == id {
                                assert(stp.fates.contains_key(j));
                            } else {
                                assert(stp.table.contains_key(id2) && stp.table[id2] == j);
                            }
                        }
                    }
                }
            },
            TableOp::Respond(id, _) => {
                if st.table.contains_key(id) {
                    assert forall|j: int|
                        0 <= j < ops.len() && ops[j] is Insert implies stp.fates.contains_key(j)
                        || (exists|id2: Seq<u8>| #[trigger] stp.table.contains_key(id2)
                        && stp.table[id2] == j) by {
                        if st.fates.contains_key(j) || j == st.table[id] {
                        } else if ops[j] is Insert {
                            let id2 = choose|id2: Seq<u8>|
                                #[trigger] st.table.contains_key(id2) && st.table[id2] == j;
                            assert(id2 != id);
                            assert(stp.table.contains_key(id2) && stp.table[id2] == j);
                        }
                    }
                }
            },
            TableOp::Clear => {
                assert forall|j: int|
                    0 <= j < ops.len() && ops[j] is Insert implies stp.fates.contains_key(j) || (
                exists|id2: Seq<u8>| #[trigger] stp.table.contains_key(id2) && stp.table[id2]
                    == j) by {
                    if st.fates.contains_key(j) {
                        assert(stp.fates.contains_key(j));
                    } else if ops[j] is Insert {
                        let id2 = choose|id2: Seq<u8>|
                            #[trigger] st.table.contains_key(id2) && st.table[id2] == j;
                        assert(closed_all::<O>(st.table).contains_key(j));
                        assert(stp.fates.contains_key(j));
                    }
                }
                assert(forall|w: int| #[trigger] stp.fates.contains_key(w) ==> st.fates.contains_key(
                    w,
                ) || closed_all::<O>(st.table).contains_key(w));
            },
        }
    }
}

/// A waiter observes an outcome at most once: a fate, once assigned, stands
/// unchanged through every later operation.
pub proof fn lemma_fate_permanent<O>(ops: Seq<TableOp<O>>, k: int, w: int)
    requires
        0 <= k <= ops.len(),
        run_protocol(ops.take(k)).fates.contains_key(w),
    ensures
        run_protocol(ops).fates.contains_key(w),
        run_protocol(ops).fates[w] == run_protocol(ops.take(k)).fates[w],
    decreases ops.len() - k,
{
    if k < ops.len() {
        let cur = ops.take(k);
        let next = ops.take(k + 1);
        assert(next.drop_last() =~= cur);
        lemma_run_inv::<O>(cur);
        let st = run_protocol(cur);
        let stp = run_protocol(next);
        match next.last() {
            TableOp::Insert(id) => {
                assert(st.table.contains_key(id) ==> st.table[id] != w);
            },
            TableOp::Respond(id, _) => {
                assert(st.table.contains_key(id) ==> st.table[id] != w);
            },
            TableOp::Clear => {
                assert(!closed_all::<O>(st.table).contains_key(w));
            },
        }
        assert(stp.fates.contains_key(w) && stp.fates[w] == st.fates[w]);
        lemma_fate_permanent(ops, k + 1, w);
        assert(ops.take(ops.len() as int) =~= ops);
    } else {
        assert(ops.take(k) =~= ops);
    }
}

/// No waiter is lost: when the table has been cleared, every insert ever
/// made has exactly one fate on record.
pub proof fn lemma_shutdown_resolves_all<O>(ops: Seq<TableOp<O>>)
    requires
        ops.len() > 0,
        ops.last() == TableOp::<O>::Clear,
    ensures
        forall|j: int|
            0 <= j < ops.len() && ops[j] is Insert ==> run_protocol(ops).fates.contains_key(j),
{
    lemma_run_inv::<O>(ops);
    let st = run_protocol(ops);
    assert(st.table =~= Map::<Seq<u8>, int>::empty());
}

/// Answering an id delivers the response to exactly the waiter the table
/// holds for that id, and to no other; the waiter keeps that observation for
/// the rest of the run.
pub proof fn lemma_respond_delivers<O>(ops: Seq<TableOp<O>>, k: int, id: Seq<u8>, o: O)
    requires
        0 <= k < ops.len(),
        ops[k] == TableOp::Respond(id, o),
        run_protocol(ops.take(k)).table.contains_key(id),
    ensures
        run_protocol(ops).fates.contains_key(run_protocol(ops.take(k)).table[id]),
        run_protocol(ops).fates[run_protocol(ops.take(k)).table[id]] == SlotFate::Delivered(o),
        forall|w: int|
            run_protocol(ops.take(k)).table.contains_key(id) && #[trigger] run_protocol(
                ops.take(k + 1),
            ).fates.contains_key(w) && !run_protocol(ops.take(k)).fates.contains_key(w) ==> w
                == run_protocol(ops.take(k)).table[id],
{
    let cur = ops.take(k);
    let next = ops.take(k + 1);
    assert(next.drop_last() =~= cur);
    assert(next.last() == ops[k]);
    let st = run_protocol(cur);
    let w = st.table[id];
    assert(run_protocol(next).fates[w] == SlotFate::Delivered(o));
    lemma_fate_permanent(ops, k + 1, w);
}

/// Clearing the table closes every waiter still in it.
pub proof fn lemma_clear_closes<O>(ops: Seq<TableOp<O>>, k: int, w: int)
    requires
        0 <= k < ops.len(),
        ops[k] == TableOp::<O>::Clear,
        exists|id: Seq<u8>| #[trigger] run_protocol(ops.take(k)).table.contains_key(id)
            && run_protocol(ops.take(k)).table[id] == w,
    ensures
        run_protocol(ops).fates.contains_key(w),
        run_protocol(ops).fates[w] == SlotFate::<O>::Closed,
{
    let cur = ops.take(k);
    let next = ops.take(k + 1);
    assert(next.drop_last() =~= cur);
    assert(next.last() == ops[k]);
    let st = run_protocol(cur);
    lemma_run_inv::<O>(cur);
    assert(closed_all::<O>(st.table).contains_key(w));
    assert(!st.fates.contains_key(w));
    assert(run_protocol(next).fates[w] == SlotFate::<O>::Closed);
    lemma_fate_permanent(ops, k + 1, w);
}

} // verus!
