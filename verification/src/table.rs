//! The store as a mathematical value: a sequence of records, in the order in
//! which their panes were first seen, and what each command makes of it.

use vstd::prelude::*;
use crate::models::{Record, read, unread};

verus! {

/// No pane has two records.
pub open spec fn panes_distinct(t: Seq<Record>) -> bool {
    forall|i: int, j: int| 0 <= i < j < t.len() ==> t[i].pane != t[j].pane
}

/// Every record is unread or read.
pub open spec fn states_known(t: Seq<Record>) -> bool {
    forall|i: int| 0 <= i < t.len() ==> (#[trigger] t[i]).state == unread() || t[i].state == read()
}

/// What holds of the store at all times.
pub open spec fn well_formed(t: Seq<Record>) -> bool {
    panes_distinct(t) && states_known(t)
}

/// Whether the pane has a record.
pub open spec fn has_pane(t: Seq<Record>, pane: Seq<char>) -> bool {
    exists|i: int| 0 <= i < t.len() && (#[trigger] t[i]).pane == pane
}

/// Where the pane's record stands, if it has one.
pub open spec fn slot_of(t: Seq<Record>, pane: Seq<char>) -> int {
    choose|i: int| 0 <= i < t.len() && (#[trigger] t[i]).pane == pane
}

/// The pane's record.
pub open spec fn lookup(t: Seq<Record>, pane: Seq<char>) -> Option<Record> {
    if has_pane(t, pane) {
        Some(t[slot_of(t, pane)])
    } else {
        None
    }
}

/// A record as a first notification for its pane creates it.
pub open spec fn fresh(pane: Seq<char>, title: Seq<char>, message: Seq<char>, now: int) -> Record {
    Record { pane, title, message, state: unread(), created_at: now }
}

/// What a notification makes of the record that its pane already has: the same
/// content leaves the record as it is, other content replaces it, unread.
pub open spec fn merged(old: Record, title: Seq<char>, message: Seq<char>, now: int) -> Record {
    if old.title == title && old.message == message {
        old
    } else {
        fresh(old.pane, title, message, now)
    }
}

/// The store after a notification for `pane` was added.
pub open spec fn upserted(
    t: Seq<Record>,
    pane: Seq<char>,
    title: Seq<char>,
    message: Seq<char>,
    now: int,
) -> Seq<Record> {
    if has_pane(t, pane) {
        let i = slot_of(t, pane);
        t.update(i, merged(t[i], title, message, now))
    } else {
        t.push(fresh(pane, title, message, now))
    }
}

/// The record, acknowledged.
pub open spec fn as_read(r: Record) -> Record {
    Record { state: read(), ..r }
}

/// The store after the pane's notification was marked as read.
pub open spec fn marked_read(t: Seq<Record>, pane: Seq<char>) -> Seq<Record> {
    t.map_values(
        |r: Record|
            if r.pane == pane {
                as_read(r)
            } else {
                r
            },
    )
}

/// How many records a command on one pane touches.
pub open spec fn affected(t: Seq<Record>, pane: Seq<char>) -> nat {
    if has_pane(t, pane) {
        1
    } else {
        0
    }
}

/// The records of one pane.
pub open spec fn of_pane(pane: Seq<char>) -> spec_fn(Record) -> bool {
    |r: Record| r.pane == pane
}

/// The records of all panes but one.
pub open spec fn not_of(pane: Seq<char>) -> spec_fn(Record) -> bool {
    |r: Record| r.pane != pane
}

/// The store after the pane's notification was dismissed.
pub open spec fn dismissed(t: Seq<Record>, pane: Seq<char>) -> Seq<Record> {
    t.filter(not_of(pane))
}

/// The oldest time of creation that a cleanup at `now` leaves alone.
pub open spec fn cutoff(now: int, retention_hours: int) -> int {
    now - retention_hours * 3600
}

/// The records that are not older than the cutoff.
pub open spec fn not_before(cutoff: int) -> spec_fn(Record) -> bool {
    |r: Record| r.created_at >= cutoff
}

/// The store after a cleanup at `now`.
pub open spec fn cleaned(t: Seq<Record>, now: int, retention_hours: int) -> Seq<Record> {
    t.filter(not_before(cutoff(now, retention_hours)))
}

/// The records of the panes that are listed.
pub open spec fn listed_in(valid: Seq<Seq<char>>) -> spec_fn(Record) -> bool {
    |r: Record| valid.contains(r.pane)
}

/// The store after all panes but the listed ones were pruned.
pub open spec fn pruned(t: Seq<Record>, valid: Seq<Seq<char>>) -> Seq<Record> {
    t.filter(listed_in(valid))
}

/// The records that nobody has acknowledged.
pub open spec fn is_unread() -> spec_fn(Record) -> bool {
    |r: Record| r.state == unread()
}

/// The unread records, in the order of the store.
pub open spec fn unread_records(t: Seq<Record>) -> Seq<Record> {
    t.filter(is_unread())
}

/// The panes of the records, in their order.
pub open spec fn panes_of(t: Seq<Record>) -> Seq<Seq<char>> {
    t.map_values(|r: Record| r.pane)
}

/// Whether `a` is listed before `b`: the newer one first, and of two that are
/// equally new the one that the store holds first.
pub open spec fn listed_before(t: Seq<Record>, a: Record, b: Record) -> bool {
    a.created_at > b.created_at || (a.created_at == b.created_at && slot_of(t, a.pane) < slot_of(
        t,
        b.pane,
    ))
}

/// Whether `out` is the listing of the store: every record once, newest first.
pub open spec fn is_listing(out: Seq<Record>, t: Seq<Record>) -> bool {
    &&& out.to_multiset() == t.to_multiset()
    &&& forall|i: int, j: int| 0 <= i < j < out.len() ==> listed_before(t, out[i], out[j])
}

/// In a store without duplicates a pane's record stands where it is found.
pub proof fn slot_is_unique(t: Seq<Record>, i: int)
    requires
        panes_distinct(t),
        0 <= i < t.len(),
    ensures
        has_pane(t, t[i].pane),
        slot_of(t, t[i].pane) == i,
        lookup(t, t[i].pane) == Some(t[i]),
{
    let j = slot_of(t, t[i].pane);
    assert(0 <= j < t.len() && t[j].pane == t[i].pane);
    if j < i {
        assert(t[j].pane != t[i].pane);
    } else if i < j {
        assert(t[i].pane != t[j].pane);
    }
}

/// Filtering one record more either appends it or changes nothing.
pub proof fn filter_step(t: Seq<Record>, i: int, keep: spec_fn(Record) -> bool)
    requires
        0 <= i < t.len(),
    ensures
        t.take(i + 1).filter(keep) == if keep(t[i]) {
            t.take(i).filter(keep).push(t[i])
        } else {
            t.take(i).filter(keep)
        },
{
    assert(t.take(i + 1) =~= t.take(i).push(t[i]));
    t.take(i).lemma_filter_push(t[i], keep);
}

/// What is left of a store after some records were taken out is a store, and
/// holds no pane that was not there before.
pub proof fn filter_keeps_well_formed(t: Seq<Record>, keep: spec_fn(Record) -> bool)
    requires
        well_formed(t),
    ensures
        well_formed(t.filter(keep)),
        forall|pane: Seq<char>| has_pane(t.filter(keep), pane) ==> has_pane(t, pane),
    decreases t.len(),
{
    reveal(Seq::filter);
    if t.len() > 0 {
        let rest = t.drop_last();
        let kept = rest.filter(keep);
        filter_keeps_well_formed(rest, keep);
        assert forall|pane: Seq<char>| has_pane(t.filter(keep), pane) implies has_pane(
            t,
            pane,
        ) by {
            let k = slot_of(t.filter(keep), pane);
            if k < kept.len() {
                assert(kept[k].pane == pane);
                assert(has_pane(kept, pane));
                assert(has_pane(rest, pane));
                let j = slot_of(rest, pane);
                assert(rest[j].pane == pane);
                assert(t[j].pane == pane);
            } else {
                assert(t[t.len() - 1].pane == pane);
            }
        }
        if keep(t.last()) {
            let out = kept.push(t.last());
            assert forall|i: int, j: int| 0 <= i < j < out.len() implies out[i].pane
                != out[j].pane by {
                if j == kept.len() {
                    if out[i].pane == t.last().pane {
                        assert(kept[i].pane == t.last().pane);
                        assert(has_pane(kept, t.last().pane));
                        assert(has_pane(rest, t.last().pane));
                        let k = slot_of(rest, t.last().pane);
                        assert(rest[k].pane == t.last().pane);
                        assert(t[k].pane == t[t.len() - 1].pane);
                    }
                }
            }
            assert forall|i: int| 0 <= i < out.len() implies (#[trigger] out[i]).state == unread()
                || out[i].state == read() by {
                if i == kept.len() {
                    assert(out[i] == t[t.len() - 1]);
                }
            }
        }
    }
}

} // verus!
