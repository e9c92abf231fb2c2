//! What holds of the store whatever it holds and whatever it is asked.

use vstd::prelude::*;
use crate::models::{Record, read, states_differ, unread};
use crate::table::{
    affected, as_read, cleaned, cutoff, dismissed, filter_keeps_well_formed, fresh, has_pane,
    is_listing, listed_before, listed_in, lookup, marked_read, merged, not_before, not_of, of_pane,
    panes_distinct, pruned, slot_is_unique, slot_of, upserted, well_formed,
};

verus! {

/// One notification as it is added: title, message and time.
pub struct Addition {
    pub title: Seq<char>,
    pub message: Seq<char>,
    pub now: int,
}

/// The store after several notifications for one pane were added in turn.
pub open spec fn added_all(t: Seq<Record>, pane: Seq<char>, additions: Seq<Addition>) -> Seq<Record>
    decreases additions.len(),
{
    if additions.len() == 0 {
        t
    } else {
        let last = additions.last();
        let before = added_all(t, pane, additions.drop_last());
        upserted(before, pane, last.title, last.message, last.now)
    }
}

/// After a notification was added the store is still a store, the pane has a
/// record, and it is the one that the merge gives: the old record where the
/// content is the same, a new unread one otherwise. No other pane's record is
/// touched, and none is gained or lost.
pub proof fn add_touches_one_pane(
    t: Seq<Record>,
    pane: Seq<char>,
    title: Seq<char>,
    message: Seq<char>,
    now: int,
)
    requires
        well_formed(t),
    ensures
        well_formed(upserted(t, pane, title, message, now)),
        lookup(upserted(t, pane, title, message, now), pane) == match lookup(t, pane) {
            Some(old) => Some(merged(old, title, message, now)),
            None => Some(fresh(pane, title, message, now)),
        },
        forall|other: Seq<char>|
            other != pane ==> lookup(upserted(t, pane, title, message, now), other) == lookup(
                t,
                other,
            ),
        upserted(t, pane, title, message, now).len() == t.len() + 1 - affected(t, pane),
{
    let after = upserted(t, pane, title, message, now);
    if has_pane(t, pane) {
        let i = slot_of(t, pane);
        assert(after[i].pane == pane);
        assert forall|a: int, b: int| 0 <= a < b < after.len() implies after[a].pane
            != after[b].pane by {
            assert(after[a].pane == t[a].pane);
            assert(after[b].pane == t[b].pane);
        }
        assert forall|k: int| 0 <= k < after.len() implies (#[trigger] after[k]).state == unread()
            || after[k].state == read() by {
            if k != i {
                assert(after[k] == t[k]);
            } else {
                assert(t[i].state == unread() || t[i].state == read());
            }
        }
        slot_is_unique(after, i);
        assert forall|other: Seq<char>| other != pane implies lookup(after, other) == lookup(
            t,
            other,
        ) by {
            if has_pane(t, other) {
                let j = slot_of(t, other);
                assert(after[j] == t[j]);
                slot_is_unique(after, j);
            } else if has_pane(after, other) {
                let j = slot_of(after, other);
                assert(t[j].pane == other);
            }
        }
    } else {
        let n = t.len() as int;
        assert(after[n].pane == pane);
        assert forall|a: int, b: int| 0 <= a < b < after.len() implies after[a].pane
            != after[b].pane by {
            if b == n {
                assert(t[a].pane != pane);
            }
        }
        assert forall|k: int| 0 <= k < after.len() implies (#[trigger] after[k]).state == unread()
            || after[k].state == read() by {
            if k < n {
                assert(after[k] == t[k]);
            }
        }
        slot_is_unique(after, n);
        assert forall|other: Seq<char>| other != pane implies lookup(after, other) == lookup(
            t,
            other,
        ) by {
            if has_pane(t, other) {
                let j = slot_of(t, other);
                assert(after[j] == t[j]);
                slot_is_unique(after, j);
            } else if has_pane(after, other) {
                let j = slot_of(after, other);
                assert(t[j].pane == other);
            }
        }
    }
}

/// A notification that repeats the content of one that was read stays read:
/// add, mark as read, add the same again, and the record is as it was after its
/// first reading.
pub proof fn repeated_content_stays_read(
    t: Seq<Record>,
    pane: Seq<char>,
    title: Seq<char>,
    message: Seq<char>,
    first: int,
    second: int,
)
    requires
        well_formed(t),
    ensures
        ({
            let added = upserted(t, pane, title, message, first);
            let acknowledged = marked_read(added, pane);
            let again = upserted(acknowledged, pane, title, message, second);
            &&& again == acknowledged
            &&& lookup(again, pane) is Some
            &&& lookup(again, pane)->0.state == read()
            &&& lookup(again, pane)->0.created_at == lookup(added, pane)->0.created_at
        }),
{
    let added = upserted(t, pane, title, message, first);
    let acknowledged = marked_read(added, pane);
    add_touches_one_pane(t, pane, title, message, first);
    mark_read_touches_one_pane(added, pane);
    add_touches_one_pane(acknowledged, pane, title, message, second);
    let i = slot_of(acknowledged, pane);
    assert(acknowledged.update(i, acknowledged[i]) =~= acknowledged);
}

/// A notification with other content makes a record that was read unread
/// again, created at the time of that notification.
pub proof fn changed_content_is_unread(
    t: Seq<Record>,
    pane: Seq<char>,
    title: Seq<char>,
    message: Seq<char>,
    first: int,
    other_title: Seq<char>,
    other_message: Seq<char>,
    second: int,
)
    requires
        well_formed(t),
        other_title != title || other_message != message,
    ensures
        ({
            let added = upserted(t, pane, title, message, first);
            let acknowledged = marked_read(added, pane);
            let again = upserted(acknowledged, pane, other_title, other_message, second);
            lookup(again, pane) == Some(fresh(pane, other_title, other_message, second))
        }),
        fresh(pane, other_title, other_message, second).state == unread(),
        fresh(pane, other_title, other_message, second).created_at == second,
{
    let added = upserted(t, pane, title, message, first);
    let acknowledged = marked_read(added, pane);
    add_touches_one_pane(t, pane, title, message, first);
    mark_read_touches_one_pane(added, pane);
    add_touches_one_pane(acknowledged, pane, other_title, other_message, second);
}

/// In a store a pane that has a record has one, and a pane that has none has
/// none.
pub proof fn records_of_a_pane(t: Seq<Record>, pane: Seq<char>)
    requires
        panes_distinct(t),
    ensures
        t.filter(of_pane(pane)).len() == affected(t, pane),
    decreases t.len(),
{
    reveal(Seq::filter);
    if t.len() > 0 {
        let rest = t.drop_last();
        records_of_a_pane(rest, pane);
        if t.last().pane == pane {
            assert(t[t.len() - 1].pane == pane);
            if has_pane(rest, pane) {
                let k = slot_of(rest, pane);
                assert(t[k].pane == pane);
            }
        } else {
            if has_pane(rest, pane) {
                let k = slot_of(rest, pane);
                assert(t[k].pane == pane);
            }
            if has_pane(t, pane) {
                let k = slot_of(t, pane);
                assert(rest[k].pane == pane);
            }
        }
    }
}

/// However many notifications are added for a pane, one after the other, the
/// store holds exactly one record for it.
pub proof fn one_record_per_pane(t: Seq<Record>, pane: Seq<char>, additions: Seq<Addition>)
    requires
        well_formed(t),
        additions.len() > 0,
    ensures
        well_formed(added_all(t, pane, additions)),
        added_all(t, pane, additions).filter(of_pane(pane)).len() == 1,
    decreases additions.len(),
{
    let last = additions.last();
    let before = added_all(t, pane, additions.drop_last());
    if additions.len() > 1 {
        one_record_per_pane(t, pane, additions.drop_last());
    }
    add_touches_one_pane(before, pane, last.title, last.message, last.now);
    records_of_a_pane(added_all(t, pane, additions), pane);
}

/// Marking a pane as read leaves the store a store, sets the state of the
/// pane's record and nothing else, and touches no other pane.
pub proof fn mark_read_touches_one_pane(t: Seq<Record>, pane: Seq<char>)
    requires
        well_formed(t),
    ensures
        well_formed(marked_read(t, pane)),
        marked_read(t, pane).len() == t.len(),
        lookup(marked_read(t, pane), pane) == match lookup(t, pane) {
            Some(old) => Some(as_read(old)),
            None => None,
        },
        forall|other: Seq<char>|
            other != pane ==> lookup(marked_read(t, pane), other) == lookup(t, other),
{
    let after = marked_read(t, pane);
    assert forall|a: int, b: int| 0 <= a < b < after.len() implies after[a].pane
        != after[b].pane by {
        assert(after[a].pane == t[a].pane);
        assert(after[b].pane == t[b].pane);
    }
    assert forall|k: int| 0 <= k < after.len() implies (#[trigger] after[k]).state == unread()
        || after[k].state == read() by {
        assert(t[k].state == unread() || t[k].state == read());
    }
    assert forall|other: Seq<char>| #[trigger] has_pane(after, other) == has_pane(t, other) by {
        if has_pane(t, other) {
            let j = slot_of(t, other);
            assert(after[j].pane == other);
        }
        if has_pane(after, other) {
            let j = slot_of(after, other);
            assert(t[j].pane == other);
        }
    }
    assert forall|other: Seq<char>| has_pane(t, other) implies #[trigger] lookup(after, other)
        == Some(after[slot_of(t, other)]) by {
        let j = slot_of(t, other);
        assert(after[j].pane == other);
        slot_is_unique(after, j);
    }
}

/// A command on a pane that has no notification changes nothing and touches
/// no record: marking as read and dismissing both count zero.
pub proof fn missing_pane_is_left_alone(t: Seq<Record>, pane: Seq<char>)
    requires
        !has_pane(t, pane),
    ensures
        affected(t, pane) == 0,
        marked_read(t, pane) == t,
        dismissed(t, pane) == t,
{
    assert forall|k: int| 0 <= k < t.len() implies marked_read(t, pane)[k] == t[k] by {
        assert(t[k].pane != pane);
    }
    assert(marked_read(t, pane) =~= t);
    everything_kept(t, not_of(pane));
}

/// Where every record passes, taking out the others changes nothing.
pub proof fn everything_kept(t: Seq<Record>, keep: spec_fn(Record) -> bool)
    requires
        forall|k: int| 0 <= k < t.len() ==> keep(#[trigger] t[k]),
    ensures
        t.filter(keep) == t,
    decreases t.len(),
{
    reveal(Seq::filter);
    if t.len() > 0 {
        let rest = t.drop_last();
        assert forall|k: int| 0 <= k < rest.len() implies keep(#[trigger] rest[k]) by {
            assert(rest[k] == t[k]);
        }
        everything_kept(rest, keep);
        assert(keep(t[t.len() - 1]));
        assert(rest.push(t.last()) =~= t);
    }
}

/// Where no record passes, nothing is left.
pub proof fn nothing_kept(t: Seq<Record>, keep: spec_fn(Record) -> bool)
    requires
        forall|k: int| 0 <= k < t.len() ==> !keep(#[trigger] t[k]),
    ensures
        t.filter(keep) == Seq::<Record>::empty(),
    decreases t.len(),
{
    reveal(Seq::filter);
    if t.len() > 0 {
        let rest = t.drop_last();
        assert forall|k: int| 0 <= k < rest.len() implies !keep(#[trigger] rest[k]) by {
            assert(rest[k] == t[k]);
        }
        nothing_kept(rest, keep);
        assert(!keep(t[t.len() - 1]));
    }
}

/// What is left after some records were taken out are the records that pass,
/// each as it was.
pub proof fn kept_are_those_that_pass(t: Seq<Record>, keep: spec_fn(Record) -> bool, r: Record)
    ensures
        t.filter(keep).contains(r) <==> t.contains(r) && keep(r),
    decreases t.len(),
{
    reveal(Seq::filter);
    if t.len() > 0 {
        let rest = t.drop_last();
        kept_are_those_that_pass(rest, keep, r);
        let kept = rest.filter(keep);
        if t.filter(keep).contains(r) {
            let k = choose|k: int| 0 <= k < t.filter(keep).len() && t.filter(keep)[k] == r;
            if k < kept.len() {
                assert(kept[k] == r);
                assert(kept.contains(r));
                let j = choose|j: int| 0 <= j < rest.len() && rest[j] == r;
                assert(t[j] == r);
            } else {
                assert(t[t.len() - 1] == r);
            }
        }
        if t.contains(r) && keep(r) {
            let j = choose|j: int| 0 <= j < t.len() && t[j] == r;
            if j < rest.len() {
                assert(rest[j] == r);
                assert(rest.contains(r));
                let k = choose|k: int| 0 <= k < kept.len() && kept[k] == r;
                assert(t.filter(keep)[k] == r);
            } else {
                assert(t.filter(keep)[kept.len() as int] == r);
            }
        }
    }
}

/// Dismissing a pane leaves the store a store in which the pane has no record
/// and every other record is as it was.
pub proof fn dismiss_removes_one_pane(t: Seq<Record>, pane: Seq<char>, r: Record)
    requires
        well_formed(t),
    ensures
        well_formed(dismissed(t, pane)),
        !has_pane(dismissed(t, pane), pane),
        dismissed(t, pane).len() == t.len() - affected(t, pane),
        dismissed(t, pane).contains(r) <==> t.contains(r) && r.pane != pane,
{
    let after = dismissed(t, pane);
    filter_keeps_well_formed(t, not_of(pane));
    kept_are_those_that_pass(t, not_of(pane), r);
    if has_pane(after, pane) {
        let k = slot_of(after, pane);
        t.lemma_filter_pred(not_of(pane), k);
    }
    kept_and_taken(t, not_of(pane));
    assert(t.filter(|r: Record| !not_of(pane)(r)) =~= t.filter(of_pane(pane))) by {
        same_filter(t, |r: Record| !not_of(pane)(r), of_pane(pane));
    }
    records_of_a_pane(t, pane);
}

/// Two tests that agree on every record leave the same records.
proof fn same_filter(t: Seq<Record>, p: spec_fn(Record) -> bool, q: spec_fn(Record) -> bool)
    requires
        forall|r: Record| #[trigger] p(r) == q(r),
    ensures
        t.filter(p) == t.filter(q),
    decreases t.len(),
{
    reveal(Seq::filter);
    if t.len() > 0 {
        same_filter(t.drop_last(), p, q);
    }
}

/// The records that pass and the records that do not are all the records.
proof fn kept_and_taken(t: Seq<Record>, keep: spec_fn(Record) -> bool)
    ensures
        t.filter(keep).len() + t.filter(|r: Record| !keep(r)).len() == t.len(),
    decreases t.len(),
{
    reveal(Seq::filter);
    if t.len() > 0 {
        kept_and_taken(t.drop_last(), keep);
    }
}

/// A cleanup keeps a record if and only if it was created at the cutoff or
/// later: at `now` less the hours of retention, an hour being 3600 seconds.
/// So a record that is one second older than the cutoff goes, and one that is
/// one second younger stays.
pub proof fn cleanup_boundary(t: Seq<Record>, now: int, retention_hours: int, r: Record)
    requires
        well_formed(t),
        t.contains(r),
    ensures
        well_formed(cleaned(t, now, retention_hours)),
        cleaned(t, now, retention_hours).contains(r) <==> r.created_at >= now - retention_hours
            * 3600,
        r.created_at == now - retention_hours * 3600 - 1 ==> !cleaned(
            t,
            now,
            retention_hours,
        ).contains(r),
        r.created_at == now - retention_hours * 3600 + 1 ==> cleaned(
            t,
            now,
            retention_hours,
        ).contains(r),
{
    filter_keeps_well_formed(t, not_before(cutoff(now, retention_hours)));
    kept_are_those_that_pass(t, not_before(cutoff(now, retention_hours)), r);
}

/// Pruning keeps a record if and only if its pane is listed.
pub proof fn prune_keeps_the_listed(t: Seq<Record>, valid: Seq<Seq<char>>, r: Record)
    requires
        well_formed(t),
    ensures
        well_formed(pruned(t, valid)),
        pruned(t, valid).contains(r) <==> t.contains(r) && valid.contains(r.pane),
{
    filter_keeps_well_formed(t, listed_in(valid));
    kept_are_those_that_pass(t, listed_in(valid), r);
}

/// Pruning with no pane listed deletes every record.
pub proof fn prune_with_nothing_listed(t: Seq<Record>)
    ensures
        pruned(t, Seq::<Seq<char>>::empty()) == Seq::<Record>::empty(),
        t.len() - pruned(t, Seq::<Seq<char>>::empty()).len() == t.len(),
{
    nothing_kept(t, listed_in(Seq::<Seq<char>>::empty()));
}

/// Two sequences of the same records, both in the order of a listing, are one
/// sequence.
proof fn same_order_same_sequence(t: Seq<Record>, a: Seq<Record>, b: Seq<Record>)
    requires
        a.to_multiset() == b.to_multiset(),
        forall|i: int, j: int|
            #![trigger a[i], a[j]]
            0 <= i < j < a.len() ==> listed_before(t, a[i], a[j]),
        forall|i: int, j: int|
            #![trigger b[i], b[j]]
            0 <= i < j < b.len() ==> listed_before(t, b[i], b[j]),
    ensures
        a == b,
    decreases a.len(),
{
    vstd::seq_lib::to_multiset_len(a);
    vstd::seq_lib::to_multiset_len(b);
    if a.len() > 0 {
        vstd::seq_lib::to_multiset_contains(a, a[0]);
        vstd::seq_lib::to_multiset_contains(b, a[0]);
        vstd::seq_lib::to_multiset_contains(a, b[0]);
        vstd::seq_lib::to_multiset_contains(b, b[0]);
        assert(a.contains(a[0]));
        assert(b.contains(b[0]));
        let k = choose|k: int| 0 <= k < b.len() && b[k] == a[0];
        let j = choose|j: int| 0 <= j < a.len() && a[j] == b[0];
        if k > 0 {
            assert(listed_before(t, b[0], b[k]));
            if j > 0 {
                assert(listed_before(t, a[0], a[j]));
            }
        }
        assert(a[0] == b[0]);
        vstd::seq_lib::to_multiset_remove(a, 0);
        vstd::seq_lib::to_multiset_remove(b, 0);
        assert(a.remove(0) =~= a.drop_first());
        assert(b.remove(0) =~= b.drop_first());
        let rest_a = a.drop_first();
        let rest_b = b.drop_first();
        assert forall|i: int, j: int|
            #![trigger rest_a[i], rest_a[j]]
            0 <= i < j < rest_a.len() implies listed_before(t, rest_a[i], rest_a[j]) by {
            assert(listed_before(t, a[i + 1], a[j + 1]));
        }
        assert forall|i: int, j: int|
            #![trigger rest_b[i], rest_b[j]]
            0 <= i < j < rest_b.len() implies listed_before(t, rest_b[i], rest_b[j]) by {
            assert(listed_before(t, b[i + 1], b[j + 1]));
        }
        same_order_same_sequence(t, rest_a, rest_b);
        assert(a =~= seq![a[0]] + rest_a);
        assert(b =~= seq![b[0]] + rest_b);
    }
}

/// A store has one listing: the order of its records leaves nothing open.
pub proof fn listing_is_unique(t: Seq<Record>, first: Seq<Record>, second: Seq<Record>)
    requires
        is_listing(first, t),
        is_listing(second, t),
    ensures
        first == second,
        first.len() == t.len(),
{
    same_order_same_sequence(t, first, second);
    vstd::seq_lib::to_multiset_len(first);
    vstd::seq_lib::to_multiset_len(t);
}

/// A listing is newest first, and holds the records of the store and no other.
pub proof fn listing_is_newest_first(t: Seq<Record>, out: Seq<Record>, r: Record)
    requires
        is_listing(out, t),
    ensures
        forall|i: int, j: int|
            #![trigger out[i], out[j]]
            0 <= i < j < out.len() ==> out[i].created_at >= out[j].created_at,
        out.contains(r) <==> t.contains(r),
{
    vstd::seq_lib::to_multiset_contains(out, r);
    vstd::seq_lib::to_multiset_contains(t, r);
    assert forall|i: int, j: int|
        #![trigger out[i], out[j]]
        0 <= i < j < out.len() implies out[i].created_at >= out[j].created_at by {
        assert(listed_before(t, out[i], out[j]));
    }
}

/// A pane whose notification got new content after another pane's
/// notification was added is listed before that pane: of the panes `a`, then
/// `b`, then `a` again with other content, the listing is `a`, `b`, unless the
/// clock went back between the last two.
pub proof fn changed_pane_is_listed_first(
    a: Seq<char>,
    b: Seq<char>,
    first: Addition,
    second: Addition,
    third: Addition,
    out: Seq<Record>,
)
    requires
        a != b,
        third.title != first.title || third.message != first.message,
        second.now <= third.now,
        is_listing(
            out,
            upserted(
                upserted(
                    upserted(Seq::<Record>::empty(), a, first.title, first.message, first.now),
                    b,
                    second.title,
                    second.message,
                    second.now,
                ),
                a,
                third.title,
                third.message,
                third.now,
            ),
        ),
    ensures
        out == seq![
            fresh(a, third.title, third.message, third.now),
            fresh(b, second.title, second.message, second.now),
        ],
{
    let t0 = Seq::<Record>::empty();
    let t1 = upserted(t0, a, first.title, first.message, first.now);
    let t2 = upserted(t1, b, second.title, second.message, second.now);
    let t3 = upserted(t2, a, third.title, third.message, third.now);
    let ra = fresh(a, third.title, third.message, third.now);
    let rb = fresh(b, second.title, second.message, second.now);
    assert(!has_pane(t0, a));
    assert(t1 =~= seq![fresh(a, first.title, first.message, first.now)]);
    assert(!has_pane(t1, b));
    assert(t2 =~= seq![fresh(a, first.title, first.message, first.now), rb]);
    assert(panes_distinct(t2));
    assert(t2[0].pane == a);
    slot_is_unique(t2, 0);
    assert(t3 =~= seq![ra, rb]);
    assert(panes_distinct(t3));
    slot_is_unique(t3, 0);
    slot_is_unique(t3, 1);
    vstd::seq_lib::to_multiset_len(out);
    vstd::seq_lib::to_multiset_len(t3);
    assert(out.len() == 2);
    assert forall|k: int| 0 <= k < 2 implies out[k] == ra || out[k] == rb by {
        vstd::seq_lib::to_multiset_contains(out, out[k]);
        vstd::seq_lib::to_multiset_contains(t3, out[k]);
        assert(out.contains(out[k]));
        assert(t3.contains(out[k]));
        let j = choose|j: int| 0 <= j < t3.len() && t3[j] == out[k];
        assert(j == 0 || j == 1);
    }
    assert(listed_before(t3, out[0], out[1]));
    assert(out =~= seq![ra, rb]);
}

/// The time of creation of a pane's record never goes back, as long as the
/// clock does not: a notification that comes no earlier than the record was
/// created leaves it no older.
pub proof fn creation_time_never_goes_back(
    old: Record,
    title: Seq<char>,
    message: Seq<char>,
    now: int,
)
    requires
        old.created_at <= now,
    ensures
        merged(old, title, message, now).created_at >= old.created_at,
        merged(old, title, message, now).pane == old.pane,
{
}

/// A record that was read becomes unread in one way only: by a notification
/// with other content.
pub proof fn read_stays_read_without_new_content(
    old: Record,
    title: Seq<char>,
    message: Seq<char>,
    now: int,
)
    requires
        old.state == read(),
    ensures
        merged(old, title, message, now).state == unread() <==> (old.title != title || old.message
            != message),
        as_read(old).state == read(),
{
    states_differ();
}

} // verus!
