//! The store itself: the records of one store file, held in memory while one
//! command runs on them.

use vstd::prelude::*;
use vstd::string::StringExecFns;
use crate::laws::{
    add_touches_one_pane, missing_pane_is_left_alone, prune_with_nothing_listed, records_of_a_pane,
};
use crate::models::{Notification, Record, read, read_state, unread, unread_state};
use crate::text::{is_among, texts};
use crate::table::{
    affected, cleaned, cutoff, dismissed, filter_keeps_well_formed, filter_step, has_pane,
    is_listing, is_unread, listed_before, listed_in, marked_read, not_before, not_of, of_pane,
    panes_distinct, panes_of, pruned, slot_is_unique, slot_of, states_known, unread_records,
    upserted, well_formed,
};

verus! {

/// The records that a sequence of notifications stands for.
pub open spec fn records(rows: Seq<Notification>) -> Seq<Record> {
    rows.map_values(|n: Notification| n@)
}

/// Why a set of rows is not a store.
#[derive(Debug, Clone, Copy, PartialEq, Eq, Structural)]
pub enum OpenError {
    /// A row is neither unread nor read.
    UnknownState,
    /// Two rows belong to one pane.
    DuplicatePane,
}

impl OpenError {
    /// What is wrong, in words.
    pub open spec fn text(self) -> Seq<char> {
        match self {
            OpenError::UnknownState => "store holds a notification of unknown state"@,
            OpenError::DuplicatePane => "store holds two notifications for one pane"@,
        }
    }

    /// What is wrong, in words.
    pub fn message(&self) -> (message: String)
        ensures
            message@ == self.text(),
    {
        match self {
            OpenError::UnknownState => String::from_str(
                "store holds a notification of unknown state",
            ),
            OpenError::DuplicatePane => String::from_str(
                "store holds two notifications for one pane",
            ),
        }
    }
}

/// The notifications of one store, at most one per pane.
pub struct Database {
    rows: Vec<Notification>,
}

impl View for Database {
    type V = Seq<Record>;

    closed spec fn view(&self) -> Seq<Record> {
        records(self.rows@)
    }
}

/// The first row before `end` that belongs to `pane`.
fn position_before(rows: &Vec<Notification>, pane: &String, end: usize) -> (found: Option<usize>)
    requires
        end <= rows.len(),
    ensures
        match found {
            Some(i) => i < end && rows[i as int].pane@ == pane@,
            None => forall|k: int| 0 <= k < end ==> rows[k].pane@ != pane@,
        },
{
    let mut i: usize = 0;
    while i < end
        invariant
            i <= end <= rows.len(),
            forall|k: int| 0 <= k < i ==> rows[k].pane@ != pane@,
        decreases end - i,
    {
        if rows[i].pane.eq(pane) {
            return Some(i);
        }
        i += 1;
    }
    None
}

impl Database {
    #[verifier::type_invariant]
    spec fn valid(&self) -> bool {
        well_formed(records(self.rows@))
    }

    /// Opens the store over the rows as they were read from its file, in the
    /// order in which they were written. Rows that break the rules of the store
    /// are refused: first one with a state that is neither unread nor read, then
    /// two for one pane.
    pub fn open(rows: Vec<Notification>) -> (opened: Result<Database, OpenError>)
        ensures
            match opened {
                Ok(db) => well_formed(records(rows@)) && db@ == records(rows@),
                Err(OpenError::UnknownState) => !states_known(records(rows@)),
                Err(OpenError::DuplicatePane) => states_known(records(rows@)) && !panes_distinct(
                    records(rows@),
                ),
            },
    {
        let unread_text = unread_state();
        let read_text = read_state();
        let mut i: usize = 0;
        while i < rows.len()
            invariant
                i <= rows.len(),
                unread_text@ == unread(),
                read_text@ == read(),
                forall|k: int|
                    0 <= k < i ==> (#[trigger] records(rows@)[k]).state == unread() || records(
                        rows@,
                    )[k].state == read(),
            decreases rows.len() - i,
        {
            if !rows[i].state.eq(&unread_text) && !rows[i].state.eq(&read_text) {
                assert(records(rows@)[i as int].state == rows[i as int].state@);
                return Err(OpenError::UnknownState);
            }
            assert(records(rows@)[i as int].state == rows[i as int].state@);
            i += 1;
        }
        let mut j: usize = 0;
        while j < rows.len()
            invariant
                j <= rows.len(),
                states_known(records(rows@)),
                forall|a: int, b: int| 0 <= a < b < j ==> rows[a].pane@ != rows[b].pane@,
            decreases rows.len() - j,
        {
            match position_before(&rows, &rows[j].pane, j) {
                Some(k) => {
                    assert(records(rows@)[k as int].pane == records(rows@)[j as int].pane);
                    return Err(OpenError::DuplicatePane);
                },
                None => {},
            }
            j += 1;
        }
        Ok(Database { rows })
    }

    /// The store with no notification in it.
    pub fn new() -> (db: Database)
        ensures
            db@ == Seq::<Record>::empty(),
            well_formed(db@),
    {
        Database { rows: Vec::new() }
    }

    /// Every notification, newest first; of two that are equally new, the one
    /// whose pane the store has known longer comes first.
    pub fn query(&self) -> (out: Vec<Notification>)
        ensures
            is_listing(records(out@), self@),
            out@.len() == self@.len(),
            well_formed(self@),
    {
        proof {
            use_type_invariant(self);
        }
        let ghost t = records(self.rows@);
        let mut out: Vec<Notification> = Vec::new();
        let ghost mut src: Seq<int> = Seq::empty();
        let mut i: usize = 0;
        assert(t.take(0) =~= Seq::<Record>::empty());
        assert(records(out@) =~= Seq::<Record>::empty());
        while i < self.rows.len()
            invariant
                i <= self.rows.len(),
                t == records(self.rows@),
                out.len() == i,
                src.len() == i,
                forall|k: int| 0 <= k < i ==> 0 <= #[trigger] src[k] < i && out[k]@ == t[src[k]],
                forall|a: int, b: int|
                    #![trigger out[a], out[b]]
                    0 <= a < b < i ==> out[a].created_at > out[b].created_at || (out[a].created_at
                        == out[b].created_at && src[a] < src[b]),
                records(out@).to_multiset() == t.take(i as int).to_multiset(),
            decreases self.rows.len() - i,
        {
            let row = &self.rows[i];
            let mut p: usize = 0;
            while p < out.len() && out[p].created_at >= row.created_at
                invariant
                    p <= out.len(),
                    forall|k: int| 0 <= k < p ==> out[k].created_at >= row.created_at,
                decreases out.len() - p,
            {
                p += 1;
            }
            let ghost before = out@;
            let ghost before_src = src;
            out.insert(p, row.duplicate());
            proof {
                src = src.insert(p as int, i as int);
                assert(records(out@) =~= records(before).insert(p as int, t[i as int]));
                vstd::seq_lib::to_multiset_insert(records(before), p as int, t[i as int]);
                assert(t.take(i + 1) =~= t.take(i as int).push(t[i as int]));
                vstd::seq_lib::to_multiset_build(t.take(i as int), t[i as int]);
                assert forall|k: int| 0 <= k < i + 1 implies 0 <= #[trigger] src[k] < i + 1
                    && out[k]@ == t[src[k]] by {
                    if k < p {
                        assert(src[k] == before_src[k]);
                        assert(out[k] == before[k]);
                    } else if k > p {
                        assert(src[k] == before_src[k - 1]);
                        assert(out[k] == before[k - 1]);
                    }
                }
                assert forall|a: int, b: int|
                    #![trigger out[a], out[b]]
                    0 <= a < b < i + 1 implies out[a].created_at > out[b].created_at || (
                    out[a].created_at == out[b].created_at && src[a] < src[b]) by {
                    let oa = if a < p { a } else { a - 1 };
                    let ob = if b < p { b } else { b - 1 };
                    if a == p {
                        assert(out[b] == before[ob]);
                        assert(src[b] == before_src[ob]);
                        assert(before[p as int].created_at < row.created_at);
                        if p < ob {
                            let first = before[p as int];
                            assert(first.created_at > before[ob].created_at || (first.created_at
                                == before[ob].created_at && before_src[p as int] < before_src[ob]));
                        }
                    } else if b == p {
                        assert(out[a] == before[oa]);
                        assert(src[a] == before_src[oa]);
                        assert(0 <= before_src[oa] < i);
                    } else {
                        assert(out[a] == before[oa]);
                        assert(out[b] == before[ob]);
                        assert(src[a] == before_src[oa]);
                        assert(src[b] == before_src[ob]);
                    }
                }
            }
            i += 1;
        }
        proof {
            assert(t.take(i as int) =~= t);
            assert forall|a: int, b: int| 0 <= a < b < out.len() implies listed_before(
                t,
                records(out@)[a],
                records(out@)[b],
            ) by {
                assert(records(out@)[a] == out[a]@);
                assert(records(out@)[b] == out[b]@);
                slot_is_unique(t, src[a]);
                slot_is_unique(t, src[b]);
            }
        }
        out
    }

    /// The rows of the store in the order in which it holds them, as they are
    /// written back to its file.
    pub fn rows(&self) -> (out: Vec<Notification>)
        ensures
            records(out@) == self@,
            well_formed(self@),
    {
        proof {
            use_type_invariant(self);
        }
        let mut out: Vec<Notification> = Vec::new();
        let mut i: usize = 0;
        while i < self.rows.len()
            invariant
                i <= self.rows.len(),
                out@ == self.rows@.take(i as int),
            decreases self.rows.len() - i,
        {
            out.push(self.rows[i].duplicate());
            assert(self.rows@.take(i + 1) =~= self.rows@.take(i as int).push(self.rows[i as int]));
            i += 1;
        }
        assert(self.rows@.take(i as int) =~= self.rows@);
        out
    }

    /// Adds a notification for `pane` at the time `now`. A pane without a record
    /// gets one, unread. A pane whose record has this title and this message keeps
    /// it as it is, state and time of creation included. Any other record is
    /// replaced: new content, unread, created at `now`.
    pub fn add(&mut self, pane: &str, title: &str, message: &str, now: i64)
        ensures
            final(self)@ == upserted(old(self)@, pane@, title@, message@, now as int),
            final(self)@.filter(of_pane(pane@)).len() == 1,
            well_formed(final(self)@),
    {
        proof {
            use_type_invariant(&*self);
        }
        let ghost t = self@;
        proof {
            add_touches_one_pane(t, pane@, title@, message@, now as int);
            records_of_a_pane(upserted(t, pane@, title@, message@, now as int), pane@);
        }
        let pane = String::from_str(pane);
        let title = String::from_str(title);
        let message = String::from_str(message);
        let mut rows: Vec<Notification> = Vec::new();
        std::mem::swap(&mut rows, &mut self.rows);
        match position_before(&rows, &pane, rows.len()) {
            Some(i) => {
                proof {
                    assert(t[i as int].pane == pane@);
                    slot_is_unique(t, i as int);
                }
                if !(rows[i].title.eq(&title) && rows[i].message.eq(&message)) {
                    let state = unread_state();
                    rows.set(i, Notification { pane, title, message, state, created_at: now });
                }
                assert(records(rows@) =~= upserted(t, pane@, title@, message@, now as int));
            },
            None => {
                proof {
                    if has_pane(t, pane@) {
                        let k = slot_of(t, pane@);
                        assert(rows[k].pane@ == pane@);
                    }
                }
                let state = unread_state();
                rows.push(Notification { pane, title, message, state, created_at: now });
                assert(records(rows@) =~= upserted(t, pane@, title@, message@, now as int));
            },
        }
        self.rows = rows;
    }

    /// How many notifications are unread: the number of records, whatever
    /// windows their panes lie in.
    pub fn count_unread(&self) -> (count: usize)
        ensures
            count == unread_records(self@).len(),
            well_formed(self@),
    {
        proof {
            use_type_invariant(self);
        }
        let ghost t = records(self.rows@);
        let mut count: usize = 0;
        let mut i: usize = 0;
        assert(t.take(0).filter(is_unread()) =~= Seq::<Record>::empty()) by {
            reveal(Seq::filter);
        }
        while i < self.rows.len()
            invariant
                i <= self.rows.len(),
                t == records(self.rows@),
                count <= i,
                count == t.take(i as int).filter(is_unread()).len(),
            decreases self.rows.len() - i,
        {
            proof {
                filter_step(t, i as int, is_unread());
            }
            if self.rows[i].is_unread() {
                count += 1;
            }
            i += 1;
        }
        assert(t.take(i as int) =~= t);
        count
    }

    /// The panes whose notification is unread, in the order of the store.
    pub fn unread_panes(&self) -> (panes: Vec<String>)
        ensures
            texts(panes@) == panes_of(unread_records(self@)),
            well_formed(self@),
    {
        proof {
            use_type_invariant(self);
        }
        let ghost t = records(self.rows@);
        let mut panes: Vec<String> = Vec::new();
        let mut i: usize = 0;
        assert(t.take(0).filter(is_unread()) =~= Seq::<Record>::empty()) by {
            reveal(Seq::filter);
        }
        while i < self.rows.len()
            invariant
                i <= self.rows.len(),
                t == records(self.rows@),
                texts(panes@) =~= panes_of(t.take(i as int).filter(is_unread())),
            decreases self.rows.len() - i,
        {
            let ghost before = t.take(i as int).filter(is_unread());
            proof {
                filter_step(t, i as int, is_unread());
            }
            if self.rows[i].is_unread() {
                panes.push(self.rows[i].pane.clone());
                assert(panes_of(before.push(t[i as int])) =~= panes_of(before).push(
                    t[i as int].pane,
                ));
            }
            i += 1;
        }
        assert(t.take(i as int) =~= t);
        panes
    }

    /// Marks the pane's notification as read and says how many records that
    /// touched: one, or none where the pane has no notification.
    pub fn mark_read(&mut self, pane: &str) -> (updated: usize)
        ensures
            final(self)@ == marked_read(old(self)@, pane@),
            updated == affected(old(self)@, pane@),
            !has_pane(old(self)@, pane@) ==> updated == 0 && final(self)@ == old(self)@,
            well_formed(final(self)@),
    {
        proof {
            use_type_invariant(&*self);
        }
        let ghost t = self@;
        proof {
            if !has_pane(t, pane@) {
                missing_pane_is_left_alone(t, pane@);
            }
        }
        let pane = String::from_str(pane);
        let mut rows: Vec<Notification> = Vec::new();
        std::mem::swap(&mut rows, &mut self.rows);
        let updated = match position_before(&rows, &pane, rows.len()) {
            Some(i) => {
                let row = Notification {
                    pane: rows[i].pane.clone(),
                    title: rows[i].title.clone(),
                    message: rows[i].message.clone(),
                    state: read_state(),
                    created_at: rows[i].created_at,
                };
                rows.set(i, row);
                proof {
                    assert(t[i as int].pane == pane@);
                    assert forall|k: int| 0 <= k < t.len() implies records(rows@)[k]
                        == marked_read(t, pane@)[k] by {
                        if k < i {
                            assert(t[k].pane != t[i as int].pane);
                        } else if k > i {
                            assert(t[i as int].pane != t[k].pane);
                        }
                    }
                    assert(records(rows@) =~= marked_read(t, pane@));
                }
                1
            },
            None => {
                proof {
                    if has_pane(t, pane@) {
                        let k = slot_of(t, pane@);
                        assert(rows[k].pane@ == pane@);
                    }
                    assert(records(rows@) =~= marked_read(t, pane@));
                }
                0
            },
        };
        self.rows = rows;
        updated
    }

    /// Deletes the pane's notification and says how many records that deleted:
    /// one, or none where the pane has no notification.
    pub fn dismiss(&mut self, pane: &str) -> (deleted: usize)
        ensures
            final(self)@ == dismissed(old(self)@, pane@),
            deleted == affected(old(self)@, pane@),
            deleted == old(self)@.len() - final(self)@.len(),
            !has_pane(old(self)@, pane@) ==> deleted == 0 && final(self)@ == old(self)@,
            well_formed(final(self)@),
    {
        proof {
            use_type_invariant(&*self);
        }
        let ghost t = self@;
        proof {
            if !has_pane(t, pane@) {
                missing_pane_is_left_alone(t, pane@);
            }
        }
        let pane = String::from_str(pane);
        let mut kept: Vec<Notification> = Vec::new();
        let mut i: usize = 0;
        assert(t.take(0).filter(not_of(pane@)) =~= Seq::<Record>::empty()) by {
            reveal(Seq::filter);
        }
        while i < self.rows.len()
            invariant
                i <= self.rows.len(),
                t == records(self.rows@),
                panes_distinct(t),
                kept.len() <= i,
                records(kept@) =~= t.take(i as int).filter(not_of(pane@)),
                i - kept.len() == affected(t.take(i as int), pane@),
            decreases self.rows.len() - i,
        {
            proof {
                filter_step(t, i as int, not_of(pane@));
                let before = t.take(i as int);
                let after = t.take(i + 1);
                if t[i as int].pane == pane@ {
                    assert(after[i as int].pane == pane@);
                    if has_pane(before, pane@) {
                        let k = slot_of(before, pane@);
                        assert(t[k].pane == pane@);
                    }
                } else {
                    if has_pane(before, pane@) {
                        let k = slot_of(before, pane@);
                        assert(after[k].pane == pane@);
                    }
                    if has_pane(after, pane@) {
                        let k = slot_of(after, pane@);
                        assert(before[k].pane == pane@);
                    }
                }
            }
            if !self.rows[i].pane.eq(&pane) {
                kept.push(self.rows[i].duplicate());
            }
            i += 1;
        }
        proof {
            assert(t.take(i as int) =~= t);
            filter_keeps_well_formed(t, not_of(pane@));
        }
        let deleted = self.rows.len() - kept.len();
        self.rows = kept;
        deleted
    }

    /// Deletes the notifications that were created more than `retention_hours`
    /// hours before `now`, and says how many they were. One created exactly that
    /// long ago stays.
    pub fn cleanup(&mut self, retention_hours: i64, now: i64) -> (deleted: usize)
        ensures
            final(self)@ == cleaned(old(self)@, now as int, retention_hours as int),
            deleted == old(self)@.len() - final(self)@.len(),
            well_formed(final(self)@),
    {
        proof {
            use_type_invariant(&*self);
        }
        let ghost t = self@;
        let ghost keep = not_before(cutoff(now as int, retention_hours as int));
        let oldest: i128 = now as i128 - retention_hours as i128 * 3600;
        let mut kept: Vec<Notification> = Vec::new();
        let mut i: usize = 0;
        assert(t.take(0).filter(keep) =~= Seq::<Record>::empty()) by {
            reveal(Seq::filter);
        }
        while i < self.rows.len()
            invariant
                i <= self.rows.len(),
                t == records(self.rows@),
                keep == not_before(cutoff(now as int, retention_hours as int)),
                oldest == cutoff(now as int, retention_hours as int),
                kept.len() <= i,
                records(kept@) =~= t.take(i as int).filter(keep),
            decreases self.rows.len() - i,
        {
            proof {
                filter_step(t, i as int, keep);
            }
            if self.rows[i].created_at as i128 >= oldest {
                kept.push(self.rows[i].duplicate());
            }
            i += 1;
        }
        proof {
            assert(t.take(i as int) =~= t);
            filter_keeps_well_formed(t, keep);
        }
        let deleted = self.rows.len() - kept.len();
        self.rows = kept;
        deleted
    }

    /// Deletes the notifications of all panes that `valid_panes` does not list,
    /// and says how many they were. With no pane listed, every notification goes.
    pub fn prune(&mut self, valid_panes: &[String]) -> (deleted: usize)
        ensures
            final(self)@ == pruned(old(self)@, texts(valid_panes@)),
            deleted == old(self)@.len() - final(self)@.len(),
            valid_panes@.len() == 0 ==> deleted == old(self)@.len() && final(self)@.len() == 0,
            well_formed(final(self)@),
    {
        proof {
            use_type_invariant(&*self);
        }
        let ghost t = self@;
        proof {
            if valid_panes@.len() == 0 {
                assert(texts(valid_panes@) =~= Seq::<Seq<char>>::empty());
                prune_with_nothing_listed(t);
            }
        }
        let ghost keep = listed_in(texts(valid_panes@));
        let mut kept: Vec<Notification> = Vec::new();
        let mut i: usize = 0;
        assert(t.take(0).filter(keep) =~= Seq::<Record>::empty()) by {
            reveal(Seq::filter);
        }
        while i < self.rows.len()
            invariant
                i <= self.rows.len(),
                t == records(self.rows@),
                keep == listed_in(texts(valid_panes@)),
                kept.len() <= i,
                records(kept@) =~= t.take(i as int).filter(keep),
            decreases self.rows.len() - i,
        {
            proof {
                filter_step(t, i as int, keep);
            }
            if is_among(valid_panes, &self.rows[i].pane) {
                kept.push(self.rows[i].duplicate());
            }
            i += 1;
        }
        proof {
            assert(t.take(i as int) =~= t);
            filter_keeps_well_formed(t, keep);
        }
        let deleted = self.rows.len() - kept.len();
        self.rows = kept;
        deleted
    }
}

} // verus!
