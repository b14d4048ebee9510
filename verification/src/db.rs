//! The layout store: the last known-good snapshot of each combination of
//! displays, kept under the combination's signature.
//!
//! The store holds its entries in memory. Each operation that changes it says
//! what changed, so that the caller can bring a durable copy up to date.

use vstd::prelude::*;
use crate::state::{signature, OutputView, State};

verus! {

/// The mathematical value of a store: the snapshot kept under each signature.
pub type Layouts = Map<Seq<char>, Seq<OutputView>>;

/// What a lookup under `sign` finds in `layouts`.
pub open spec fn lookup(layouts: Layouts, sign: Seq<char>) -> Option<Seq<OutputView>> {
    if layouts.dom().contains(sign) {
        Some(layouts[sign])
    } else {
        None
    }
}

/// The store after `snapshot` was saved: it is kept under its own signature
/// and replaces what was kept there; every other entry stays.
pub open spec fn saved(layouts: Layouts, snapshot: Seq<OutputView>) -> Layouts {
    layouts.insert(signature(snapshot), snapshot)
}

/// The store after the entry for the signature of `snapshot` was removed.
pub open spec fn removed(layouts: Layouts, snapshot: Seq<OutputView>) -> Layouts {
    layouts.remove(signature(snapshot))
}

/// What saving a snapshot did to the store.
#[derive(Clone, Copy, Debug, PartialEq, Eq, Structural)]
pub enum SaveOutcome {
    /// The same snapshot was already kept: nothing was written.
    Unchanged,
    /// Another snapshot was kept under the signature and was overwritten.
    Updated,
    /// Nothing was kept under the signature: a new entry was made.
    Inserted,
}

/// What saving `snapshot` does to `layouts`.
pub open spec fn save_outcome(layouts: Layouts, snapshot: Seq<OutputView>) -> SaveOutcome {
    match lookup(layouts, signature(snapshot)) {
        Some(previous) => if previous == snapshot {
            SaveOutcome::Unchanged
        } else {
            SaveOutcome::Updated
        },
        None => SaveOutcome::Inserted,
    }
}

/// The one way in which a lookup fails.
#[derive(Clone, Copy, Debug, PartialEq, Eq, Structural)]
pub enum StoreError {
    /// No layout is kept under the signature.
    NotFound,
}

struct Row {
    sign: String,
    state: State,
}

spec fn has_key(rows: Seq<Row>, sign: Seq<char>, i: int) -> bool {
    0 <= i < rows.len() && rows[i].sign@ == sign
}

spec fn table(rows: Seq<Row>) -> Layouts {
    Map::new(
        |sign: Seq<char>| exists|i: int| has_key(rows, sign, i),
        |sign: Seq<char>| rows[choose|i: int| has_key(rows, sign, i)].state@,
    )
}

spec fn rows_inv(rows: Seq<Row>) -> bool {
    &&& forall|i: int| 0 <= i < rows.len() ==> (#[trigger] rows[i]).sign@ == signature(rows[i].state@)
    &&& forall|i: int, j: int|
        0 <= i < j < rows.len() ==> (#[trigger] rows[i]).sign@ != (#[trigger] rows[j]).sign@
}

proof fn lemma_table_at(rows: Seq<Row>, i: int)
    requires
        rows_inv(rows),
        0 <= i < rows.len(),
    ensures
        table(rows).dom().contains(rows[i].sign@),
        table(rows)[rows[i].sign@] == rows[i].state@,
{
    let sign = rows[i].sign@;
    assert(has_key(rows, sign, i));
    let k = choose|k: int| has_key(rows, sign, k);
    if k < i {
        assert(rows[k].sign@ != rows[i].sign@);
    } else if i < k {
        assert(rows[i].sign@ != rows[k].sign@);
    }
}

proof fn lemma_table_push(rows: Seq<Row>, row: Row)
    requires
        rows_inv(rows),
        row.sign@ == signature(row.state@),
        forall|i: int| 0 <= i < rows.len() ==> (#[trigger] rows[i]).sign@ != row.sign@,
    ensures
        rows_inv(rows.push(row)),
        table(rows.push(row)) == table(rows).insert(row.sign@, row.state@),
{
    let after = rows.push(row);
    assert(rows_inv(after));
    assert forall|sign: Seq<char>| #[trigger]
        table(after).dom().contains(sign) == table(rows).insert(
            row.sign@,
            row.state@,
        ).dom().contains(sign) by {
        if table(after).dom().contains(sign) {
            let i = choose|i: int| has_key(after, sign, i);
            if i < rows.len() {
                assert(has_key(rows, sign, i));
            }
        }
        if table(rows).dom().contains(sign) {
            let i = choose|i: int| has_key(rows, sign, i);
            assert(has_key(after, sign, i));
        }
        if sign == row.sign@ {
            assert(has_key(after, sign, rows.len() as int));
        }
    }
    assert forall|sign: Seq<char>| #[trigger] table(after).dom().contains(sign) implies table(
        after,
    )[sign] == table(rows).insert(row.sign@, row.state@)[sign] by {
        let i = choose|i: int| has_key(after, sign, i);
        lemma_table_at(after, i);
        if i < rows.len() {
            lemma_table_at(rows, i);
        }
    }
    assert(table(after) =~= table(rows).insert(row.sign@, row.state@));
}

proof fn lemma_table_update(rows: Seq<Row>, at: int, row: Row)
    requires
        rows_inv(rows),
        0 <= at < rows.len(),
        row.sign@ == signature(row.state@),
        row.sign@ == rows[at].sign@,
    ensures
        rows_inv(rows.update(at, row)),
        table(rows.update(at, row)) == table(rows).insert(row.sign@, row.state@),
{
    let after = rows.update(at, row);
    assert(rows_inv(after)) by {
        assert forall|i: int, j: int| 0 <= i < j < after.len() implies (#[trigger] after[i]).sign@
            != (#[trigger] after[j]).sign@ by {
            assert(after[i].sign@ == rows[i].sign@);
            assert(after[j].sign@ == rows[j].sign@);
        }
    }
    assert forall|sign: Seq<char>| #[trigger]
        table(after).dom().contains(sign) == table(rows).insert(
            row.sign@,
            row.state@,
        ).dom().contains(sign) by {
        if table(after).dom().contains(sign) {
            let i = choose|i: int| has_key(after, sign, i);
            assert(has_key(rows, sign, i));
        }
        if table(rows).dom().contains(sign) {
            let i = choose|i: int| has_key(rows, sign, i);
            assert(has_key(after, sign, i));
        }
        if sign == row.sign@ {
            assert(has_key(after, sign, at));
        }
    }
    assert forall|sign: Seq<char>| #[trigger] table(after).dom().contains(sign) implies table(
        after,
    )[sign] == table(rows).insert(row.sign@, row.state@)[sign] by {
        let i = choose|i: int| has_key(after, sign, i);
        lemma_table_at(after, i);
        if i != at {
            lemma_table_at(rows, i);
        }
    }
    assert(table(after) =~= table(rows).insert(row.sign@, row.state@));
}

proof fn lemma_table_remove(rows: Seq<Row>, at: int)
    requires
        rows_inv(rows),
        0 <= at < rows.len(),
    ensures
        rows_inv(rows.remove(at)),
        table(rows.remove(at)) == table(rows).remove(rows[at].sign@),
{
    let after = rows.remove(at);
    let gone = rows[at].sign@;
    assert(rows_inv(after)) by {
        assert forall|i: int| 0 <= i < after.len() implies (#[trigger] after[i]).sign@
            == signature(after[i].state@) by {
            let io = if i < at { i } else { i + 1 };
            assert(after[i] == rows[io]);
        }
        assert forall|i: int, j: int| 0 <= i < j < after.len() implies (#[trigger] after[i]).sign@
            != (#[trigger] after[j]).sign@ by {
            let io = if i < at { i } else { i + 1 };
            let jo = if j < at { j } else { j + 1 };
            assert(after[i] == rows[io]);
            assert(after[j] == rows[jo]);
        }
    }
    assert forall|sign: Seq<char>| #[trigger]
        table(after).dom().contains(sign) == table(rows).remove(gone).dom().contains(sign) by {
        if table(after).dom().contains(sign) {
            let i = choose|i: int| has_key(after, sign, i);
            let io = if i < at { i } else { i + 1 };
            assert(after[i] == rows[io]);
            assert(has_key(rows, sign, io));
            if io < at {
                assert(rows[io].sign@ != rows[at].sign@);
            } else {
                assert(rows[at].sign@ != rows[io].sign@);
            }
        }
        if table(rows).dom().contains(sign) && sign != gone {
            let i = choose|i: int| has_key(rows, sign, i);
            let ia = if i < at { i } else { i - 1 };
            assert(after[ia] == rows[i]);
            assert(has_key(after, sign, ia));
        }
    }
    assert forall|sign: Seq<char>| #[trigger] table(after).dom().contains(sign) implies table(
        after,
    )[sign] == table(rows).remove(gone)[sign] by {
        let i = choose|i: int| has_key(after, sign, i);
        let io = if i < at { i } else { i + 1 };
        assert(after[i] == rows[io]);
        lemma_table_at(after, i);
        lemma_table_at(rows, io);
    }
    assert(table(after) =~= table(rows).remove(gone));
}

/// A snapshot that was saved is what a lookup under its signature finds.
pub proof fn lemma_save_then_get(layouts: Layouts, snapshot: Seq<OutputView>)
    ensures
        lookup(saved(layouts, snapshot), signature(snapshot)) == Some(snapshot),
{
}

/// Saving the same snapshot a second time changes nothing and writes
/// nothing: the store holds one entry for it, as after the first time.
pub proof fn lemma_save_idempotent(layouts: Layouts, snapshot: Seq<OutputView>)
    ensures
        saved(saved(layouts, snapshot), snapshot) == saved(layouts, snapshot),
        save_outcome(saved(layouts, snapshot), snapshot) == SaveOutcome::Unchanged,
        saved(layouts, snapshot).dom() == layouts.dom().insert(signature(snapshot)),
{
    assert(saved(saved(layouts, snapshot), snapshot) =~= saved(layouts, snapshot));
}

/// After the entry of a snapshot was removed, a lookup under its signature
/// finds nothing.
pub proof fn lemma_remove_then_get(layouts: Layouts, snapshot: Seq<OutputView>)
    ensures
        lookup(removed(layouts, snapshot), signature(snapshot)).is_none(),
{
}

/// Saving or removing a snapshot leaves the entries of every other
/// signature as they were.
pub proof fn lemma_other_entries_stay(layouts: Layouts, snapshot: Seq<OutputView>, sign: Seq<char>)
    requires
        sign != signature(snapshot),
    ensures
        lookup(saved(layouts, snapshot), sign) == lookup(layouts, sign),
        lookup(removed(layouts, snapshot), sign) == lookup(layouts, sign),
{
}

/// The layout store.
pub struct AutoRandrDB {
    rows: Vec<Row>,
}

impl View for AutoRandrDB {
    type V = Layouts;

    closed spec fn view(&self) -> Layouts {
        table(self.rows@)
    }
}

impl AutoRandrDB {
    /// Each row is kept under the signature of its snapshot, and no two rows
    /// under the same one.
    #[verifier::type_invariant]
    spec fn inv(self) -> bool {
        rows_inv(self.rows@)
    }

    /// Takes the rows out and leaves the store empty, so that the rows can
    /// change while the store itself stays well-formed.
    fn take_rows(&mut self) -> (rows: Vec<Row>)
        ensures
            rows@ == old(self).rows@,
            final(self).rows@.len() == 0,
    {
        let mut rows: Vec<Row> = Vec::new();
        core::mem::swap(&mut self.rows, &mut rows);
        rows
    }

    /// Puts `rows` in the place of the rows that the store holds.
    fn put_rows(&mut self, rows: Vec<Row>)
        requires
            rows_inv(rows@),
        ensures
            final(self).rows@ == rows@,
    {
        let mut rows = rows;
        core::mem::swap(&mut self.rows, &mut rows);
    }

    /// A store without entries.
    pub fn new() -> (r: Self)
        ensures
            r@ == Map::<Seq<char>, Seq<OutputView>>::empty(),
    {
        let r = AutoRandrDB { rows: Vec::new() };
        assert(r@ =~= Map::<Seq<char>, Seq<OutputView>>::empty());
        r
    }

    fn find(&self, sign: &String) -> (r: Option<usize>)
        ensures
            match r {
                Some(i) => i < self.rows@.len() && self.rows@[i as int].sign@ == sign@,
                None => forall|i: int| 0 <= i < self.rows@.len() ==> (#[trigger] self.rows@[i]).sign@
                    != sign@,
            },
    {
        let mut i: usize = 0;
        while i < self.rows.len()
            invariant
                i <= self.rows.len(),
                forall|j: int| 0 <= j < i ==> (#[trigger] self.rows@[j]).sign@ != sign@,
            decreases self.rows.len() - i,
        {
            if self.rows[i].sign == *sign {
                return Some(i);
            }
            i = i + 1;
        }
        None
    }

    /// The layout kept under `output_sign`, or `NotFound` where none is kept.
    pub fn get_state(&self, output_sign: &str) -> (r: Result<State, StoreError>)
        ensures
            match r {
                Ok(state) => lookup(self@, output_sign@) == Some(state@),
                Err(e) => e == StoreError::NotFound && lookup(self@, output_sign@).is_none(),
            },
    {
        proof {
            use_type_invariant(self);
        }
        let sign = output_sign.to_owned();
        match self.find(&sign) {
            Some(i) => {
                proof {
                    lemma_table_at(self.rows@, i as int);
                }
                Ok(self.rows[i].state.clone())
            },
            None => {
                assert(!self@.dom().contains(output_sign@)) by {
                    if self@.dom().contains(output_sign@) {
                        let i = choose|i: int| has_key(self.rows@, output_sign@, i);
                        assert(self.rows@[i].sign@ == output_sign@);
                    }
                }
                Err(StoreError::NotFound)
            },
        }
    }

    /// Keeps `state` as the layout of its combination of displays. Where the
    /// same snapshot is already kept, nothing is written; where another one
    /// is kept for the combination, it is overwritten.
    pub fn save_state(&mut self, state: &State) -> (outcome: SaveOutcome)
        ensures
            final(self)@ == saved(old(self)@, state@),
            outcome == save_outcome(old(self)@, state@),
    {
        proof {
            use_type_invariant(&*self);
        }
        let sign = state.outputs_sign();
        match self.find(&sign) {
            Some(i) => {
                proof {
                    lemma_table_at(self.rows@, i as int);
                }
                if self.rows[i].state.same(state) {
                    assert(self@ =~= saved(self@, state@));
                    SaveOutcome::Unchanged
                } else {
                    let row = Row { sign, state: state.clone() };
                    proof {
                        lemma_table_update(self.rows@, i as int, row);
                    }
                    let mut rows = self.take_rows();
                    rows.set(i, row);
                    self.put_rows(rows);
                    SaveOutcome::Updated
                }
            },
            None => {
                assert(!self@.dom().contains(sign@)) by {
                    if self@.dom().contains(sign@) {
                        let i = choose|i: int| has_key(self.rows@, sign@, i);
                        assert(self.rows@[i].sign@ == sign@);
                    }
                }
                let row = Row { sign, state: state.clone() };
                proof {
                    lemma_table_push(self.rows@, row);
                }
                let mut rows = self.take_rows();
                rows.push(row);
                self.put_rows(rows);
                SaveOutcome::Inserted
            },
        }
    }

    /// Drops the layout kept for the combination of displays of `state`.
    /// The result says whether there was one.
    pub fn remove_state(&mut self, state: &State) -> (found: bool)
        ensures
            final(self)@ == removed(old(self)@, state@),
            found == old(self)@.dom().contains(signature(state@)),
    {
        proof {
            use_type_invariant(&*self);
        }
        let sign = state.outputs_sign();
        match self.find(&sign) {
            Some(i) => {
                proof {
                    lemma_table_at(self.rows@, i as int);
                    lemma_table_remove(self.rows@, i as int);
                }
                let mut rows = self.take_rows();
                rows.remove(i);
                self.put_rows(rows);
                true
            },
            None => {
                assert(!self@.dom().contains(sign@)) by {
                    if self@.dom().contains(sign@) {
                        let i = choose|i: int| has_key(self.rows@, sign@, i);
                        assert(self.rows@[i].sign@ == sign@);
                    }
                }
                assert(self@ =~= removed(self@, state@));
                false
            },
        }
    }
}

} // verus!
