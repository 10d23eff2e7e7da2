//! The learning agent: the value table, epsilon-greedy action selection and
//! the TD(0) update rule.
//!
//! Value estimates are fixed-point `i64` numbers counting thousandths of a
//! unit, and the hyperparameters `alpha`, `gamma` and `epsilon` are
//! thousandths held in a `u32` (`1000` stands for `1.0`). Estimates for a
//! pair never stored read as `0` — the optimistic-neutral default that the
//! learning dynamics rely on.

use vstd::arithmetic::div_mod::lemma_div_nonincreasing;
use vstd::arithmetic::div_mod::lemma_div_pos_is_pos;
use vstd::prelude::*;

use crate::rng::rand_below;
use crate::snake_env::StateKey;

verus! {

/// One stored estimate: the value, in thousandths, of taking `action`.
pub struct ActionValue {
    pub action: u8,
    pub value: i64,
}

/// The estimates stored for one state, one per action seen so far.
pub struct ValueRow {
    pub key: StateKey,
    pub entries: Vec<ActionValue>,
}

/// The learned mapping from state key and action to a value estimate.
/// Lookups scan for the first row with the key and the first entry with the
/// action, and read `0` where none is stored; rows only ever grow and are
/// never evicted.
pub struct ValueTable {
    pub rows: Vec<ValueRow>,
}

/// Whether some entry of the row carries the action `a`.
pub open spec fn row_has(entries: Seq<ActionValue>, a: u8) -> bool {
    exists|i: int| 0 <= i < entries.len() && entries[i].action == a
}

/// The value the row stores for `a`: the first entry that carries `a`, or
/// the neutral default `0` when none does.
pub open spec fn row_val(entries: Seq<ActionValue>, a: u8) -> int
    decreases entries.len(),
{
    if entries.len() == 0 {
        0
    } else if entries[0].action == a {
        entries[0].value as int
    } else {
        row_val(entries.drop_first(), a)
    }
}

/// The greatest value stored in a nonempty row.
pub open spec fn row_max(entries: Seq<ActionValue>) -> int
    recommends
        entries.len() >= 1,
    decreases entries.len(),
{
    if entries.len() <= 1 {
        entries[0].value as int
    } else {
        let m = row_max(entries.drop_last());
        if entries[entries.len() - 1].value > m {
            entries[entries.len() - 1].value as int
        } else {
            m
        }
    }
}

/// Whether some row of the table carries the key `k`.
pub open spec fn tbl_has(rows: Seq<ValueRow>, k: StateKey) -> bool {
    exists|i: int| 0 <= i < rows.len() && rows[i].key == k
}

/// The entries of the first row carrying `k`, or the empty row when none
/// does.
pub open spec fn tbl_row(rows: Seq<ValueRow>, k: StateKey) -> Seq<ActionValue>
    decreases rows.len(),
{
    if rows.len() == 0 {
        Seq::empty()
    } else if rows[0].key == k {
        rows[0].entries@
    } else {
        tbl_row(rows.drop_first(), k)
    }
}

proof fn lemma_row_first(e: Seq<ActionValue>, a: u8, i: int)
    requires
        0 <= i < e.len(),
        e[i].action == a,
        forall|j: int| 0 <= j < i ==> e[j].action != a,
    ensures
        row_has(e, a),
        row_val(e, a) == e[i].value,
    decreases i,
{
    if i > 0 {
        lemma_row_first(e.drop_first(), a, i - 1);
    }
}

proof fn lemma_row_absent(e: Seq<ActionValue>, a: u8)
    requires
        forall|j: int| 0 <= j < e.len() ==> e[j].action != a,
    ensures
        !row_has(e, a),
        row_val(e, a) == 0,
    decreases e.len(),
{
    if e.len() > 0 {
        lemma_row_absent(e.drop_first(), a);
    }
}

/// An entry never stored reads as the neutral default `0`.
proof fn lemma_row_val_default(e: Seq<ActionValue>, a: u8)
    requires
        !row_has(e, a),
    ensures
        row_val(e, a) == 0,
    decreases e.len(),
{
    if e.len() > 0 {
        assert(forall|j: int| 0 <= j < e.len() ==> e[j].action != a);
        lemma_row_absent(e, a);
    }
}

proof fn lemma_row_update_other(e: Seq<ActionValue>, i: int, av: ActionValue, a2: u8)
    requires
        0 <= i < e.len(),
        e[i].action == av.action,
        a2 != av.action,
    ensures
        row_val(e.update(i, av), a2) == row_val(e, a2),
    decreases i,
{
    let e2 = e.update(i, av);
    if i == 0 {
        assert(e2.drop_first() =~= e.drop_first());
    } else {
        if e[0].action != a2 {
            assert(e2.drop_first() =~= e.drop_first().update(i - 1, av));
            lemma_row_update_other(e.drop_first(), i - 1, av, a2);
        }
    }
}

proof fn lemma_row_push_other(e: Seq<ActionValue>, av: ActionValue, a2: u8)
    requires
        a2 != av.action,
    ensures
        row_val(e.push(av), a2) == row_val(e, a2),
    decreases e.len(),
{
    let e2 = e.push(av);
    if e.len() == 0 {
        assert(e2.len() == 1 && e2[0] == av);
        assert(e2.drop_first() =~= Seq::<ActionValue>::empty());
        assert(row_val(e2, a2) == row_val(e2.drop_first(), a2));
        assert(row_val(e, a2) == 0);
    } else {
        assert(e2[0] == e[0]);
        if e[0].action != a2 {
            assert(e2.drop_first() =~= e.drop_first().push(av));
            lemma_row_push_other(e.drop_first(), av, a2);
            assert(row_val(e2, a2) == row_val(e2.drop_first(), a2));
            assert(row_val(e, a2) == row_val(e.drop_first(), a2));
        }
    }
}

proof fn lemma_row_max_ge(e: Seq<ActionValue>, i: int)
    requires
        0 <= i < e.len(),
    ensures
        e[i].value <= row_max(e),
    decreases e.len(),
{
    if i < e.len() - 1 {
        lemma_row_max_ge(e.drop_last(), i);
    }
}

proof fn lemma_row_val_witness(e: Seq<ActionValue>, a: u8)
    requires
        row_has(e, a),
    ensures
        exists|i: int| 0 <= i < e.len() && (#[trigger] e[i]).action == a && e[i].value == row_val(e, a),
    decreases e.len(),
{
    if e[0].action == a {
        assert(e[0].action == a && e[0].value == row_val(e, a));
    } else {
        let j = choose|j: int| 0 <= j < e.len() && e[j].action == a;
        assert(e.drop_first()[j - 1].action == a);
        lemma_row_val_witness(e.drop_first(), a);
        let i = choose|i: int|
            0 <= i < e.drop_first().len() && (#[trigger] e.drop_first()[i]).action == a
                && e.drop_first()[i].value == row_val(e.drop_first(), a);
        assert(e[i + 1].action == a && e[i + 1].value == row_val(e, a));
    }
}

proof fn lemma_row_has_tbl_has(rows: Seq<ValueRow>, k: StateKey, a: u8)
    requires
        row_has(tbl_row(rows, k), a),
    ensures
        tbl_has(rows, k),
    decreases rows.len(),
{
    if rows.len() > 0 {
        if rows[0].key == k {
        } else {
            lemma_row_has_tbl_has(rows.drop_first(), k, a);
            let i = choose|i: int|
                0 <= i < rows.drop_first().len() && rows.drop_first()[i].key == k;
            assert(rows[i + 1].key == k);
        }
    }
}

proof fn lemma_tbl_first(rows: Seq<ValueRow>, k: StateKey, i: int)
    requires
        0 <= i < rows.len(),
        rows[i].key == k,
        forall|j: int| 0 <= j < i ==> rows[j].key != k,
    ensures
        tbl_has(rows, k),
        tbl_row(rows, k) == rows[i].entries@,
    decreases i,
{
    if i > 0 {
        lemma_tbl_first(rows.drop_first(), k, i - 1);
    }
}

proof fn lemma_tbl_absent(rows: Seq<ValueRow>, k: StateKey)
    requires
        forall|j: int| 0 <= j < rows.len() ==> rows[j].key != k,
    ensures
        !tbl_has(rows, k),
        tbl_row(rows, k) == Seq::<ActionValue>::empty(),
    decreases rows.len(),
{
    if rows.len() > 0 {
        lemma_tbl_absent(rows.drop_first(), k);
    }
}

proof fn lemma_tbl_update_other(rows: Seq<ValueRow>, i: int, r2: ValueRow, k2: StateKey)
    requires
        0 <= i < rows.len(),
        rows[i].key == r2.key,
        k2 != r2.key,
    ensures
        tbl_row(rows.update(i, r2), k2) == tbl_row(rows, k2),
    decreases i,
{
    let rs2 = rows.update(i, r2);
    if i == 0 {
        assert(rs2.drop_first() =~= rows.drop_first());
    } else {
        if rows[0].key != k2 {
            assert(rs2.drop_first() =~= rows.drop_first().update(i - 1, r2));
            lemma_tbl_update_other(rows.drop_first(), i - 1, r2, k2);
        }
    }
}

proof fn lemma_tbl_push_other(rows: Seq<ValueRow>, r2: ValueRow, k2: StateKey)
    requires
        k2 != r2.key,
    ensures
        tbl_row(rows.push(r2), k2) == tbl_row(rows, k2),
    decreases rows.len(),
{
    let rs2 = rows.push(r2);
    if rows.len() == 0 {
        assert(rs2.len() == 1 && rs2[0] == r2);
        assert(rs2.drop_first() =~= Seq::<ValueRow>::empty());
        assert(tbl_row(rs2, k2) == tbl_row(rs2.drop_first(), k2));
        assert(tbl_row(rows, k2) == Seq::<ActionValue>::empty());
    } else {
        assert(rs2[0] == rows[0]);
        if rows[0].key != k2 {
            assert(rs2.drop_first() =~= rows.drop_first().push(r2));
            lemma_tbl_push_other(rows.drop_first(), r2, k2);
            assert(tbl_row(rs2, k2) == tbl_row(rs2.drop_first(), k2));
            assert(tbl_row(rows, k2) == tbl_row(rows.drop_first(), k2));
        }
    }
}

/// Index of the first row carrying `k`, with what that means for the
/// derived lookup functions.
fn find_row_idx(rows: &Vec<ValueRow>, k: StateKey) -> (r: Option<usize>)
    ensures
        match r {
            Some(i) => {
                &&& i < rows@.len()
                &&& rows@[i as int].key == k
                &&& forall|j: int| 0 <= j < i ==> rows@[j].key != k
                &&& tbl_has(rows@, k)
                &&& tbl_row(rows@, k) == rows@[i as int].entries@
            },
            None => !tbl_has(rows@, k) && tbl_row(rows@, k) == Seq::<ActionValue>::empty(),
        },
{
    let mut i: usize = 0;
    while i < rows.len()
        invariant
            i <= rows@.len(),
            forall|j: int| 0 <= j < i ==> rows@[j].key != k,
        decreases rows@.len() - i,
    {
        if rows[i].key == k {
            proof {
                lemma_tbl_first(rows@, k, i as int);
            }
            return Some(i);
        }
        i = i + 1;
    }
    proof {
        lemma_tbl_absent(rows@, k);
    }
    None
}

/// Index of the first entry carrying `a`, with what that means for the
/// derived lookup functions.
fn find_entry_idx(entries: &Vec<ActionValue>, a: u8) -> (r: Option<usize>)
    ensures
        match r {
            Some(j) => {
                &&& j < entries@.len()
                &&& entries@[j as int].action == a
                &&& forall|l: int| 0 <= l < j ==> entries@[l].action != a
                &&& row_has(entries@, a)
                &&& row_val(entries@, a) == entries@[j as int].value
            },
            None => !row_has(entries@, a) && row_val(entries@, a) == 0,
        },
{
    let mut j: usize = 0;
    while j < entries.len()
        invariant
            j <= entries@.len(),
            forall|l: int| 0 <= l < j ==> entries@[l].action != a,
        decreases entries@.len() - j,
    {
        if entries[j].action == a {
            proof {
                lemma_row_first(entries@, a, j as int);
            }
            return Some(j);
        }
        j = j + 1;
    }
    proof {
        lemma_row_absent(entries@, a);
    }
    None
}

impl ValueTable {
    /// Whether a row for `k` exists at all.
    pub open spec fn spec_has_state(self, k: StateKey) -> bool {
        tbl_has(self.rows@, k)
    }

    /// Whether a value is stored for the pair `(k, a)`.
    pub open spec fn spec_has_entry(self, k: StateKey, a: u8) -> bool {
        row_has(tbl_row(self.rows@, k), a)
    }

    /// The estimate for `(k, a)`: the stored value, or `0` when none is
    /// stored.
    pub open spec fn spec_q(self, k: StateKey, a: u8) -> int {
        row_val(tbl_row(self.rows@, k), a)
    }

    /// The greatest value stored for `k`, or `0` when the state is unseen
    /// or its row is empty.
    pub open spec fn spec_best(self, k: StateKey) -> int {
        if tbl_row(self.rows@, k).len() == 0 {
            0
        } else {
            row_max(tbl_row(self.rows@, k))
        }
    }

    pub fn new() -> (r: ValueTable)
        ensures
            r.rows@ =~= Seq::<ValueRow>::empty(),
            forall|k: StateKey, a: u8| !r.spec_has_entry(k, a),
            forall|k: StateKey, a: u8| r.spec_q(k, a) == 0,
    {
        ValueTable { rows: Vec::new() }
    }

    /// The stored estimate for `(k, a)`, read without side effect; `0`
    /// where nothing is stored.
    pub fn get(&self, k: StateKey, a: u8) -> (r: i64)
        ensures
            r as int == self.spec_q(k, a),
    {
        match find_row_idx(&self.rows, k) {
            None => 0,
            Some(i) => {
                match find_entry_idx(&self.rows[i].entries, a) {
                    None => 0,
                    Some(j) => self.rows[i].entries[j].value,
                }
            },
        }
    }

    /// Whether a value is stored for `(k, a)`.
    pub fn has_entry(&self, k: StateKey, a: u8) -> (r: bool)
        ensures
            r == self.spec_has_entry(k, a),
    {
        match find_row_idx(&self.rows, k) {
            None => false,
            Some(i) => {
                match find_entry_idx(&self.rows[i].entries, a) {
                    None => false,
                    Some(_) => true,
                }
            },
        }
    }

    /// Stores `v` for `(k, a)`, creating the row or the entry as needed.
    /// Every other pair keeps its estimate and its presence.
    pub fn store(&mut self, k: StateKey, a: u8, v: i64)
        ensures
            final(self).spec_q(k, a) == v as int,
            final(self).spec_has_entry(k, a),
            forall|k2: StateKey, a2: u8|
                k2 != k || a2 != a ==> final(self).spec_q(k2, a2) == old(self).spec_q(k2, a2),
            forall|k2: StateKey, a2: u8|
                k2 != k || a2 != a ==> final(self).spec_has_entry(k2, a2) == old(self).spec_has_entry(
                    k2,
                    a2,
                ),
            forall|k2: StateKey|
                final(self).spec_has_state(k2) == (old(self).spec_has_state(k2) || k2 == k),
    {
        let ghost rows0 = self.rows@;
        match find_row_idx(&self.rows, k) {
            Some(i) => {
                let mut row = self.rows.remove(i);
                let ghost e0 = row.entries@;
                let av = ActionValue { action: a, value: v };
                match find_entry_idx(&row.entries, a) {
                    Some(j) => {
                        row.entries.remove(j);
                        row.entries.insert(j, ActionValue { action: a, value: v });
                        proof {
                            assert(row.entries@ =~= e0.update(j as int, av));
                            lemma_row_first(row.entries@, a, j as int);
                            assert forall|a2: u8| a2 != a implies row_val(row.entries@, a2)
                                == row_val(e0, a2) by {
                                lemma_row_update_other(e0, j as int, av, a2);
                            }
                            assert forall|a2: u8| a2 != a implies row_has(row.entries@, a2)
                                == row_has(e0, a2) by {
                                if row_has(row.entries@, a2) {
                                    let l = choose|l: int|
                                        0 <= l < row.entries@.len() && row.entries@[l].action == a2;
                                    assert(e0[l].action == a2);
                                }
                                if row_has(e0, a2) {
                                    let l = choose|l: int|
                                        0 <= l < e0.len() && e0[l].action == a2;
                                    assert(row.entries@[l].action == a2);
                                }
                            }
                        }
                    },
                    None => {
                        row.entries.push(ActionValue { action: a, value: v });
                        proof {
                            lemma_row_first(row.entries@, a, e0.len() as int);
                            assert forall|a2: u8| a2 != a implies row_val(row.entries@, a2)
                                == row_val(e0, a2) by {
                                lemma_row_push_other(e0, av, a2);
                            }
                            assert forall|a2: u8| a2 != a implies row_has(row.entries@, a2)
                                == row_has(e0, a2) by {
                                if row_has(row.entries@, a2) {
                                    let l = choose|l: int|
                                        0 <= l < row.entries@.len() && row.entries@[l].action == a2;
                                    assert(l < e0.len() && e0[l].action == a2);
                                }
                                if row_has(e0, a2) {
                                    let l = choose|l: int|
                                        0 <= l < e0.len() && e0[l].action == a2;
                                    assert(row.entries@[l].action == a2);
                                }
                            }
                        }
                    },
                }
                let ghost row2 = row;
                self.rows.insert(i, row);
                proof {
                    assert(self.rows@ =~= rows0.update(i as int, row2));
                    assert(self.rows@.len() == rows0.len());
                    assert(row2.key == k);
                    assert(self.rows@[i as int] == row2);
                    assert(forall|l: int|
                        0 <= l < rows0.len() && l != i ==> self.rows@[l] == rows0[l]);
                    lemma_tbl_first(self.rows@, k, i as int);
                    assert forall|k2: StateKey| k2 != k implies tbl_row(self.rows@, k2) == tbl_row(
                        rows0,
                        k2,
                    ) by {
                        lemma_tbl_update_other(rows0, i as int, row2, k2);
                    }
                    assert forall|k2: StateKey| k2 != k implies tbl_has(self.rows@, k2) == tbl_has(
                        rows0,
                        k2,
                    ) by {
                        if tbl_has(self.rows@, k2) {
                            let l = choose|l: int|
                                0 <= l < self.rows@.len() && self.rows@[l].key == k2;
                            assert(rows0[l].key == k2);
                        }
                        if tbl_has(rows0, k2) {
                            let l = choose|l: int| 0 <= l < rows0.len() && rows0[l].key == k2;
                            assert(self.rows@[l].key == k2);
                        }
                    }
                }
            },
            None => {
                let mut entries: Vec<ActionValue> = Vec::new();
                entries.push(ActionValue { action: a, value: v });
                let row = ValueRow { key: k, entries };
                let ghost row2 = row;
                self.rows.push(row);
                proof {
                    assert(self.rows@ == rows0.push(row2));
                    assert(self.rows@.len() == rows0.len() + 1);
                    assert(self.rows@[rows0.len() as int] == row2);
                    assert(row2.key == k);
                    assert(forall|l: int| 0 <= l < rows0.len() ==> self.rows@[l] == rows0[l]);
                    assert(forall|j: int| 0 <= j < rows0.len() ==> rows0[j].key != k);
                    lemma_tbl_first(self.rows@, k, rows0.len() as int);
                    assert(row2.entries@.len() == 1 && row2.entries@[0].action == a
                        && row2.entries@[0].value == v);
                    assert(row2.entries@.drop_first() =~= Seq::<ActionValue>::empty());
                    assert(row_val(tbl_row(self.rows@, k), a) == v as int);
                    assert forall|a2: u8| a2 != a implies row_val(row2.entries@, a2) == 0 by {
                        lemma_row_absent(row2.entries@, a2);
                    }
                    assert forall|k2: StateKey| k2 != k implies tbl_row(self.rows@, k2) == tbl_row(
                        rows0,
                        k2,
                    ) by {
                        lemma_tbl_push_other(rows0, row2, k2);
                    }
                    assert forall|k2: StateKey| k2 != k implies tbl_has(self.rows@, k2) == tbl_has(
                        rows0,
                        k2,
                    ) by {
                        if tbl_has(self.rows@, k2) {
                            let l = choose|l: int|
                                0 <= l < self.rows@.len() && self.rows@[l].key == k2;
                            assert(self.rows@[l].key == k2);
                            assert(l != rows0.len());
                            assert(rows0[l].key == k2);
                        }
                        if tbl_has(rows0, k2) {
                            let l = choose|l: int| 0 <= l < rows0.len() && rows0[l].key == k2;
                            assert(self.rows@[l].key == k2);
                        }
                    }
                }
            },
        }
    }

    /// The explicit get-or-insert-default accessor: makes sure an entry for
    /// `(k, a)` exists, seeding it with the neutral `0`, and changes no
    /// estimate — a pair never stored already read as `0`.
    pub fn ensure_default(&mut self, k: StateKey, a: u8)
        ensures
            final(self).spec_has_entry(k, a),
            forall|k2: StateKey, a2: u8|
                final(self).spec_q(k2, a2) == old(self).spec_q(k2, a2),
            forall|k2: StateKey, a2: u8|
                old(self).spec_has_entry(k2, a2) ==> final(self).spec_has_entry(k2, a2),
            forall|k2: StateKey, a2: u8|
                final(self).spec_has_entry(k2, a2) ==> old(self).spec_has_entry(k2, a2) || (k2 == k
                    && a2 == a),
            forall|k2: StateKey|
                final(self).spec_has_state(k2) == (old(self).spec_has_state(k2) || k2 == k),
    {
        if !self.has_entry(k, a) {
            proof {
                lemma_row_val_default(tbl_row(self.rows@, k), a);
            }
            self.store(k, a, 0);
        } else {
            proof {
                lemma_row_has_tbl_has(self.rows@, k, a);
            }
        }
    }

    /// The greatest stored value for `k`, or `0` when the state is unseen;
    /// what a caller of the update rule must pass as the successor's best
    /// value.
    pub fn best_value(&self, k: StateKey) -> (r: i64)
        ensures
            r as int == self.spec_best(k),
    {
        match find_row_idx(&self.rows, k) {
            None => 0,
            Some(i) => {
                let entries = &self.rows[i].entries;
                if entries.len() == 0 {
                    0
                } else {
                    let mut best = entries[0].value;
                    let mut j: usize = 1;
                    while j < entries.len()
                        invariant
                            1 <= j <= entries@.len(),
                            best as int == row_max(entries@.take(j as int)),
                        decreases entries@.len() - j,
                    {
                        proof {
                            assert(entries@.take(j + 1).drop_last() =~= entries@.take(j as int));
                            assert(entries@.take(j + 1)[j as int] == entries@[j as int]);
                        }
                        if entries[j].value > best {
                            best = entries[j].value;
                        }
                        j = j + 1;
                    }
                    proof {
                        assert(entries@.take(entries@.len() as int) =~= entries@);
                    }
                    best
                }
            },
        }
    }
}

/// The best value of a state is the maximum: no stored entry for `k`
/// exceeds it. This is what a caller of the update rule hands over as the
/// successor's best value.
pub proof fn lemma_best_value_is_max(t: ValueTable, k: StateKey, a: u8)
    requires
        t.spec_has_entry(k, a),
    ensures
        t.spec_q(k, a) <= t.spec_best(k),
{
    let e = tbl_row(t.rows@, k);
    lemma_row_val_witness(e, a);
    let i = choose|i: int|
        0 <= i < e.len() && (#[trigger] e[i]).action == a && e[i].value == row_val(e, a);
    lemma_row_max_ge(e, i);
}

/// Division by 1000 truncating toward zero: the fixed-point scale
/// conversion.
pub open spec fn tdiv1000(n: int) -> int {
    if n >= 0 {
        n / 1000
    } else {
        -((-n) / 1000)
    }
}

/// The update target `reward + gamma * next_best`, in thousandths.
pub open spec fn spec_td_target(gamma: int, reward: int, next_best: int) -> int {
    reward + tdiv1000(gamma * next_best)
}

/// The ideal (unsaturated) TD(0) update
/// `q + alpha * (reward + gamma * next_best - q)`, computed in thousandths
/// with truncation toward zero at each scale conversion.
pub open spec fn spec_td_ideal(q: int, alpha: int, gamma: int, reward: int, next_best: int) -> int {
    q + tdiv1000(alpha * (spec_td_target(gamma, reward, next_best) - q))
}

/// Saturation of an ideal update into the storable `i64` range.
pub open spec fn clamp_to_i64(n: int) -> int {
    if n > i64::MAX {
        i64::MAX as int
    } else if n < i64::MIN {
        i64::MIN as int
    } else {
        n
    }
}

/// Exactly what the update rule stores for the updated pair.
pub open spec fn spec_td_update(q: int, alpha: int, gamma: int, reward: int, next_best: int) -> int {
    clamp_to_i64(spec_td_ideal(q, alpha, gamma, reward, next_best))
}

/// Fixed-point scale-down of an intermediate product: divides by 1000,
/// truncating toward zero.
fn scale_down(n: i128) -> (r: i128)
    requires
        -0x40000000000000000000000i128 <= n <= 0x40000000000000000000000i128,
    ensures
        r as int == tdiv1000(n as int),
        n >= 0 ==> 0 <= r <= n,
        n < 0 ==> n <= r <= 0,
{
    if n >= 0 {
        let q = (n as u128) / 1000;
        proof {
            lemma_div_pos_is_pos(n as int, 1000);
            lemma_div_nonincreasing(n as int, 1000);
        }
        q as i128
    } else {
        let m = -n;
        let q = (m as u128) / 1000;
        proof {
            lemma_div_pos_is_pos(m as int, 1000);
            lemma_div_nonincreasing(m as int, 1000);
        }
        -(q as i128)
    }
}

/// The TD(0) update rule on fixed-point values, saturating into `i64`.
pub fn td_update(q: i64, alpha: u32, gamma: u32, reward: i64, next_best: i64) -> (r: i64)
    requires
        alpha <= 1000,
        gamma <= 1000,
    ensures
        r as int == spec_td_update(
            q as int,
            alpha as int,
            gamma as int,
            reward as int,
            next_best as int,
        ),
{
    let g: i128 = gamma as i128;
    let nb: i128 = next_best as i128;
    proof {
        assert(-1000i128 * 0x8000000000000000i128 <= g * nb <= 1000i128
            * 0x8000000000000000i128) by (nonlinear_arith)
            requires
                0 <= g <= 1000,
                -0x8000000000000000i128 <= nb <= 0x7FFFFFFFFFFFFFFFi128,
        ;
    }
    let gnb = scale_down(g * nb);
    let target: i128 = (reward as i128) + gnb;
    let delta: i128 = target - (q as i128);
    let a: i128 = alpha as i128;
    proof {
        assert(-1002000i128 * 0x8000000000000000i128 <= a * delta <= 1002000i128
            * 0x8000000000000000i128) by (nonlinear_arith)
            requires
                0 <= a <= 1000,
                -1002i128 * 0x8000000000000000i128 <= delta <= 1002i128 * 0x8000000000000000i128,
        ;
    }
    let step = scale_down(a * delta);
    let ideal: i128 = (q as i128) + step;
    if ideal > i64::MAX as i128 {
        i64::MAX
    } else if ideal < i64::MIN as i128 {
        i64::MIN
    } else {
        ideal as i64
    }
}

/// What exploitation returns: `r` stands at some position `i` of the scan
/// order, no action in the set has a greater stored value for `k`, and
/// every action scanned before `i` has a strictly smaller one — the first
/// of the greatest wins.
pub open spec fn is_greedy_choice(t: ValueTable, k: StateKey, legal: Seq<u8>, r: u8) -> bool {
    exists|i: int|
        {
            &&& 0 <= i < legal.len()
            &&& legal[i] == r
            &&& forall|j: int|
                0 <= j < legal.len() ==> t.spec_q(k, legal[j]) <= t.spec_q(k, legal[i])
            &&& forall|j: int| 0 <= j < i ==> t.spec_q(k, legal[j]) < t.spec_q(k, legal[i])
        }
}

/// The epsilon-greedy Q-learning agent: the value table together with the
/// learning rate `alpha`, the discount `gamma` and the exploration
/// probability `epsilon`, all in thousandths. `epsilon` is decayed from
/// outside, by the orchestrator's per-episode schedule, never by the agent
/// itself.
pub struct Agent {
    pub q_table: ValueTable,
    /// Learning rate in thousandths; in (0, 1].
    pub alpha: u32,
    /// Discount factor in thousandths; in [0, 1].
    pub gamma: u32,
    /// Exploration probability in thousandths; in [0, 1].
    pub epsilon: u32,
}

impl Agent {
    /// Hyperparameters within their documented ranges.
    pub open spec fn wf(self) -> bool {
        &&& 1 <= self.alpha <= 1000
        &&& self.gamma <= 1000
        &&& self.epsilon <= 1000
    }

    /// A fresh agent with an empty value table.
    pub fn new(alpha: u32, gamma: u32, epsilon: u32) -> (r: Agent)
        requires
            1 <= alpha <= 1000,
            gamma <= 1000,
            epsilon <= 1000,
        ensures
            r.wf(),
            r.alpha == alpha,
            r.gamma == gamma,
            r.epsilon == epsilon,
            forall|k: StateKey, a: u8| !r.q_table.spec_has_entry(k, a),
            forall|k: StateKey, a: u8| r.q_table.spec_q(k, a) == 0,
            forall|k: StateKey| !r.q_table.spec_has_state(k),
    {
        Agent { q_table: ValueTable::new(), alpha, gamma, epsilon }
    }

    /// Exploitation: the first action in `legal_actions` whose stored value
    /// for `state` is greatest — a tie goes to the action scanned first.
    pub fn greedy_action(&self, state: &StateKey, legal_actions: &Vec<u8>) -> (r: u8)
        requires
            legal_actions@.len() >= 1,
        ensures
            legal_actions@.contains(r),
            is_greedy_choice(self.q_table, *state, legal_actions@, r),
    {
        let mut best_action = legal_actions[0];
        let mut best_value = self.q_table.get(*state, legal_actions[0]);
        let ghost mut best_idx: int = 0;
        let mut i: usize = 1;
        while i < legal_actions.len()
            invariant
                1 <= i <= legal_actions@.len(),
                0 <= best_idx < i,
                legal_actions@[best_idx] == best_action,
                best_value as int == self.q_table.spec_q(*state, best_action),
                forall|j: int|
                    0 <= j < i ==> self.q_table.spec_q(*state, legal_actions@[j]) <= best_value as int,
                forall|j: int|
                    0 <= j < best_idx ==> self.q_table.spec_q(*state, legal_actions@[j])
                        < best_value as int,
            decreases legal_actions@.len() - i,
        {
            let v = self.q_table.get(*state, legal_actions[i]);
            if v > best_value {
                best_action = legal_actions[i];
                best_value = v;
                proof {
                    best_idx = i as int;
                }
            }
            i = i + 1;
        }
        proof {
            assert(0 <= best_idx < legal_actions@.len() && legal_actions@[best_idx] == best_action
                && (forall|j: int|
                0 <= j < legal_actions@.len() ==> self.q_table.spec_q(*state, legal_actions@[j])
                    <= self.q_table.spec_q(*state, legal_actions@[best_idx])) && (forall|j: int|
                0 <= j < best_idx ==> self.q_table.spec_q(*state, legal_actions@[j])
                    < self.q_table.spec_q(*state, legal_actions@[best_idx])));
        }
        best_action
    }

    /// Epsilon-greedy selection. First makes sure a default entry exists
    /// for every legal action at `state` — ensure-defaults-then-read, the
    /// documented visible side effect of selection, so the table afterwards
    /// holds an entry for each legal action. Then with probability
    /// `epsilon` a uniformly drawn legal action is returned, otherwise the
    /// greedy one. No estimate changes value.
    pub fn choose_action(&mut self, state: &StateKey, legal_actions: &Vec<u8>) -> (r: u8)
        requires
            old(self).wf(),
            legal_actions@.len() >= 1,
        ensures
            final(self).wf(),
            final(self).alpha == old(self).alpha,
            final(self).gamma == old(self).gamma,
            final(self).epsilon == old(self).epsilon,
            legal_actions@.contains(r),
            forall|a: u8|
                legal_actions@.contains(a) ==> final(self).q_table.spec_has_entry(*state, a),
            forall|k2: StateKey, a2: u8|
                final(self).q_table.spec_q(k2, a2) == old(self).q_table.spec_q(k2, a2),
            forall|k2: StateKey, a2: u8|
                old(self).q_table.spec_has_entry(k2, a2) ==> final(self).q_table.spec_has_entry(
                    k2,
                    a2,
                ),
            forall|k2: StateKey, a2: u8|
                final(self).q_table.spec_has_entry(k2, a2) ==> old(self).q_table.spec_has_entry(
                    k2,
                    a2,
                ) || (k2 == *state && legal_actions@.contains(a2)),
            final(self).q_table.spec_has_state(*state),
            forall|k2: StateKey|
                final(self).q_table.spec_has_state(k2) == (old(self).q_table.spec_has_state(k2)
                    || k2 == *state),
            old(self).epsilon == 0 ==> is_greedy_choice(
                final(self).q_table,
                *state,
                legal_actions@,
                r,
            ),
    {
        let mut i: usize = 0;
        while i < legal_actions.len()
            invariant
                self.wf(),
                self.alpha == old(self).alpha,
                self.gamma == old(self).gamma,
                self.epsilon == old(self).epsilon,
                i <= legal_actions@.len(),
                forall|j: int|
                    0 <= j < i ==> self.q_table.spec_has_entry(*state, legal_actions@[j]),
                forall|k2: StateKey, a2: u8|
                    self.q_table.spec_q(k2, a2) == old(self).q_table.spec_q(k2, a2),
                forall|k2: StateKey, a2: u8|
                    old(self).q_table.spec_has_entry(k2, a2) ==> self.q_table.spec_has_entry(
                        k2,
                        a2,
                    ),
                forall|k2: StateKey, a2: u8|
                    self.q_table.spec_has_entry(k2, a2) ==> old(self).q_table.spec_has_entry(k2, a2)
                        || (k2 == *state && legal_actions@.contains(a2)),
                forall|k2: StateKey|
                    self.q_table.spec_has_state(k2) == (old(self).q_table.spec_has_state(k2) || (i
                        >= 1 && k2 == *state)),
            decreases legal_actions@.len() - i,
        {
            self.q_table.ensure_default(*state, legal_actions[i]);
            i = i + 1;
        }
        let draw = rand_below(1000) as u32;
        if draw < self.epsilon {
            let idx = rand_below(legal_actions.len());
            legal_actions[idx]
        } else {
            self.greedy_action(state, legal_actions)
        }
    }

    /// The TD(0) update for `(state, action)`:
    /// `Q <- Q + alpha * (reward + gamma * next_best - Q)` in thousandths,
    /// truncating at the scale conversions and saturating into `i64`.
    /// `next_best` must be supplied by the caller as the greatest stored
    /// value at the successor state (`0` if unseen) — the agent does not
    /// look the successor up itself, so this coupling is a contract on the
    /// caller. `_next_state` merely records that successor. No other pair's
    /// estimate or presence changes.
    pub fn update_q(
        &mut self,
        state: &StateKey,
        action: u8,
        reward: i64,
        _next_state: &StateKey,
        next_best: i64,
    )
        requires
            old(self).wf(),
        ensures
            final(self).wf(),
            final(self).alpha == old(self).alpha,
            final(self).gamma == old(self).gamma,
            final(self).epsilon == old(self).epsilon,
            final(self).q_table.spec_q(*state, action) == spec_td_update(
                old(self).q_table.spec_q(*state, action),
                old(self).alpha as int,
                old(self).gamma as int,
                reward as int,
                next_best as int,
            ),
            final(self).q_table.spec_has_entry(*state, action),
            forall|k2: StateKey, a2: u8|
                k2 != *state || a2 != action ==> final(self).q_table.spec_q(k2, a2) == old(
                    self,
                ).q_table.spec_q(k2, a2),
            forall|k2: StateKey, a2: u8|
                k2 != *state || a2 != action ==> final(self).q_table.spec_has_entry(k2, a2) == old(
                    self,
                ).q_table.spec_has_entry(k2, a2),
            forall|k2: StateKey|
                final(self).q_table.spec_has_state(k2) == (old(self).q_table.spec_has_state(k2)
                    || k2 == *state),
    {
        let q_cur = self.q_table.get(*state, action);
        let new_q = td_update(q_cur, self.alpha, self.gamma, reward, next_best);
        self.q_table.store(*state, action, new_q);
    }
}

} // verus!
