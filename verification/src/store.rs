//! An image of the `movements` table and the constraints its storage
//! enforces: `id` is the primary key and `name` is unique. Inserts that
//! violate a constraint are refused and leave the table unchanged; deletes
//! match names exactly and silently affect zero rows when nothing matches;
//! listing returns every row in storage order.

use vstd::prelude::*;

use crate::movement::Movement;
use crate::movement::PLACEHOLDER_ID;
use crate::text::str_eq;

verus! {

/// The storage constraint an insert violated. The primary key is examined
/// first, so a row that collides on both id and name reports the id.
#[derive(Debug, Clone, Copy, PartialEq, Eq, Structural)]
pub enum InsertError {
    IdConflict,
    NameConflict,
}

/// Some row of `rows` carries the identifier `id`.
pub open spec fn id_present(rows: Seq<Movement>, id: i32) -> bool {
    exists|i: int| 0 <= i < rows.len() && (#[trigger] rows[i]).id == id
}

/// Some row of `rows` carries the name `name`.
pub open spec fn name_present(rows: Seq<Movement>, name: Seq<char>) -> bool {
    exists|i: int| 0 <= i < rows.len() && (#[trigger] rows[i]).name@ == name
}

/// The table's constraints: identifiers and names are pairwise distinct.
pub open spec fn wf_rows(rows: Seq<Movement>) -> bool {
    forall|i: int, j: int|
        0 <= i < j < rows.len() ==> (#[trigger] rows[i]).id != (#[trigger] rows[j]).id
            && rows[i].name@ != rows[j].name@
}

/// Whether inserting `m` into `rows` satisfies both constraints.
pub open spec fn spec_insert_ok(rows: Seq<Movement>, m: Movement) -> bool {
    !id_present(rows, m.id) && !name_present(rows, m.name@)
}

/// The constraint reported when inserting `m` into `rows` fails.
pub open spec fn spec_insert_err(rows: Seq<Movement>, m: Movement) -> InsertError {
    if id_present(rows, m.id) {
        InsertError::IdConflict
    } else {
        InsertError::NameConflict
    }
}

/// The rows after an attempted insert: extended at the end on success,
/// unchanged on failure.
pub open spec fn spec_insert(rows: Seq<Movement>, m: Movement) -> Seq<Movement> {
    if spec_insert_ok(rows, m) {
        rows.push(m)
    } else {
        rows
    }
}

/// The rows after deleting every row named `name`.
pub open spec fn remove_name(rows: Seq<Movement>, name: Seq<char>) -> Seq<Movement>
    decreases rows.len(),
{
    if rows.len() == 0 {
        rows
    } else if rows[0].name@ == name {
        remove_name(rows.drop_first(), name)
    } else {
        seq![rows[0]] + remove_name(rows.drop_first(), name)
    }
}

/// An in-memory image of the `movements` table, rows in storage order.
pub struct MovementStore {
    rows: Vec<Movement>,
}

impl View for MovementStore {
    type V = Seq<Movement>;

    closed spec fn view(&self) -> Seq<Movement> {
        self.rows@
    }
}

impl MovementStore {
    /// The table's constraints hold of the rows.
    pub open spec fn wf(&self) -> bool {
        wf_rows(self@)
    }

    /// An empty table, as the schema statement leaves a fresh database.
    pub fn new() -> (s: MovementStore)
        ensures
            s@ == Seq::<Movement>::empty(),
            s.wf(),
    {
        MovementStore { rows: Vec::new() }
    }

    /// Whether some row carries the identifier `id`.
    pub fn contains_id(&self, id: i32) -> (r: bool)
        ensures
            r == id_present(self@, id),
    {
        let n = self.rows.len();
        let mut i: usize = 0;
        while i < n
            invariant
                0 <= i <= n,
                n == self@.len(),
                forall|j: int| 0 <= j < i ==> (#[trigger] self@[j]).id != id,
            decreases n - i,
        {
            if self.rows[i].id == id {
                return true;
            }
            i += 1;
        }
        false
    }

    /// Whether some row carries the name `name`.
    pub fn contains_name(&self, name: &str) -> (r: bool)
        ensures
            r == name_present(self@, name@),
    {
        let n = self.rows.len();
        let mut i: usize = 0;
        while i < n
            invariant
                0 <= i <= n,
                n == self@.len(),
                forall|j: int| 0 <= j < i ==> (#[trigger] self@[j]).name@ != name@,
            decreases n - i,
        {
            if str_eq(self.rows[i].name.as_str(), name) {
                return true;
            }
            i += 1;
        }
        false
    }

    /// Inserts a row. Succeeds exactly when neither constraint is violated;
    /// on failure the violated constraint is reported and the table is left
    /// unchanged, as the storage layer leaves it.
    pub fn insert(&mut self, m: Movement) -> (r: Result<(), InsertError>)
        requires
            old(self).wf(),
        ensures
            final(self).wf(),
            final(self)@ == spec_insert(old(self)@, m),
            spec_insert_ok(old(self)@, m) ==> r == Ok::<(), InsertError>(()),
            !spec_insert_ok(old(self)@, m) ==> r == Err::<(), InsertError>(
                spec_insert_err(old(self)@, m),
            ),
    {
        if self.contains_id(m.id) {
            return Err(InsertError::IdConflict);
        }
        if self.contains_name(m.name.as_str()) {
            return Err(InsertError::NameConflict);
        }
        let ghost before = self@;
        self.rows.push(m);
        proof {
            assert forall|i: int, j: int| 0 <= i < j < self@.len() implies (#[trigger] self@[i]).id
                != (#[trigger] self@[j]).id && self@[i].name@ != self@[j].name@ by {
                if j < before.len() {
                    assert(self@[i] == before[i] && self@[j] == before[j]);
                } else {
                    assert(self@[j] == m);
                    assert(self@[i] == before[i]);
                    if before[i].id == m.id {
                        assert(id_present(before, m.id));
                    }
                    if before[i].name@ == m.name@ {
                        assert(name_present(before, m.name@));
                    }
                }
            }
        }
        Ok(())
    }

    /// Deletes every row whose name matches `name` exactly and returns how
    /// many rows went away: one when the name was present, zero when it was
    /// not. Deleting an absent name is no error.
    pub fn delete_by_name(&mut self, name: &str) -> (count: usize)
        requires
            old(self).wf(),
        ensures
            final(self).wf(),
            final(self)@ == remove_name(old(self)@, name@),
            count == old(self)@.len() - final(self)@.len(),
            count == (if name_present(old(self)@, name@) { 1int } else { 0int }),
    {
        let n = self.rows.len();
        let mut i: usize = 0;
        while i < n
            invariant
                0 <= i <= n,
                *self == *old(self),
                n == self@.len(),
                old(self).wf(),
                forall|j: int| 0 <= j < i ==> (#[trigger] self@[j]).name@ != name@,
            decreases n - i,
        {
            if str_eq(self.rows[i].name.as_str(), name) {
                proof {
                    assert forall|j: int| 0 <= j < self@.len() && j != i implies (
                    #[trigger] self@[j]).name@ != name@ by {
                        if j > i {
                            assert(self@[i as int].id != self@[j].id && self@[i as int].name@
                                != self@[j].name@);
                        }
                    }
                    lemma_delete_removes_exactly(self@, name@, i as int);
                    let removed = self@.remove(i as int);
                    assert forall|a: int, b: int| 0 <= a < b < removed.len() implies (
                    #[trigger] removed[a]).id != (#[trigger] removed[b]).id && removed[a].name@
                        != removed[b].name@ by {
                        let a0 = if a < i { a } else { a + 1 };
                        let b0 = if b < i { b } else { b + 1 };
                        assert(removed[a] == self@[a0] && removed[b] == self@[b0]);
                    }
                }
                let _removed_row = self.rows.remove(i);
                return 1;
            }
            i += 1;
        }
        proof {
            lemma_delete_missing_changes_nothing(self@, name@);
        }
        0
    }

    /// Every row, in storage order.
    pub fn list(&self) -> (r: &Vec<Movement>)
        ensures
            r@ == self@,
    {
        &self.rows
    }

    /// How many rows the table holds.
    pub fn len(&self) -> (n: usize)
        ensures
            n == self@.len(),
    {
        self.rows.len()
    }
}

/// Deleting a present name removes exactly its row and no other: with the
/// name at position `k` (and names unique), the result is the table with
/// position `k` taken out and every other row kept in order.
pub proof fn lemma_delete_removes_exactly(rows: Seq<Movement>, name: Seq<char>, k: int)
    requires
        0 <= k < rows.len(),
        rows[k].name@ == name,
        forall|j: int| 0 <= j < rows.len() && j != k ==> (#[trigger] rows[j]).name@ != name,
    ensures
        remove_name(rows, name) == rows.remove(k),
    decreases k,
{
    let rest = rows.drop_first();
    if k == 0 {
        assert forall|j: int| 0 <= j < rest.len() implies (#[trigger] rest[j]).name@ != name by {
            assert(rest[j] == rows[j + 1]);
        }
        lemma_delete_missing_changes_nothing(rest, name);
        assert(rest =~= rows.remove(0));
    } else {
        assert(rows[0].name@ != name);
        assert(rest[k - 1] == rows[k]);
        assert forall|j: int| 0 <= j < rest.len() && j != k - 1 implies (#[trigger] rest[j]).name@
            != name by {
            assert(rest[j] == rows[j + 1]);
        }
        lemma_delete_removes_exactly(rest, name, k - 1);
        assert(seq![rows[0]] + rest.remove(k - 1) =~= rows.remove(k));
    }
}

/// Deleting a name that no row carries changes nothing.
pub proof fn lemma_delete_missing_changes_nothing(rows: Seq<Movement>, name: Seq<char>)
    requires
        !name_present(rows, name),
    ensures
        remove_name(rows, name) == rows,
    decreases rows.len(),
{
    if rows.len() > 0 {
        let rest = rows.drop_first();
        assert(rows[0].name@ != name);
        assert forall|j: int| 0 <= j < rest.len() implies (#[trigger] rest[j]).name@ != name by {
            assert(rest[j] == rows[j + 1]);
            if rows[j + 1].name@ == name {
                assert(name_present(rows, name));
            }
        }
        lemma_delete_missing_changes_nothing(rest, name);
        assert(seq![rows[0]] + rest =~= rows);
    }
}

/// A movement whose id and name are both fresh is accepted, and the table
/// afterwards holds it after the existing rows, every field intact.
pub proof fn lemma_insert_fresh_then_listed(rows: Seq<Movement>, m: Movement)
    requires
        !id_present(rows, m.id),
        !name_present(rows, m.name@),
    ensures
        spec_insert_ok(rows, m),
        spec_insert(rows, m).len() == rows.len() + 1,
        spec_insert(rows, m)[rows.len() as int] == m,
        forall|i: int| 0 <= i < rows.len() ==> spec_insert(rows, m)[i] == rows[i],
{
}

/// Every new movement carries the same placeholder identifier, so once a
/// first one is stored, a second insert violates the primary key whatever
/// its name, and the table stays as it was.
pub proof fn lemma_second_placeholder_insert_fails(
    rows: Seq<Movement>,
    first: Movement,
    second: Movement,
)
    requires
        first.id == PLACEHOLDER_ID,
        second.id == PLACEHOLDER_ID,
        spec_insert_ok(rows, first),
    ensures
        !spec_insert_ok(spec_insert(rows, first), second),
        spec_insert_err(spec_insert(rows, first), second) == InsertError::IdConflict,
        spec_insert(spec_insert(rows, first), second) == spec_insert(rows, first),
{
    let after = rows.push(first);
    assert(after[rows.len() as int].id == PLACEHOLDER_ID);
    assert(id_present(after, second.id));
}

/// With distinct identifiers and distinct names, both fresh, two movements
/// both persist, in order.
pub proof fn lemma_distinct_movements_both_persist(
    rows: Seq<Movement>,
    m1: Movement,
    m2: Movement,
)
    requires
        spec_insert_ok(rows, m1),
        m2.id != m1.id,
        m2.name@ != m1.name@,
        !id_present(rows, m2.id),
        !name_present(rows, m2.name@),
    ensures
        spec_insert_ok(spec_insert(rows, m1), m2),
        spec_insert(spec_insert(rows, m1), m2) == rows.push(m1).push(m2),
{
    let after = rows.push(m1);
    assert(spec_insert(rows, m1) == after);
    assert(!id_present(after, m2.id)) by {
        if id_present(after, m2.id) {
            let w = choose|w: int| 0 <= w < after.len() && (#[trigger] after[w]).id == m2.id;
            if w < rows.len() {
                assert(after[w] == rows[w]);
                assert(id_present(rows, m2.id));
            } else {
                assert(after[w] == m1);
            }
        }
    }
    assert(!name_present(after, m2.name@)) by {
        if name_present(after, m2.name@) {
            let w = choose|w: int|
                0 <= w < after.len() && (#[trigger] after[w]).name@ == m2.name@;
            if w < rows.len() {
                assert(after[w] == rows[w]);
                assert(name_present(rows, m2.name@));
            } else {
                assert(after[w] == m1);
            }
        }
    }
}

/// The rows after attempting to insert each movement of `ms` in turn.
pub open spec fn spec_insert_seq(rows: Seq<Movement>, ms: Seq<Movement>) -> Seq<Movement>
    decreases ms.len(),
{
    if ms.len() == 0 {
        rows
    } else {
        spec_insert_seq(spec_insert(rows, ms[0]), ms.drop_first())
    }
}

/// Every insert of the movements of `ms`, made in turn, succeeds.
pub open spec fn spec_insert_seq_ok(rows: Seq<Movement>, ms: Seq<Movement>) -> bool
    decreases ms.len(),
{
    if ms.len() == 0 {
        true
    } else {
        spec_insert_ok(rows, ms[0]) && spec_insert_seq_ok(spec_insert(rows, ms[0]), ms.drop_first())
    }
}

/// Inserting any number of movements with pairwise-distinct identifiers and
/// names, none already stored, succeeds at every step, and the table then
/// holds exactly the old rows followed by the new ones, every field intact.
pub proof fn lemma_insert_all_fresh(rows: Seq<Movement>, ms: Seq<Movement>)
    requires
        wf_rows(rows),
        wf_rows(ms),
        forall|i: int|
            0 <= i < ms.len() ==> !id_present(rows, (#[trigger] ms[i]).id) && !name_present(
                rows,
                ms[i].name@,
            ),
    ensures
        spec_insert_seq_ok(rows, ms),
        spec_insert_seq(rows, ms) == rows + ms,
        wf_rows(rows + ms),
    decreases ms.len(),
{
    if ms.len() == 0 {
        assert(rows + ms =~= rows);
    } else {
        let m0 = ms[0];
        let rest = ms.drop_first();
        assert(spec_insert_ok(rows, m0));
        let rows1 = rows.push(m0);
        assert(spec_insert(rows, m0) == rows1);
        assert forall|i: int, j: int| 0 <= i < j < rows1.len() implies (#[trigger] rows1[i]).id
            != (#[trigger] rows1[j]).id && rows1[i].name@ != rows1[j].name@ by {
            if j < rows.len() {
                assert(rows1[i] == rows[i] && rows1[j] == rows[j]);
            } else {
                assert(rows1[j] == m0);
                assert(rows1[i] == rows[i]);
                if rows[i].id == m0.id {
                    assert(id_present(rows, m0.id));
                }
                if rows[i].name@ == m0.name@ {
                    assert(name_present(rows, m0.name@));
                }
            }
        }
        assert forall|i: int, j: int| 0 <= i < j < rest.len() implies (#[trigger] rest[i]).id
            != (#[trigger] rest[j]).id && rest[i].name@ != rest[j].name@ by {
            assert(rest[i] == ms[i + 1] && rest[j] == ms[j + 1]);
        }
        assert forall|i: int| 0 <= i < rest.len() implies !id_present(
            rows1,
            (#[trigger] rest[i]).id,
        ) && !name_present(rows1, rest[i].name@) by {
            assert(rest[i] == ms[i + 1]);
            if id_present(rows1, rest[i].id) {
                let w = choose|w: int| 0 <= w < rows1.len() && (#[trigger] rows1[w]).id
                    == rest[i].id;
                if w < rows.len() {
                    assert(rows1[w] == rows[w]);
                    assert(id_present(rows, ms[i + 1].id));
                } else {
                    assert(rows1[w] == m0);
                    assert(ms[0].id == ms[i + 1].id);
                }
            }
            if name_present(rows1, rest[i].name@) {
                let w = choose|w: int| 0 <= w < rows1.len() && (#[trigger] rows1[w]).name@
                    == rest[i].name@;
                if w < rows.len() {
                    assert(rows1[w] == rows[w]);
                    assert(name_present(rows, ms[i + 1].name@));
                } else {
                    assert(rows1[w] == m0);
                    assert(ms[0].name@ == ms[i + 1].name@);
                }
            }
        }
        lemma_insert_all_fresh(rows1, rest);
        assert(rows1 + rest =~= rows + ms);
    }
}

/// The unique-name constraint rejects a second movement that shares a stored
/// name, independent of its identifier, and the table stays as it was.
pub proof fn lemma_duplicate_name_rejected(rows: Seq<Movement>, m1: Movement, m2: Movement)
    requires
        spec_insert_ok(rows, m1),
        m2.name@ == m1.name@,
        m2.id != m1.id,
        !id_present(rows, m2.id),
    ensures
        !spec_insert_ok(spec_insert(rows, m1), m2),
        spec_insert_err(spec_insert(rows, m1), m2) == InsertError::NameConflict,
        spec_insert(spec_insert(rows, m1), m2) == spec_insert(rows, m1),
{
    let after = rows.push(m1);
    assert(after[rows.len() as int].name@ == m2.name@);
    assert(name_present(after, m2.name@));
    assert(!id_present(after, m2.id)) by {
        if id_present(after, m2.id) {
            let w = choose|w: int| 0 <= w < after.len() && (#[trigger] after[w]).id == m2.id;
            if w < rows.len() {
                assert(after[w] == rows[w]);
                assert(id_present(rows, m2.id));
            } else {
                assert(after[w] == m1);
            }
        }
    }
}

} // verus!
