//! A model of the single-table store: one `users` table whose rows
//! pair a store-assigned, strictly increasing id with a unique name.
//! The handle operations — create the schema, insert one row, select
//! everything, delete everything — are stated and proved here.

use vstd::prelude::*;
use crate::users::DbUser;

verus! {

/// The error a single insert can report: the name is already there.
#[derive(Clone, Copy, Debug, PartialEq, Eq, Structural)]
pub enum DbError {
    DuplicateName,
}

/// The table: whether the schema was created, the next id the store
/// will assign, and the persisted rows in insertion order.
pub struct Table {
    pub schema_ready: bool,
    pub next_id: usize,
    pub rows: Vec<DbUser>,
}

impl Table {
    /// The names of the persisted rows, in row order.
    pub open spec fn row_names(self) -> Seq<Seq<char>> {
        self.rows@.map_values(|u: DbUser| u.name@)
    }

    /// Some persisted row carries this name.
    pub open spec fn contains_name(self, name: Seq<char>) -> bool {
        exists|i: int| 0 <= i < self.rows@.len() && (#[trigger] self.rows@[i]).name@ == name
    }

    /// The table invariant: names are unique across all rows, and ids
    /// are strictly increasing and all below the next id.
    pub open spec fn wf(self) -> bool {
        &&& self.next_id >= 1
        &&& forall|i: int, j: int|
            0 <= i < j < self.rows@.len() ==> (#[trigger] self.rows@[i]).name@ != (
            #[trigger] self.rows@[j]).name@
        &&& forall|i: int, j: int|
            0 <= i < j < self.rows@.len() ==> (#[trigger] self.rows@[i]).id < (
            #[trigger] self.rows@[j]).id
        &&& forall|i: int| 0 <= i < self.rows@.len() ==> (#[trigger] self.rows@[i]).id < self.next_id
    }

    /// A fresh store: no schema yet, no rows, ids start at 1.
    pub fn new() -> (t: Table)
        ensures
            t.wf(),
            !t.schema_ready,
            t.rows@.len() == 0,
            t.next_id == 1,
    {
        Table { schema_ready: false, next_id: 1, rows: Vec::new() }
    }

    /// Create the table if it is absent; report whether it already
    /// existed. Idempotent: rows and ids are never touched.
    pub fn ensure_schema(&mut self) -> (existed: bool)
        requires
            old(self).wf(),
        ensures
            final(self).wf(),
            ensure_schema_spec(*old(self), *final(self), existed),
    {
        let existed = self.schema_ready;
        self.schema_ready = true;
        existed
    }

    /// Whether some persisted row already carries `name`.
    pub fn contains(&self, name: &String) -> (found: bool)
        ensures
            found == self.contains_name(name@),
    {
        let mut i: usize = 0;
        let mut found = false;
        while i < self.rows.len()
            invariant
                i <= self.rows@.len(),
                found == exists|j: int|
                    0 <= j < i && (#[trigger] self.rows@[j]).name@ == name@,
            decreases self.rows@.len() - i,
        {
            if self.rows[i].name.eq(name) {
                found = true;
                proof {
                    assert(self.rows@[i as int].name@ == name@);
                }
            }
            i = i + 1;
        }
        found
    }

    /// Insert one row. A fresh name gets the next id; a name already
    /// persisted is refused with a constraint error and the table is
    /// left unchanged.
    pub fn insert(&mut self, name: String) -> (r: Result<usize, DbError>)
        requires
            old(self).wf(),
            old(self).schema_ready,
            old(self).next_id < usize::MAX,
        ensures
            final(self).wf(),
            insert_spec(*old(self), *final(self), name@, r),
    {
        if self.contains(&name) {
            Err(DbError::DuplicateName)
        } else {
            let id = self.next_id;
            self.next_id = self.next_id + 1;
            self.rows.push(DbUser { id, name });
            proof {
                assert(self.rows@.drop_last() =~= old(self).rows@);
            }
            Ok(id)
        }
    }

    /// Return a copy of every persisted row, in row order.
    pub fn select_all(&self) -> (out: Vec<DbUser>)
        ensures
            out@.len() == self.rows@.len(),
            forall|i: int|
                0 <= i < out@.len() ==> (#[trigger] out@[i]).id == self.rows@[i].id
                    && out@[i].name@ == self.rows@[i].name@,
    {
        let mut out: Vec<DbUser> = Vec::new();
        let mut i: usize = 0;
        while i < self.rows.len()
            invariant
                i <= self.rows@.len(),
                out@.len() == i as int,
                forall|j: int|
                    0 <= j < out@.len() ==> (#[trigger] out@[j]).id == self.rows@[j].id
                        && out@[j].name@ == self.rows@[j].name@,
            decreases self.rows@.len() - i,
        {
            out.push(self.rows[i].clone());
            i = i + 1;
        }
        out
    }

    /// Remove every row; report how many there were. A no-op on an
    /// empty table, which reports zero.
    pub fn delete_all(&mut self) -> (removed: usize)
        requires
            old(self).wf(),
        ensures
            final(self).wf(),
            delete_all_spec(*old(self), *final(self), removed),
    {
        let removed = self.rows.len();
        self.rows = Vec::new();
        removed
    }

    /// How many rows are persisted.
    pub fn row_count(&self) -> (n: usize)
        ensures
            n == self.rows@.len(),
    {
        self.rows.len()
    }
}

/// What `ensure_schema` does: it reports whether the schema was
/// already there, makes it ready, and touches nothing else.
pub open spec fn ensure_schema_spec(pre: Table, post: Table, existed: bool) -> bool {
    &&& existed == pre.schema_ready
    &&& post.schema_ready
    &&& post.rows == pre.rows
    &&& post.next_id == pre.next_id
}

/// What `insert` does: a duplicate name is refused and changes
/// nothing; a fresh name is appended with the next id, which then
/// advances by one.
pub open spec fn insert_spec(pre: Table, post: Table, name: Seq<char>, r: Result<usize, DbError>) -> bool {
    if pre.contains_name(name) {
        &&& r == Err::<usize, DbError>(DbError::DuplicateName)
        &&& post == pre
    } else {
        &&& r == Ok::<usize, DbError>(pre.next_id)
        &&& post.schema_ready == pre.schema_ready
        &&& post.next_id == pre.next_id + 1
        &&& post.rows@.len() == pre.rows@.len() + 1
        &&& post.rows@.drop_last() == pre.rows@
        &&& post.rows@.last().id == pre.next_id
        &&& post.rows@.last().name@ == name
    }
}

/// What `delete_all` does: it reports the number of rows it found,
/// leaves none, and touches neither the schema nor the next id.
pub open spec fn delete_all_spec(pre: Table, post: Table, removed: usize) -> bool {
    &&& removed == pre.rows@.len()
    &&& post.rows@.len() == 0
    &&& post.schema_ready == pre.schema_ready
    &&& post.next_id == pre.next_id
}

/// How many of these rows carry `name`.
pub open spec fn count_name(rows: Seq<DbUser>, name: Seq<char>) -> nat
    decreases rows.len(),
{
    if rows.len() == 0 {
        0
    } else {
        count_name(rows.drop_last(), name) + if rows.last().name@ == name {
            1nat
        } else {
            0nat
        }
    }
}

/// Rows none of which carry `name` count zero for it.
pub proof fn lemma_count_name_zero(rows: Seq<DbUser>, name: Seq<char>)
    requires
        forall|i: int| 0 <= i < rows.len() ==> (#[trigger] rows[i]).name@ != name,
    ensures
        count_name(rows, name) == 0,
    decreases rows.len(),
{
    if rows.len() > 0 {
        assert forall|i: int| 0 <= i < rows.drop_last().len() implies (#[trigger] rows.drop_last()[i]).name@
            != name by {
            assert(rows.drop_last()[i] == rows[i]);
        }
        lemma_count_name_zero(rows.drop_last(), name);
        assert(rows.last() == rows[rows.len() - 1]);
    }
}

/// A table that carries a name counts at least one row for it, and
/// a well-formed table — names unique — counts at most one. So in a
/// well-formed table every persisted name stands in exactly one row.
pub proof fn lemma_name_count_in_wf_table(t: Table, name: Seq<char>)
    requires
        t.wf(),
    ensures
        t.contains_name(name) ==> count_name(t.rows@, name) == 1,
        !t.contains_name(name) ==> count_name(t.rows@, name) == 0,
{
    lemma_count_name_unique(t.rows@, name);
}

/// Counting over rows with pairwise distinct names gives zero or
/// one, depending on whether the name is among them.
proof fn lemma_count_name_unique(rows: Seq<DbUser>, name: Seq<char>)
    requires
        forall|i: int, j: int|
            0 <= i < j < rows.len() ==> (#[trigger] rows[i]).name@ != (#[trigger] rows[j]).name@,
    ensures
        (exists|i: int| 0 <= i < rows.len() && (#[trigger] rows[i]).name@ == name)
            ==> count_name(rows, name) == 1,
        !(exists|i: int| 0 <= i < rows.len() && (#[trigger] rows[i]).name@ == name)
            ==> count_name(rows, name) == 0,
    decreases rows.len(),
{
    if rows.len() == 0 {
    } else {
        let head = rows.drop_last();
        assert forall|i: int, j: int| 0 <= i < j < head.len() implies (#[trigger] head[i]).name@
            != (#[trigger] head[j]).name@ by {
            assert(head[i] == rows[i] && head[j] == rows[j]);
        }
        lemma_count_name_unique(head, name);
        assert(rows.last() == rows[rows.len() - 1]);
        if rows.last().name@ == name {
            assert forall|i: int| 0 <= i < head.len() implies (#[trigger] head[i]).name@
                != name by {
                assert(head[i] == rows[i]);
                assert(rows[i].name@ != rows[rows.len() - 1].name@);
            }
            assert(count_name(head, name) == 0);
        } else {
            if exists|i: int| 0 <= i < rows.len() && (#[trigger] rows[i]).name@ == name {
                let w = choose|i: int| 0 <= i < rows.len() && (#[trigger] rows[i]).name@ == name;
                assert(w < rows.len() - 1);
                assert(head[w] == rows[w]);
                assert(count_name(head, name) == 1);
            }
        }
    }
}

/// Inserting the same name twice persists exactly one row with it
/// and records exactly one constraint failure: the first call gets
/// an id, the second is refused and changes nothing.
pub proof fn lemma_duplicate_insert(
    t0: Table,
    t1: Table,
    t2: Table,
    name: Seq<char>,
    r1: Result<usize, DbError>,
    r2: Result<usize, DbError>,
)
    requires
        !t0.contains_name(name),
        insert_spec(t0, t1, name, r1),
        insert_spec(t1, t2, name, r2),
    ensures
        r1 == Ok::<usize, DbError>(t0.next_id),
        r2 == Err::<usize, DbError>(DbError::DuplicateName),
        t2 == t1,
        count_name(t0.rows@, name) == 0,
        count_name(t1.rows@, name) == 1,
        count_name(t2.rows@, name) == 1,
{
    assert forall|i: int| 0 <= i < t0.rows@.len() implies (#[trigger] t0.rows@[i]).name@
        != name by {
        assert(!(0 <= i < t0.rows@.len() && t0.rows@[i].name@ == name));
    }
    lemma_count_name_zero(t0.rows@, name);
    assert(t1.rows@.last().name@ == name);
    assert(t1.rows@[t1.rows@.len() - 1].name@ == name);
    assert(t1.contains_name(name));
    assert(count_name(t1.rows@, name) == count_name(t1.rows@.drop_last(), name) + 1);
}

/// Creating the schema twice is idempotent: the second call reports
/// that the table already existed and changes nothing.
pub proof fn lemma_ensure_schema_idempotent(
    t0: Table,
    t1: Table,
    t2: Table,
    existed1: bool,
    existed2: bool,
)
    requires
        ensure_schema_spec(t0, t1, existed1),
        ensure_schema_spec(t1, t2, existed2),
    ensures
        existed2 == true,
        t2.rows == t1.rows,
        t2.next_id == t1.next_id,
        t2.schema_ready == t1.schema_ready,
{
}

} // verus!
