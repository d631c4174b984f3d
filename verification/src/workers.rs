//! The worker and dispatcher decisions: a worker offers every user
//! of its subset to the store, swallowing per-item constraint
//! failures, and the dispatcher fails on the first worker task that
//! did not finish normally.

use vstd::prelude::*;
use crate::table::Table;
use crate::users::User;
use crate::users::names_of;

verus! {

/// The persisted names after one name is offered to the store:
/// appended if it is new, unchanged if it is already there.
pub open spec fn offer_name(names: Seq<Seq<char>>, name: Seq<char>) -> Seq<Seq<char>> {
    if names.contains(name) {
        names
    } else {
        names.push(name)
    }
}

/// The persisted names after every name of `adds` is offered to the
/// store, in order.
pub open spec fn offer_all(names: Seq<Seq<char>>, adds: Seq<Seq<char>>) -> Seq<Seq<char>>
    decreases adds.len(),
{
    if adds.len() == 0 {
        names
    } else {
        offer_all(offer_name(names, adds[0]), adds.skip(1))
    }
}

/// A table carries a name exactly when its row names contain it.
pub proof fn lemma_contains_name_iff(t: Table, name: Seq<char>)
    ensures
        t.contains_name(name) <==> t.row_names().contains(name),
{
    if t.contains_name(name) {
        let i = choose|i: int| 0 <= i < t.rows@.len() && (#[trigger] t.rows@[i]).name@ == name;
        assert(t.row_names()[i] == name);
    }
    if t.row_names().contains(name) {
        let i = choose|i: int| 0 <= i < t.row_names().len() && t.row_names()[i] == name;
        assert(t.rows@[i].name@ == name);
    }
}

/// What one worker reports after walking its subset.
pub struct BatchReport {
    pub attempted: usize,
    pub inserted: usize,
    pub duplicates: usize,
}

/// One worker's whole run: offer every user of the subset to the
/// store, one insert per item. A constraint failure on an item is
/// counted and skipped — it never stops the worker — so the run
/// always completes and reports every item as attempted.
pub fn batch_insertion(table: &mut Table, batch: &Vec<User>) -> (report: BatchReport)
    requires
        old(table).wf(),
        old(table).schema_ready,
        old(table).next_id + batch@.len() < usize::MAX,
    ensures
        final(table).wf(),
        final(table).schema_ready,
        report.attempted == batch@.len(),
        report.inserted + report.duplicates == report.attempted,
        final(table).rows@.len() == old(table).rows@.len() + report.inserted,
        final(table).row_names() == offer_all(old(table).row_names(), names_of(batch@)),
        final(table).next_id == old(table).next_id + report.inserted,
{
    let ghost names0 = old(table).row_names();
    let ghost adds = names_of(batch@);
    let mut inserted: usize = 0;
    let mut duplicates: usize = 0;
    let mut idx: usize = 0;
    proof {
        assert(adds.skip(0) =~= adds);
    }
    while idx < batch.len()
        invariant
            idx <= batch@.len(),
            adds == names_of(batch@),
            table.wf(),
            table.schema_ready,
            inserted + duplicates == idx,
            table.rows@.len() == old(table).rows@.len() + inserted,
            table.next_id == old(table).next_id + inserted,
            old(table).next_id + batch@.len() < usize::MAX,
            offer_all(names0, adds) == offer_all(table.row_names(), adds.skip(idx as int)),
        decreases batch@.len() - idx,
    {
        let ghost pre = *table;
        let ghost cur = table.row_names();
        let user = batch[idx].clone();
        let r = table.insert(user.name);
        proof {
            lemma_contains_name_iff(pre, adds[idx as int]);
            assert(adds[idx as int] == batch@[idx as int].name@);
            assert(adds.skip(idx as int)[0] == adds[idx as int]);
            assert(adds.skip(idx as int).skip(1) =~= adds.skip(idx as int + 1));
            if pre.contains_name(adds[idx as int]) {
                assert(offer_name(cur, adds[idx as int]) == cur);
            } else {
                assert(table.row_names() =~= cur.push(adds[idx as int])) by {
                    assert(table.rows@.drop_last() == pre.rows@);
                    assert forall|i: int| 0 <= i < table.rows@.len() implies #[trigger] table.row_names()[i]
                        == cur.push(adds[idx as int])[i] by {
                        if i < pre.rows@.len() {
                            assert(table.rows@[i] == table.rows@.drop_last()[i]);
                        } else {
                            assert(table.rows@[i] == table.rows@.last());
                        }
                    }
                }
                assert(offer_name(cur, adds[idx as int]) == table.row_names());
            }
            assert(offer_all(cur, adds.skip(idx as int)) == offer_all(
                table.row_names(),
                adds.skip(idx as int + 1),
            ));
        }
        match r {
            Ok(_) => {
                inserted = inserted + 1;
            },
            Err(_) => {
                duplicates = duplicates + 1;
            },
        }
        idx = idx + 1;
    }
    proof {
        assert(adds.skip(batch@.len() as int) =~= Seq::<Seq<char>>::empty());
        assert(offer_all(table.row_names(), adds.skip(batch@.len() as int)) == table.row_names());
    }
    BatchReport { attempted: idx, inserted, duplicates }
}

/// Offering names that are pairwise distinct and all new appends
/// every one of them, in order.
pub proof fn lemma_offer_all_fresh(names: Seq<Seq<char>>, adds: Seq<Seq<char>>)
    requires
        adds.no_duplicates(),
        forall|k: int| 0 <= k < adds.len() ==> !names.contains(#[trigger] adds[k]),
    ensures
        offer_all(names, adds) == names + adds,
    decreases adds.len(),
{
    if adds.len() == 0 {
        assert(offer_all(names, adds) =~= names + adds);
    } else {
        let nm = adds[0];
        assert(!names.contains(nm));
        let names1 = names.push(nm);
        assert(offer_name(names, nm) == names1);
        let adds1 = adds.skip(1);
        assert forall|k: int| 0 <= k < adds1.len() implies !names1.contains(#[trigger] adds1[k]) by {
            assert(adds1[k] == adds[k + 1]);
            if names1.contains(adds1[k]) {
                let i = choose|i: int| 0 <= i < names1.len() && names1[i] == adds1[k];
                if i < names.len() {
                    assert(names[i] == adds1[k]);
                } else {
                    assert(adds[0] == adds[k + 1]);
                }
            }
        }
        assert(adds1.no_duplicates()) by {
            assert forall|i: int, j: int|
                0 <= i < adds1.len() && 0 <= j < adds1.len() && i != j implies #[trigger] adds1[i]
                != #[trigger] adds1[j] by {
                assert(adds1[i] == adds[i + 1]);
                assert(adds1[j] == adds[j + 1]);
            }
        }
        lemma_offer_all_fresh(names1, adds1);
        assert(names1 + adds1 =~= names + adds);
    }
}

/// The dispatcher's verdict over the joined worker tasks: success
/// exactly when every task finished normally, else the first task
/// that did not.
pub fn dispatch_outcome(joins: &Vec<bool>) -> (r: Result<(), usize>)
    ensures
        r is Ok <==> (forall|i: int| 0 <= i < joins@.len() ==> #[trigger] joins@[i]),
        r is Err ==> 0 <= r->Err_0 < joins@.len() && !joins@[r->Err_0 as int] && (forall|i: int|
            0 <= i < r->Err_0 ==> #[trigger] joins@[i]),
{
    let mut i: usize = 0;
    while i < joins.len()
        invariant
            i <= joins@.len(),
            forall|j: int| 0 <= j < i ==> #[trigger] joins@[j],
        decreases joins@.len() - i,
    {
        if !joins[i] {
            return Err(i);
        }
        i = i + 1;
    }
    Ok(())
}

} // verus!
