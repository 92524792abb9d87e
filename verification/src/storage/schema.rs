//! Which schema migrations a database still needs.
//!
//! Each migration is run if its version is not already recorded in
//! `schema_migrations`; running the migrations twice is a no-op. Running the
//! SQL is done by the binary.

use vstd::prelude::*;

verus! {

/// The versions of `known`, in order, that `applied` does not record.
pub open spec fn pending(applied: Seq<u32>, known: Seq<u32>) -> Seq<u32>
    decreases known.len(),
{
    if known.len() == 0 {
        Seq::empty()
    } else {
        let rest = pending(applied, known.drop_last());
        if applied.contains(known.last()) {
            rest
        } else {
            rest.push(known.last())
        }
    }
}

/// Every known version is either already applied or pending.
pub proof fn lemma_pending_covers(applied: Seq<u32>, known: Seq<u32>)
    ensures
        forall|i: int|
            0 <= i < known.len() ==> applied.contains(#[trigger] known[i]) || pending(
                applied,
                known,
            ).contains(known[i]),
    decreases known.len(),
{
    if known.len() > 0 {
        let init = known.drop_last();
        lemma_pending_covers(applied, init);
        let rest = pending(applied, init);
        assert forall|i: int| 0 <= i < known.len() implies applied.contains(#[trigger] known[i])
            || pending(applied, known).contains(known[i]) by {
            if i < known.len() - 1 {
                assert(known[i] == init[i]);
                if rest.contains(known[i]) {
                    let k = choose|k: int| 0 <= k < rest.len() && rest[k] == known[i];
                    if !applied.contains(known.last()) {
                        assert(rest.push(known.last())[k] == known[i]);
                    }
                }
            } else if !applied.contains(known.last()) {
                assert(rest.push(known.last())[rest.len() as int] == known.last());
            }
        }
    }
}

/// Nothing is pending when every known version is applied.
pub proof fn lemma_nothing_pending_when_all_applied(applied: Seq<u32>, known: Seq<u32>)
    requires
        forall|i: int| 0 <= i < known.len() ==> applied.contains(#[trigger] known[i]),
    ensures
        pending(applied, known) == Seq::<u32>::empty(),
    decreases known.len(),
{
    if known.len() > 0 {
        let init = known.drop_last();
        assert forall|i: int| 0 <= i < init.len() implies applied.contains(#[trigger] init[i]) by {
            assert(init[i] == known[i]);
        }
        lemma_nothing_pending_when_all_applied(applied, init);
        assert(applied.contains(known[known.len() - 1]));
    }
}

/// Law: once the pending migrations are applied and recorded, running the
/// migrations again applies nothing.
pub proof fn law_second_run_applies_nothing(applied: Seq<u32>, known: Seq<u32>)
    ensures
        pending(applied + pending(applied, known), known) == Seq::<u32>::empty(),
{
    let p = pending(applied, known);
    let after = applied + p;
    lemma_pending_covers(applied, known);
    assert forall|i: int| 0 <= i < known.len() implies after.contains(#[trigger] known[i]) by {
        if applied.contains(known[i]) {
            let k = choose|k: int| 0 <= k < applied.len() && applied[k] == known[i];
            assert(after[k] == known[i]);
        } else {
            let k = choose|k: int| 0 <= k < p.len() && p[k] == known[i];
            assert(after[applied.len() + k] == known[i]);
        }
    }
    lemma_nothing_pending_when_all_applied(after, known);
}

fn recorded(applied: &Vec<u32>, version: u32) -> (b: bool)
    ensures
        b == applied@.contains(version),
{
    let mut i: usize = 0;
    while i < applied.len()
        invariant
            i <= applied@.len(),
            forall|k: int| 0 <= k < i ==> applied@[k] != version,
        decreases applied@.len() - i,
    {
        if applied[i] == version {
            assert(applied@[i as int] == version);
            return true;
        }
        i = i + 1;
    }
    false
}

/// The versions among `known` (the migrations this build carries, in
/// order) that `applied` (the versions recorded in `schema_migrations`)
/// does not hold, in order: the migrations to run.
pub fn pending_migrations(applied: &Vec<u32>, known: &Vec<u32>) -> (p: Vec<u32>)
    ensures
        p@ == pending(applied@, known@),
{
    let mut p: Vec<u32> = Vec::new();
    let mut i: usize = 0;
    while i < known.len()
        invariant
            i <= known@.len(),
            p@ == pending(applied@, known@.take(i as int)),
        decreases known@.len() - i,
    {
        let v = known[i];
        assert(known@.take(i as int + 1).drop_last() =~= known@.take(i as int));
        if !recorded(applied, v) {
            p.push(v);
        }
        i = i + 1;
    }
    assert(known@.take(known@.len() as int) =~= known@);
    p
}

} // verus!
