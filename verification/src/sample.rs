use vstd::prelude::*;

use crate::reading::{Reading, SensorError};
use crate::store::{store_after, ReadingStore};

verus! {

/// The readings of the successful outcomes of one cycle, in provider order.
pub open spec fn successes(os: Seq<Result<Reading, SensorError>>) -> Seq<Reading>
    decreases os.len(),
{
    if os.len() == 0 {
        Seq::empty()
    } else {
        match os.last() {
            Result::Ok(r) => successes(os.drop_last()).push(r),
            Result::Err(_) => successes(os.drop_last()),
        }
    }
}

/// The errors of the failed outcomes of one cycle, in provider order.
pub open spec fn failures(os: Seq<Result<Reading, SensorError>>) -> Seq<SensorError>
    decreases os.len(),
{
    if os.len() == 0 {
        Seq::empty()
    } else {
        match os.last() {
            Result::Ok(_) => failures(os.drop_last()),
            Result::Err(e) => failures(os.drop_last()).push(e),
        }
    }
}

/// One sampling cycle's bookkeeping: every successful reading is appended to
/// the store in provider order, every failure is handed back for logging,
/// and no failure stops the rest of the cycle.
pub fn run_cycle(store: &mut ReadingStore, outcomes: &Vec<Result<Reading, SensorError>>) -> (failed:
    Vec<SensorError>)
    requires
        old(store).wf(),
    ensures
        final(store).wf(),
        final(store).max_spec() == old(store).max_spec(),
        final(store).history() == old(store).history() + successes(outcomes@),
        final(store)@ == store_after(
            old(store).max_spec(),
            old(store).history() + successes(outcomes@),
        ),
        failed@ == failures(outcomes@),
{
    let mut failed: Vec<SensorError> = Vec::new();
    let mut i: usize = 0;
    while i < outcomes.len()
        invariant
            0 <= i <= outcomes@.len(),
            store.wf(),
            store.max_spec() == old(store).max_spec(),
            store.history() == old(store).history() + successes(outcomes@.take(i as int)),
            failed@ == failures(outcomes@.take(i as int)),
        decreases outcomes.len() - i,
    {
        proof {
            assert(outcomes@.take(i as int + 1).drop_last() =~= outcomes@.take(i as int));
            assert(outcomes@.take(i as int + 1).last() == outcomes@[i as int]);
        }
        match outcomes[i] {
            Result::Ok(r) => {
                store.append(r);
                proof {
                    assert(store.history() =~= old(store).history() + successes(
                        outcomes@.take(i as int + 1),
                    ));
                }
            },
            Result::Err(e) => {
                failed.push(e);
            },
        }
        i += 1;
    }
    proof {
        assert(outcomes@.take(outcomes@.len() as int) =~= outcomes@);
        crate::store::lemma_wf_contents(*store);
    }
    failed
}

/// Isolation law: a failing provider changes nothing for the others —
/// inserting a failed outcome anywhere among a cycle's outcomes leaves the
/// successful readings, and with them the store after the cycle, exactly as
/// they were.
pub proof fn lemma_failure_isolated(
    os: Seq<Result<Reading, SensorError>>,
    i: int,
    e: SensorError,
)
    requires
        0 <= i <= os.len(),
    ensures
        successes(os.insert(i, Result::Err(e))) == successes(os),
    decreases os.len(),
{
    let os2 = os.insert(i, Result::Err(e));
    if i == os.len() {
        assert(os2 =~= os.push(Result::Err(e)));
        assert(os2.drop_last() =~= os);
    } else {
        assert(os2.last() == os.last());
        assert(os2.drop_last() =~= os.drop_last().insert(i, Result::Err(e)));
        lemma_failure_isolated(os.drop_last(), i, e);
    }
}

} // verus!
