//! The summary of a run: how many items were generated, how many each
//! worker executed, and how many were executed in all.

use vstd::prelude::*;

verus! {

/// The sum of the counts.
pub open spec fn total(counts: Seq<u64>) -> nat
    decreases counts.len(),
{
    if counts.len() == 0 {
        0
    } else {
        total(counts.drop_last()) + counts.last() as nat
    }
}

/// The sum of a prefix is at most the sum of the whole, and grows by the
/// next count when the prefix grows by one.
pub proof fn lemma_total_of_prefix(counts: Seq<u64>, n: int)
    requires
        0 <= n <= counts.len(),
    ensures
        total(counts.take(n)) <= total(counts),
        n < counts.len() ==> total(counts.take(n + 1)) == total(counts.take(n)) + counts[n],
        total(counts.take(counts.len() as int)) == total(counts),
    decreases counts.len() - n,
{
    assert(counts.take(counts.len() as int) =~= counts);
    if n < counts.len() {
        assert(counts.take(n + 1).drop_last() =~= counts.take(n));
        lemma_total_of_prefix(counts, n + 1);
    }
}

/// What is known of a run once the producer and all workers have
/// terminated.
#[derive(Clone, Debug, PartialEq, Eq)]
pub struct RunSummary {
    /// The number of items the producer generated.
    pub generated: u64,
    /// The number of items each worker executed, by worker.
    pub executed: Vec<u64>,
    /// The number of items executed by all workers together.
    pub executed_total: u64,
}

impl RunSummary {
    /// The total is the sum of the workers' counts.
    pub open spec fn wf(&self) -> bool {
        self.executed_total == total(self.executed@)
    }

    /// As many items were executed as were generated.
    pub open spec fn balanced(&self) -> bool {
        self.generated == self.executed_total
    }

    /// Adds up the workers' counts. There is no summary if the sum does not
    /// fit in 64 bits.
    pub fn collect(generated: u64, executed: Vec<u64>) -> (summary: Option<RunSummary>)
        ensures
            summary is Some <==> total(executed@) <= u64::MAX,
            summary matches Some(s) ==> s.wf() && s.generated == generated && s.executed@
                == executed@,
    {
        let mut sum: u64 = 0;
        let mut i: usize = 0;
        proof {
            assert(executed@.take(0) =~= Seq::empty());
        }
        while i < executed.len()
            invariant
                0 <= i <= executed@.len(),
                sum == total(executed@.take(i as int)),
            decreases executed@.len() - i,
        {
            proof {
                lemma_total_of_prefix(executed@, i as int);
                lemma_total_of_prefix(executed@, i + 1);
            }
            match sum.checked_add(executed[i]) {
                Some(next) => {
                    sum = next;
                },
                None => {
                    return None;
                },
            }
            i = i + 1;
        }
        proof {
            lemma_total_of_prefix(executed@, i as int);
        }
        Some(RunSummary { generated, executed, executed_total: sum })
    }

    /// Whether as many items were executed as were generated.
    pub fn is_balanced(&self) -> (balanced: bool)
        ensures
            balanced == self.balanced(),
    {
        self.generated == self.executed_total
    }
}

} // verus!
