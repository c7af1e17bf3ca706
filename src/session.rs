use vstd::prelude::*;
use crate::date::Date;

verus! {

/// One logged unit of study.
#[derive(Debug)]
pub struct Session {
    pub date: Date,
    pub minutes: i64,
    pub topic: String,
}

/// Why an operation on the session store did not succeed.
#[derive(Clone, Copy, Debug, PartialEq, Eq, Structural)]
pub enum StoreError {
    /// The data directory cannot be located or created.
    StorageUnavailable,
    /// The storage file exists but does not hold a list of sessions.
    Corrupt,
    /// The storage file could not be written.
    WriteFailure,
    /// A session was refused before storage was touched (minutes not positive).
    Validation,
}

pub open spec fn abs(x: int) -> int {
    if x < 0 { -x } else { x }
}

/// Sum of the magnitudes of all minutes in `ss`: a bound on any total over them.
pub open spec fn abs_total(ss: Seq<Session>) -> int
    decreases ss.len(),
{
    if ss.len() == 0 {
        0
    } else {
        abs_total(ss.drop_last()) + abs(ss.last().minutes as int)
    }
}

pub proof fn lemma_abs_total_prefix(ss: Seq<Session>, n: int)
    requires
        0 <= n <= ss.len(),
    ensures
        0 <= abs_total(ss.take(n)) <= abs_total(ss),
    decreases ss.len(),
{
    if n == ss.len() {
        assert(ss.take(n) =~= ss);
        lemma_abs_total_nonneg(ss);
    } else {
        assert(ss.drop_last().take(n) =~= ss.take(n));
        lemma_abs_total_prefix(ss.drop_last(), n);
    }
}

pub proof fn lemma_abs_total_nonneg(ss: Seq<Session>)
    ensures
        abs_total(ss) >= 0,
    decreases ss.len(),
{
    if ss.len() > 0 {
        lemma_abs_total_nonneg(ss.drop_last());
    }
}

/// Whether every total over `sessions` fits in an `i64`, i.e. whether the
/// summaries of this module can be computed on them.
pub fn totals_fit(sessions: &[Session]) -> (r: bool)
    ensures
        r == (abs_total(sessions@) <= i64::MAX),
{
    let mut acc: u64 = 0;
    let mut i: usize = 0;
    while i < sessions.len()
        invariant
            0 <= i <= sessions@.len(),
            acc == abs_total(sessions@.take(i as int)),
            acc <= i64::MAX,
        decreases sessions@.len() - i,
    {
        let m = sessions[i].minutes;
        let a: u64 = if m >= 0 { m as u64 } else { (-(m as i128)) as u64 };
        assert(sessions@.take(i + 1).drop_last() =~= sessions@.take(i as int));
        let next = acc + a;
        if next > i64::MAX as u64 {
            proof {
                lemma_abs_total_prefix(sessions@, i + 1);
            }
            return false;
        }
        acc = next;
        i = i + 1;
    }
    assert(sessions@.take(i as int) =~= sessions@);
    true
}

} // verus!
