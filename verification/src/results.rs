//! Lists of results of which the first error decides.

use vstd::prelude::*;

verus! {

/// All the values, or the first error.
pub open spec fn collect<T, E>(rs: Seq<Result<T, E>>) -> Result<Seq<T>, E>
    decreases rs.len(),
{
    if rs.len() == 0 {
        Ok(Seq::empty())
    } else {
        match collect(rs.drop_last()) {
            Err(e) => Err(e),
            Ok(ts) => match rs.last() {
                Ok(t) => Ok(ts.push(t)),
                Err(e) => Err(e),
            },
        }
    }
}

/// One more result.
pub proof fn collect_step<T, E>(rs: Seq<Result<T, E>>, i: int)
    requires
        0 <= i < rs.len(),
    ensures
        collect(rs.take(i + 1)) == match collect(rs.take(i)) {
            Err(e) => Err::<Seq<T>, E>(e),
            Ok(ts) => match rs[i] {
                Ok(t) => Ok(ts.push(t)),
                Err(e) => Err(e),
            },
        },
        collect(rs.take(0)) == Ok::<Seq<T>, E>(Seq::empty()),
{
    assert(rs.take(i + 1).drop_last() =~= rs.take(i));
    assert(rs.take(i + 1).last() == rs[i]);
}

/// An error decides, whatever follows it.
pub proof fn collect_stops<T, E>(rs: Seq<Result<T, E>>, i: int)
    requires
        0 <= i <= rs.len(),
        collect(rs.take(i)) is Err,
    ensures
        collect(rs) == collect(rs.take(i)),
    decreases rs.len(),
{
    if i == rs.len() {
        assert(rs.take(i) =~= rs);
    } else {
        assert(rs.drop_last().take(i) =~= rs.take(i));
        collect_stops(rs.drop_last(), i);
    }
}

/// The first of some faults.
pub open spec fn first_fault<E>(fs: Seq<Option<E>>) -> Option<E>
    decreases fs.len(),
{
    if fs.len() == 0 {
        None
    } else if fs[0] is Some {
        fs[0]
    } else {
        first_fault(fs.drop_first())
    }
}

/// The first fault is at the first position that has one.
pub proof fn first_fault_at<E>(fs: Seq<Option<E>>, i: int)
    requires
        0 <= i <= fs.len(),
        forall|j: int| 0 <= j < i ==> (#[trigger] fs[j]) is None,
        i < fs.len() ==> fs[i] is Some,
    ensures
        first_fault(fs) == if i < fs.len() {
            fs[i]
        } else {
            None
        },
    decreases fs.len(),
{
    if i > 0 {
        assert(fs[0] is None);
        let t = fs.drop_first();
        assert forall|j: int| 0 <= j < i - 1 implies (#[trigger] t[j]) is None by {
            assert(fs[j + 1] is None);
        }
        first_fault_at(t, i - 1);
    }
}

} // verus!
