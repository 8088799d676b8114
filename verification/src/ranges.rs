//! Validation of requested boundary pairs and the batch type that records
//! an accepted request.

use vstd::prelude::*;

verus! {

/// Why a request for region views was rejected.
#[derive(Clone, Copy, Debug, PartialEq, Eq, Structural)]
pub enum SliceError {
    /// A requested range's end exceeds the buffer's length.
    OutOfBounds,
    /// A requested range starts before the previous range's end, so the two
    /// overlap or were supplied out of ascending order.
    OverlapOrDisorder,
    /// A requested range's start is not strictly below its end.
    DegenerateRange,
}

/// Sequential validation of boundary pairs against a buffer of length `len`,
/// starting from a cursor that records the end of the previous accepted pair.
/// For each pair the three checks run in order: the end must stay within the
/// buffer, the start must not fall before the cursor, and the range must not
/// be empty or inverted. The first failing check decides the error; when a
/// pair is accepted the cursor moves to its end.
pub open spec fn check_ranges_from(
    ranges: Seq<(usize, usize)>,
    cursor: int,
    len: int,
) -> Result<(), SliceError>
    decreases ranges.len(),
{
    if ranges.len() == 0 {
        Ok(())
    } else {
        let start = ranges[0].0;
        let end = ranges[0].1;
        if end > len {
            Err(SliceError::OutOfBounds)
        } else if start < cursor {
            Err(SliceError::OverlapOrDisorder)
        } else if start >= end {
            Err(SliceError::DegenerateRange)
        } else {
            check_ranges_from(ranges.drop_first(), end as int, len)
        }
    }
}

/// Validation of a whole request: the cursor starts at the beginning of the
/// buffer.
pub open spec fn check_ranges(ranges: Seq<(usize, usize)>, len: int) -> Result<(), SliceError> {
    check_ranges_from(ranges, 0, len)
}

/// Whether index `k` falls inside the half-open range `r`.
pub open spec fn in_range(r: (usize, usize), k: int) -> bool {
    r.0 <= k < r.1
}

/// Every boundary pair of an accepted request is non-empty, starts no
/// earlier than the cursor, ends within the buffer, and the pairs appear in
/// ascending order with no two of them sharing an index.
pub proof fn lemma_check_from_ok(ranges: Seq<(usize, usize)>, cursor: int, len: int)
    requires
        check_ranges_from(ranges, cursor, len) is Ok,
    ensures
        forall|i: int| 0 <= i < ranges.len() ==> cursor <= (#[trigger] ranges[i]).0,
        forall|i: int| 0 <= i < ranges.len() ==> (#[trigger] ranges[i]).0 < ranges[i].1,
        forall|i: int| 0 <= i < ranges.len() ==> (#[trigger] ranges[i]).1 <= len,
        forall|i: int, j: int|
            0 <= i < j < ranges.len() ==> (#[trigger] ranges[i]).1 <= (#[trigger] ranges[j]).0,
    decreases ranges.len(),
{
    if ranges.len() > 0 {
        let tail = ranges.drop_first();
        lemma_check_from_ok(tail, ranges[0].1 as int, len);
        assert forall|i: int| 0 <= i < ranges.len() implies cursor <= (#[trigger] ranges[i]).0 by {
            if i > 0 {
                assert(ranges[i] == tail[i - 1]);
            }
        }
        assert forall|i: int|
            0 <= i < ranges.len() implies (#[trigger] ranges[i]).0 < ranges[i].1 by {
            if i > 0 {
                assert(ranges[i] == tail[i - 1]);
            }
        }
        assert forall|i: int| 0 <= i < ranges.len() implies (#[trigger] ranges[i]).1 <= len by {
            if i > 0 {
                assert(ranges[i] == tail[i - 1]);
            }
        }
        assert forall|i: int, j: int|
            0 <= i < j < ranges.len() implies (#[trigger] ranges[i]).1
            <= (#[trigger] ranges[j]).0 by {
            assert(ranges[j] == tail[j - 1]);
            if i > 0 {
                assert(ranges[i] == tail[i - 1]);
            }
        }
    }
}

/// The declarative shape of an acceptable request against a buffer of
/// length `len`: every range is non-empty and ends within the buffer, and
/// the ranges appear in ascending order, no two of them sharing an index.
pub open spec fn ranges_wf(rs: Seq<(usize, usize)>, len: int) -> bool {
    &&& forall|i: int| 0 <= i < rs.len() ==> (#[trigger] rs[i]).0 < rs[i].1
    &&& forall|i: int| 0 <= i < rs.len() ==> (#[trigger] rs[i]).1 <= len
    &&& forall|i: int, j: int|
        0 <= i < j < rs.len() ==> (#[trigger] rs[i]).1 <= (#[trigger] rs[j]).0
}

proof fn lemma_wf_check_from_ok(rs: Seq<(usize, usize)>, cursor: int, len: int)
    requires
        ranges_wf(rs, len),
        rs.len() > 0 ==> cursor <= rs[0].0,
    ensures
        check_ranges_from(rs, cursor, len) is Ok,
    decreases rs.len(),
{
    if rs.len() > 0 {
        let tail = rs.drop_first();
        assert forall|i: int| 0 <= i < tail.len() implies (#[trigger] tail[i]).0 < tail[i].1 by {
            assert(tail[i] == rs[i + 1]);
        }
        assert forall|i: int| 0 <= i < tail.len() implies (#[trigger] tail[i]).1 <= len by {
            assert(tail[i] == rs[i + 1]);
        }
        assert forall|i: int, j: int|
            0 <= i < j < tail.len() implies (#[trigger] tail[i]).1 <= (#[trigger] tail[j]).0 by {
            assert(tail[i] == rs[i + 1]);
            assert(tail[j] == rs[j + 1]);
        }
        if tail.len() > 0 {
            assert(tail[0] == rs[1]);
        }
        lemma_wf_check_from_ok(tail, rs[0].1 as int, len);
    }
}

/// Law: a request is accepted exactly when it is declaratively well
/// formed, so no well-formed request is ever rejected, and every rejected
/// request breaks one of the three range rules.
pub proof fn lemma_accepted_iff_wf(rs: Seq<(usize, usize)>, len: int)
    ensures
        check_ranges(rs, len) is Ok <==> ranges_wf(rs, len),
{
    if check_ranges(rs, len) is Ok {
        lemma_check_from_ok(rs, 0, len);
    }
    if ranges_wf(rs, len) {
        lemma_wf_check_from_ok(rs, 0, len);
    }
}

/// Law: the views of an accepted request are pairwise disjoint — no index
/// of the buffer falls inside two different views.
pub proof fn lemma_views_disjoint(ranges: Seq<(usize, usize)>, len: int, i: int, j: int)
    requires
        check_ranges(ranges, len) is Ok,
        0 <= i < ranges.len(),
        0 <= j < ranges.len(),
        i != j,
    ensures
        forall|k: int| !(in_range(ranges[i], k) && in_range(ranges[j], k)),
{
    lemma_check_from_ok(ranges, 0, len);
}

/// Law: every view of an accepted request lies inside the buffer, so the
/// union of the views' ranges is a subset of the buffer's index range; the
/// request is not obliged to reach the buffer's end.
pub proof fn lemma_views_within_bounds(ranges: Seq<(usize, usize)>, len: int, i: int, k: int)
    requires
        check_ranges(ranges, len) is Ok,
        0 <= i < ranges.len(),
        in_range(ranges[i], k),
    ensures
        0 <= k < len,
{
    lemma_check_from_ok(ranges, 0, len);
}

/// Law: a request for the single pair covering a whole non-empty buffer is
/// accepted, and its one view spans every index of the buffer.
pub proof fn lemma_full_range_accepted(n: usize)
    requires
        n > 0,
    ensures
        check_ranges(seq![(0usize, n)], n as int) is Ok,
        forall|k: int| 0 <= k < n ==> in_range(seq![(0usize, n)][0], k),
{
    let s = seq![(0usize, n)];
    assert(s[0] == (0usize, n));
    assert(s.drop_first() =~= Seq::<(usize, usize)>::empty());
    assert(check_ranges_from(s.drop_first(), n as int, n as int) is Ok);
}

/// A batch of region views that passed validation: the boundary pairs of an
/// accepted request, in request order.
pub struct Views {
    ranges: Vec<(usize, usize)>,
}

impl View for Views {
    type V = Seq<(usize, usize)>;

    closed spec fn view(&self) -> Seq<(usize, usize)> {
        self.ranges@
    }
}

impl Views {
    /// Whether the batch was validated against a buffer of length `len`:
    /// its ranges lie within the buffer, in ascending order, pairwise
    /// disjoint and none of them empty.
    pub open spec fn fits(&self, len: int) -> bool {
        check_ranges(self@, len) is Ok
    }

    /// Validates a request against a buffer of length `len`. Returns the
    /// batch of views exactly when every boundary pair passes the three
    /// checks of [`check_ranges_from`]; the first failing pair decides the
    /// error and nothing is returned in that case.
    pub fn checked(ranges: &[(usize, usize)], len: usize) -> (r: Result<Views, SliceError>)
        ensures
            (match r {
                Ok(views) => views@ == ranges@ && views.fits(len as int),
                Err(e) => check_ranges(ranges@, len as int) == Err::<(), SliceError>(e),
            }),
    {
        let ghost all = ranges@;
        proof {
            assert(all.skip(0) =~= all);
            assert(all.subrange(0, 0) =~= Seq::<(usize, usize)>::empty());
        }
        let mut out: Vec<(usize, usize)> = Vec::new();
        let mut cursor: usize = 0;
        let n: usize = ranges.len();
        let mut i: usize = 0;
        while i < n
            invariant
                n == all.len(),
                0 <= i <= n,
                ranges@ == all,
                out@ == all.subrange(0, i as int),
                check_ranges(all, len as int) == check_ranges_from(
                    all.skip(i as int),
                    cursor as int,
                    len as int,
                ),
            decreases n - i,
        {
            let (start, end) = ranges[i];
            proof {
                assert(all.skip(i as int)[0] == all[i as int]);
                assert(all.skip(i as int).drop_first() =~= all.skip(i as int + 1));
            }
            if len < end {
                return Err(SliceError::OutOfBounds);
            } else if start < cursor {
                return Err(SliceError::OverlapOrDisorder);
            } else if start >= end {
                return Err(SliceError::DegenerateRange);
            }
            out.push((start, end));
            proof {
                assert(out@ =~= all.subrange(0, i as int + 1));
            }
            cursor = end;
            i = i + 1;
        }
        proof {
            assert(all.skip(n as int) =~= Seq::<(usize, usize)>::empty());
            assert(out@ =~= all);
        }
        Ok(Views { ranges: out })
    }

    /// How many views the batch holds.
    pub fn count(&self) -> (n: usize)
        ensures
            n == self@.len(),
    {
        self.ranges.len()
    }

    /// The boundary pair of the `i`-th view, as requested.
    pub fn bounds(&self, i: usize) -> (b: (usize, usize))
        requires
            i < self@.len(),
        ensures
            b == self@[i as int],
    {
        self.ranges[i]
    }
}

} // verus!
