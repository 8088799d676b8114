//! The owned buffer and the operations that go through validated region
//! views.

use crate::ranges::check_ranges;
use crate::ranges::in_range;
use crate::ranges::lemma_check_from_ok;
use crate::ranges::SliceError;
use crate::ranges::Views;
use vstd::prelude::*;
use vstd::std_specs::cmp::PartialEqSpec;

verus! {

/// An owned contiguous buffer whose contents can be read and mutated
/// region by region through a validated batch of disjoint views.
#[derive(Debug, Eq)]
pub struct MutSlice<T> {
    vec: Vec<T>,
}

impl<T> View for MutSlice<T> {
    type V = Seq<T>;

    closed spec fn view(&self) -> Seq<T> {
        self.vec@
    }
}

impl<T> MutSlice<T> {
    /// Takes ownership of the vector's backing storage; the buffer's
    /// contents are exactly the vector's elements, in order.
    pub fn vec_into(vec: Vec<T>) -> (r: Self)
        ensures
            r@ == vec@,
    {
        MutSlice { vec }
    }

    /// Consumes the buffer and returns its contents as an owned vector,
    /// the exact inverse of [`MutSlice::vec_into`].
    pub fn into_vec(self) -> (r: Vec<T>)
        ensures
            r@ == self@,
    {
        self.vec
    }

    /// The number of elements the buffer holds.
    pub fn len(&self) -> (n: usize)
        ensures
            n == self@.len(),
    {
        self.vec.len()
    }

    /// Requests one region view per boundary pair, in request order. The
    /// request is validated as a whole before anything is handed out: on
    /// the first failing pair the whole request is rejected with the error
    /// of its first failing check, and in every case the buffer's contents
    /// are untouched.
    pub fn slices_mut(&mut self, ranges: &[(usize, usize)]) -> (r: Result<Views, SliceError>)
        ensures
            final(self)@ == old(self)@,
            (match r {
                Ok(views) => views@ == ranges@ && views.fits(old(self)@.len() as int),
                Err(e) => check_ranges(ranges@, old(self)@.len() as int) == Err::<
                    (),
                    SliceError,
                >(e),
            }),
    {
        Views::checked(ranges, self.vec.len())
    }

    /// The length of the `i`-th view of the batch.
    pub fn view_len(&self, views: &Views, i: usize) -> (n: usize)
        requires
            views.fits(self@.len() as int),
            i < views@.len(),
        ensures
            n == views@[i as int].1 - views@[i as int].0,
    {
        proof {
            lemma_check_from_ok(views@, 0, self@.len() as int);
        }
        let (start, end) = views.bounds(i);
        end - start
    }

    /// A reference to the `j`-th element of the `i`-th view, that is, to
    /// the buffer element at the view's start plus `j`.
    pub fn view_get(&self, views: &Views, i: usize, j: usize) -> (r: &T)
        requires
            views.fits(self@.len() as int),
            i < views@.len(),
            j < views@[i as int].1 - views@[i as int].0,
        ensures
            *r == self@[views@[i as int].0 + j],
    {
        proof {
            lemma_check_from_ok(views@, 0, self@.len() as int);
        }
        let (start, _end) = views.bounds(i);
        &self.vec[start + j]
    }

    /// Writes `value` to the `j`-th element of the `i`-th view; no element
    /// outside that one position changes.
    pub fn view_set(&mut self, views: &Views, i: usize, j: usize, value: T)
        requires
            views.fits(old(self)@.len() as int),
            i < views@.len(),
            j < views@[i as int].1 - views@[i as int].0,
        ensures
            final(self)@ == old(self)@.update(views@[i as int].0 + j, value),
    {
        proof {
            lemma_check_from_ok(views@, 0, self@.len() as int);
        }
        let (start, _end) = views.bounds(i);
        self.vec.set(start + j, value);
    }

    /// Exchanges the elements at two distinct positions of the buffer.
    fn swap_elems(&mut self, a: usize, b: usize)
        requires
            a < old(self)@.len(),
            b < old(self)@.len(),
            a != b,
        ensures
            final(self)@ == old(self)@.update(a as int, old(self)@[b as int]).update(
                b as int,
                old(self)@[a as int],
            ),
    {
        let ghost s = self@;
        let (lo, hi) = if a < b { (a, b) } else { (b, a) };
        let mut moved = self.vec.remove(hi);
        proof {
            s.remove_ensures(hi as int);
        }
        self.vec.set_and_swap(lo, &mut moved);
        self.vec.insert(hi, moved);
        proof {
            s.remove(hi as int).update(lo as int, s[hi as int]).insert_ensures(
                hi as int,
                s[lo as int],
            );
            assert(self@ =~= s.update(a as int, s[b as int]).update(b as int, s[a as int]));
        }
    }

    /// Exchanges the contents of two distinct, equally long views: element
    /// by element, the `m`-th element of one view moves to the `m`-th
    /// position of the other, and nothing outside the two views changes.
    pub fn swap_views(&mut self, views: &Views, i: usize, j: usize)
        requires
            views.fits(old(self)@.len() as int),
            i < views@.len(),
            j < views@.len(),
            i != j,
            views@[i as int].1 - views@[i as int].0 == views@[j as int].1 - views@[j as int].0,
        ensures
            final(self)@.len() == old(self)@.len(),
            forall|k: int|
                in_range(views@[i as int], k) ==> final(self)@[k] == old(self)@[k - views@[
                    i as int
                ].0 + views@[j as int].0],
            forall|k: int|
                in_range(views@[j as int], k) ==> final(self)@[k] == old(self)@[k - views@[
                    j as int
                ].0 + views@[i as int].0],
            forall|k: int|
                0 <= k < old(self)@.len() && !in_range(views@[i as int], k) && !in_range(
                    views@[j as int],
                    k,
                ) ==> final(self)@[k] == old(self)@[k],
    {
        proof {
            lemma_check_from_ok(views@, 0, old(self)@.len() as int);
        }
        let (si, ei) = views.bounds(i);
        let (sj, ej) = views.bounds(j);
        let span: usize = ei - si;
        let mut m: usize = 0;
        while m < span
            invariant
                views@[i as int] == (si, ei),
                views@[j as int] == (sj, ej),
                si < ei <= old(self)@.len(),
                sj < ej <= old(self)@.len(),
                ei <= sj || ej <= si,
                span == ei - si,
                span == ej - sj,
                0 <= m <= span,
                self@.len() == old(self)@.len(),
                forall|k: int| si <= k < si + m ==> self@[k] == old(self)@[k - si + sj],
                forall|k: int| sj <= k < sj + m ==> self@[k] == old(self)@[k - sj + si],
                forall|k: int|
                    0 <= k < old(self)@.len() && !(si <= k < si + m) && !(sj <= k < sj + m)
                        ==> self@[k] == old(self)@[k],
            decreases span - m,
        {
            self.swap_elems(si + m, sj + m);
            m = m + 1;
        }
    }
}

impl<T: Clone> Clone for MutSlice<T> {
    /// Deep-copies the backing storage into a new, independent buffer: the
    /// clone has the same length, and each of its elements is a clone of
    /// the element at the same position of the original.
    fn clone(&self) -> (r: Self)
        ensures
            r@.len() == self@.len(),
            forall|i: int| 0 <= i < self@.len() ==> cloned::<T>(self@[i], #[trigger] r@[i]),
    {
        MutSlice { vec: self.vec.clone() }
    }
}

impl<T: PartialEq> PartialEq for MutSlice<T> {
    /// Two buffers are equal exactly when their element sequences are
    /// equal, element by element and in order.
    fn eq(&self, other: &Self) -> (r: bool) {
        self.vec == other.vec
    }
}

impl<T: PartialEq> vstd::std_specs::cmp::PartialEqSpecImpl for MutSlice<T> {
    open spec fn obeys_eq_spec() -> bool {
        T::obeys_eq_spec()
    }

    open spec fn eq_spec(&self, other: &Self) -> bool {
        &&& self@.len() == other@.len()
        &&& forall|i: int| 0 <= i < self@.len() ==> self@[i].eq_spec(&#[trigger] other@[i])
    }
}

/// Law: ingesting a vector and extracting it again yields the original
/// sequence back — any buffer `vec_into` may return for `v`, handed to
/// `into_vec`, gives a vector with the same length and elements as `v`.
pub proof fn lemma_round_trip<T>(v: Vec<T>, ms: MutSlice<T>, out: Vec<T>)
    requires
        call_ensures(MutSlice::<T>::vec_into, (v,), ms),
        call_ensures(MutSlice::<T>::into_vec, (ms,), out),
    ensures
        out@ == v@,
{
}

/// Law: equality of two buffers is decided by their element sequences
/// alone, so buffers over element-wise-equal contents compare equal no
/// matter how much backing capacity either one holds.
pub proof fn lemma_eq_elementwise<T: PartialEq>(a: &MutSlice<T>, b: &MutSlice<T>)
    ensures
        a.eq_spec(b) <==> {
            &&& a@.len() == b@.len()
            &&& forall|i: int| 0 <= i < a@.len() ==> a@[i].eq_spec(&#[trigger] b@[i])
        },
{
}

/// Law: a clone of a buffer compares equal to the buffer it was cloned
/// from, for any element type whose own clone produces values its equality
/// accepts as equal.
pub proof fn lemma_clone_eq<T: PartialEq + Clone>(a: &MutSlice<T>, c: &MutSlice<T>)
    requires
        c@.len() == a@.len(),
        forall|i: int| 0 <= i < a@.len() ==> cloned::<T>(a@[i], #[trigger] c@[i]),
        forall|x: T, y: T| #[trigger] cloned::<T>(x, y) ==> x.eq_spec(&y),
    ensures
        a.eq_spec(c),
{
}

impl<T: Copy> MutSlice<T> {
    /// The contents of the `i`-th view, copied out in order.
    pub fn view_to_vec(&self, views: &Views, i: usize) -> (r: Vec<T>)
        requires
            views.fits(self@.len() as int),
            i < views@.len(),
        ensures
            r@ == self@.subrange(views@[i as int].0 as int, views@[i as int].1 as int),
    {
        proof {
            lemma_check_from_ok(views@, 0, self@.len() as int);
        }
        let (start, end) = views.bounds(i);
        let mut r: Vec<T> = Vec::new();
        proof {
            assert(r@ =~= self@.subrange(start as int, start as int));
        }
        let mut k: usize = start;
        while k < end
            invariant
                views@[i as int] == (start, end),
                start <= k <= end,
                end <= self@.len(),
                r@ == self@.subrange(start as int, k as int),
            decreases end - k,
        {
            r.push(self.vec[k]);
            proof {
                assert(r@ =~= self@.subrange(start as int, k as int + 1));
            }
            k = k + 1;
        }
        r
    }
}

} // verus!
