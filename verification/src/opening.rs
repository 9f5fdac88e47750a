//! Claims about polynomials, and the points at which they were opened.
use crate::field::{challenge_values, JoltField};
use vstd::prelude::*;

verus! {

/// Most significant variable first.
pub const BIG_ENDIAN: bool = false;

/// Least significant variable first.
pub const LITTLE_ENDIAN: bool = true;

/// A point at which a polynomial is opened, its coordinates in the order `E`.
pub struct OpeningPoint<const E: bool, F: JoltField> {
    pub r: Vec<F::Challenge>,
}

impl<const E: bool, F: JoltField> View for OpeningPoint<E, F> {
    type V = Seq<int>;

    open spec fn view(&self) -> Seq<int> {
        challenge_values::<F>(self.r@)
    }
}

/// A copy of the entries `lo .. hi`.
pub(crate) fn copied<T: Copy>(s: &[T], lo: usize, hi: usize) -> (v: Vec<T>)
    requires
        lo <= hi <= s@.len(),
    ensures
        v@ == s@.subrange(lo as int, hi as int),
{
    let mut v: Vec<T> = Vec::new();
    let mut i: usize = lo;
    while i < hi
        invariant
            lo <= i <= hi <= s@.len(),
            v@ == s@.subrange(lo as int, i as int),
        decreases hi - i,
    {
        v.push(s[i]);
        i += 1;
        assert(v@ =~= s@.subrange(lo as int, i as int));
    }
    v
}

/// The entries in the opposite order.
fn reversed<T: Copy>(s: &[T]) -> (v: Vec<T>)
    ensures
        v@ == s@.reverse(),
{
    let mut v: Vec<T> = Vec::new();
    let mut i: usize = s.len();
    while i > 0
        invariant
            i <= s@.len(),
            v@.len() == s@.len() - i,
            forall|k: int| 0 <= k < v@.len() ==> #[trigger] v@[k] == s@.reverse()[k],
        decreases i,
    {
        i -= 1;
        v.push(s[i]);
    }
    assert(v@ =~= s@.reverse());
    v
}

impl<const E: bool, F: JoltField> OpeningPoint<E, F> {
    pub fn new(r: Vec<F::Challenge>) -> (point: Self)
        ensures
            point.r == r,
    {
        OpeningPoint { r }
    }

    /// The first `mid` coordinates, and the others.
    pub fn split_at(&self, mid: usize) -> (parts: (Self, Self))
        requires
            mid <= self@.len(),
        ensures
            parts.0.r@ == self.r@.take(mid as int),
            parts.1.r@ == self.r@.skip(mid as int),
            parts.0@ == self@.take(mid as int),
            parts.1@ == self@.skip(mid as int),
    {
        let parts = (
            Self::new(copied(&self.r, 0, mid)),
            Self::new(copied(&self.r, mid, self.r.len())),
        );
        assert(parts.0.r@ =~= self.r@.take(mid as int));
        assert(parts.1.r@ =~= self.r@.skip(mid as int));
        assert(parts.0@ =~= self@.take(mid as int));
        assert(parts.1@ =~= self@.skip(mid as int));
        parts
    }

    /// The same point with its coordinates in the order `TO`.
    pub fn match_endianness<const TO: bool>(&self) -> (point: OpeningPoint<TO, F>)
        ensures
            point.r@ == (if E == TO {
                self.r@
            } else {
                self.r@.reverse()
            }),
            point@ == (if E == TO {
                self@
            } else {
                self@.reverse()
            }),
    {
        let r = if E == TO {
            copied(&self.r, 0, self.r.len())
        } else {
            reversed(&self.r)
        };
        let point = OpeningPoint::<TO, F>::new(r);
        assert(self.r@.subrange(0, self.r@.len() as int) =~= self.r@);
        assert(point@ =~= (if E == TO {
            self@
        } else {
            self@.reverse()
        }));
        point
    }
}

impl<const E: bool, F: JoltField> Clone for OpeningPoint<E, F> {
    fn clone(&self) -> (point: Self)
        ensures
            point.r@ == self.r@,
            point@ == self@,
    {
        let point = Self::new(copied(&self.r, 0, self.r.len()));
        assert(point.r@ =~= self.r@);
        assert(point@ =~= self@);
        point
    }
}

} // verus!
