//! `Indices`: a lazy, single-pass enumeration of point indices, composed by concatenation.
use vstd::prelude::*;

verus! {

/// An enumerator over the indices of the points of a cluster.
pub enum Indices<'a> {
    /// The indices of a borrowed slice, from position `pos` on, in slice order.
    SliceCopied { items: &'a [usize], pos: usize },
    /// All indices of the first enumerator, then all of the second.
    Chain(Box<Indices<'a>>, Box<Indices<'a>>),
}

impl<'a> Indices<'a> {
    /// Every slice position lies within its slice.
    pub open spec fn wf(&self) -> bool
        decreases self,
    {
        match self {
            Indices::SliceCopied { items, pos } => *pos <= items@.len(),
            Indices::Chain(left, right) => left.wf() && right.wf(),
        }
    }

    /// The indices not yet produced, in the order in which they will come.
    pub open spec fn remaining(&self) -> Seq<usize>
        decreases self,
    {
        match self {
            Indices::SliceCopied { items, pos } => items@.skip(*pos as int),
            Indices::Chain(left, right) => left.remaining() + right.remaining(),
        }
    }

    /// The concatenation of `left` and `right`.
    pub open spec fn chained(left: Indices<'a>, right: Indices<'a>) -> Indices<'a> {
        Indices::Chain(Box::new(left), Box::new(right))
    }

    /// An enumerator over the indices of `items`, in order.
    pub fn from_slice(items: &'a [usize]) -> (r: Indices<'a>)
        ensures
            r.wf(),
            r.remaining() == items@,
    {
        let r = Indices::SliceCopied { items, pos: 0 };
        assert(items@.skip(0) =~= items@);
        r
    }

    /// An enumerator over all indices of `left`, then all of `right`.
    pub fn chain(left: Indices<'a>, right: Indices<'a>) -> (r: Indices<'a>)
        requires
            left.wf(),
            right.wf(),
        ensures
            r == Self::chained(left, right),
            r.wf(),
            r.remaining() == left.remaining() + right.remaining(),
    {
        Indices::Chain(Box::new(left), Box::new(right))
    }

    /// Produces the next index, or `None` once all are produced; an exhausted
    /// enumerator stays exhausted.
    pub fn next(&mut self) -> (r: Option<usize>)
        requires
            old(self).wf(),
        ensures
            final(self).wf(),
            old(self).remaining().len() == 0 ==> r == None::<usize> && final(self).remaining()
                == Seq::<usize>::empty(),
            old(self).remaining().len() > 0 ==> r == Some(old(self).remaining()[0])
                && final(self).remaining() == old(self).remaining().drop_first(),
        decreases *old(self),
    {
        match self {
            Indices::SliceCopied { items, pos } => {
                if *pos < items.len() {
                    let v = items[*pos];
                    *pos = *pos + 1;
                    assert(items@.skip(*pos as int) =~= items@.skip(*pos - 1).drop_first());
                    Some(v)
                } else {
                    assert(items@.skip(*pos as int) =~= Seq::<usize>::empty());
                    None
                }
            }
            Indices::Chain(left, right) => {
                match left.next() {
                    Some(v) => Some(v),
                    None => right.next(),
                }
            }
        }
    }

    /// Produces every index that is left, in order, and leaves the enumerator exhausted.
    pub fn collect_rest(&mut self) -> (r: Vec<usize>)
        requires
            old(self).wf(),
        ensures
            final(self).wf(),
            r@ == old(self).remaining(),
            final(self).remaining() == Seq::<usize>::empty(),
    {
        let mut out: Vec<usize> = Vec::new();
        loop
            invariant
                self.wf(),
                out@ + self.remaining() == old(self).remaining(),
            decreases self.remaining().len(),
        {
            match self.next() {
                Some(v) => {
                    out.push(v);
                },
                None => {
                    assert(out@ + self.remaining() =~= out@);
                    return out;
                },
            }
        }
    }
}

/// Concatenation is associative: chaining `a` with `b` and then with `c` enumerates
/// the same indices, in the same order, as chaining `a` with the chain of `b` and `c`.
pub proof fn lemma_chain_associative<'a>(a: Indices<'a>, b: Indices<'a>, c: Indices<'a>)
    ensures
        Indices::chained(Indices::chained(a, b), c).remaining() == Indices::chained(
            a,
            Indices::chained(b, c),
        ).remaining(),
        Indices::chained(Indices::chained(a, b), c).remaining() == a.remaining() + b.remaining()
            + c.remaining(),
{
    let ab = Indices::chained(a, b);
    let bc = Indices::chained(b, c);
    assert(ab.remaining() == a.remaining() + b.remaining());
    assert(bc.remaining() == b.remaining() + c.remaining());
    assert(Indices::chained(ab, c).remaining() == ab.remaining() + c.remaining());
    assert(Indices::chained(a, bc).remaining() == a.remaining() + bc.remaining());
    assert(a.remaining() + b.remaining() + c.remaining() =~= a.remaining() + (b.remaining()
        + c.remaining()));
}

} // verus!
