//! Small verified helpers on byte strings.

use vstd::prelude::*;

verus! {

/// The views of a sequence of byte vectors.
pub open spec fn views_of(s: Seq<Vec<u8>>) -> Seq<Seq<u8>> {
    s.map_values(|v: Vec<u8>| v@)
}

/// True iff the two byte strings hold the same bytes.
pub fn bytes_eq(a: &Vec<u8>, b: &Vec<u8>) -> (r: bool)
    ensures
        r == (a@ == b@),
{
    if a.len() != b.len() {
        return false;
    }
    let mut i: usize = 0;
    while i < a.len()
        invariant
            i <= a@.len(),
            a@.len() == b@.len(),
            forall|j: int| 0 <= j < i ==> a@[j] == b@[j],
        decreases a@.len() - i,
    {
        if a[i] != b[i] {
            return false;
        }
        i += 1;
    }
    proof {
        assert(a@ =~= b@);
    }
    true
}

/// An owned copy of a byte string.
pub fn copy_bytes(v: &Vec<u8>) -> (r: Vec<u8>)
    ensures
        r@ == v@,
{
    vstd::slice::slice_to_vec(v.as_slice())
}

/// Appends a copy of `tail` to `out`.
pub fn append_bytes(out: &mut Vec<u8>, tail: &Vec<u8>)
    ensures
        final(out)@ == old(out)@ + tail@,
{
    let mut i: usize = 0;
    while i < tail.len()
        invariant
            i <= tail@.len(),
            out@ == old(out)@ + tail@.take(i as int),
        decreases tail@.len() - i,
    {
        out.push(tail[i]);
        proof {
            assert(old(out)@ + tail@.take(i as int) + seq![tail@[i as int]] =~= old(out)@
                + tail@.take(i + 1));
        }
        i += 1;
    }
    proof {
        assert(tail@.take(tail@.len() as int) =~= tail@);
    }
}

/// Appends copies of all elements of `src` to `dst`.
pub fn append_copies(dst: &mut Vec<Vec<u8>>, src: &Vec<Vec<u8>>)
    ensures
        views_of(final(dst)@) == views_of(old(dst)@) + views_of(src@),
{
    let mut i: usize = 0;
    while i < src.len()
        invariant
            i <= src@.len(),
            views_of(dst@) == views_of(old(dst)@) + views_of(src@).take(i as int),
        decreases src@.len() - i,
    {
        let ghost d0 = dst@;
        dst.push(copy_bytes(&src[i]));
        proof {
            let c = dst@.last();
            assert(dst@ == d0.push(c));
            assert(c@ == src@[i as int]@);
            assert forall|j: int| 0 <= j < dst@.len() implies #[trigger] views_of(dst@)[j]
                == views_of(d0).push(c@)[j] by {
                if j < d0.len() {
                    assert(dst@[j] == d0[j]);
                } else {
                    assert(dst@[j] == c);
                }
            }
            assert(views_of(dst@) =~= views_of(d0).push(c@));
            assert(views_of(d0).push(c@) =~= views_of(old(dst)@) + views_of(src@).take(i + 1));
        }
        i += 1;
    }
    proof {
        assert(views_of(src@).take(src@.len() as int) =~= views_of(src@));
    }
}

/// Copies the elements of `src` in positions `from..to`.
pub fn copy_range(src: &Vec<Vec<u8>>, from: usize, to: usize) -> (r: Vec<Vec<u8>>)
    requires
        from <= to <= src@.len(),
    ensures
        views_of(r@) == views_of(src@).subrange(from as int, to as int),
{
    let mut out: Vec<Vec<u8>> = Vec::new();
    let mut i: usize = from;
    proof {
        assert(views_of(out@) =~= views_of(src@).subrange(from as int, from as int));
    }
    while i < to
        invariant
            from <= i <= to <= src@.len(),
            views_of(out@) == views_of(src@).subrange(from as int, i as int),
        decreases to - i,
    {
        let ghost o0 = out@;
        out.push(copy_bytes(&src[i]));
        proof {
            let c = out@.last();
            assert(out@ == o0.push(c));
            assert(c@ == src@[i as int]@);
            assert forall|j: int| 0 <= j < out@.len() implies #[trigger] views_of(out@)[j]
                == views_of(o0).push(c@)[j] by {
                if j < o0.len() {
                    assert(out@[j] == o0[j]);
                } else {
                    assert(out@[j] == c);
                }
            }
            assert(views_of(out@) =~= views_of(o0).push(c@));
            assert(views_of(o0).push(c@) =~= views_of(src@).subrange(from as int, i + 1));
        }
        i += 1;
    }
    out
}

/// Copies the elements of `src` from position `from` to the end.
pub fn copy_tail(src: &Vec<Vec<u8>>, from: usize) -> (r: Vec<Vec<u8>>)
    requires
        from <= src@.len(),
    ensures
        views_of(r@) == views_of(src@).skip(from as int),
{
    let r = copy_range(src, from, src.len());
    proof {
        assert(views_of(src@).subrange(from as int, src@.len() as int) =~= views_of(
            src@,
        ).skip(from as int));
    }
    r
}

/// An owned copy of a list of byte strings, element by element.
pub fn copy_list(l: &Vec<Vec<u8>>) -> (r: Vec<Vec<u8>>)
    ensures
        views_of(r@) == views_of(l@),
{
    let mut out: Vec<Vec<u8>> = Vec::new();
    append_copies(&mut out, l);
    proof {
        assert(views_of(out@) =~= views_of(l@));
    }
    out
}

} // verus!
