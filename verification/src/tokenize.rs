//! Splitting a request line into whitespace-separated tokens.

use vstd::prelude::*;

use crate::bytes::views_of;

verus! {

/// An ASCII whitespace byte: space, tab, vertical tab, form feed, carriage
/// return or line feed.
pub open spec fn is_ws(b: u8) -> bool {
    b == 32 || b == 9 || b == 10 || b == 11 || b == 12 || b == 13
}

/// The length of the maximal non-whitespace run at the front of `s`.
pub open spec fn token_len(s: Seq<u8>) -> nat
    decreases s.len(),
{
    if s.len() == 0 || is_ws(s[0]) {
        0
    } else {
        1 + token_len(s.drop_first())
    }
}

/// The whitespace-separated tokens of `s`, in order.
pub open spec fn tokens_of(s: Seq<u8>) -> Seq<Seq<u8>>
    decreases s.len(),
    via tokens_of_decreases
{
    if s.len() == 0 {
        Seq::empty()
    } else if is_ws(s[0]) {
        tokens_of(s.drop_first())
    } else {
        seq![s.take(token_len(s) as int)] + tokens_of(s.skip(token_len(s) as int))
    }
}

#[via_fn]
proof fn tokens_of_decreases(s: Seq<u8>) {
    if s.len() > 0 && !is_ws(s[0]) {
        lemma_token_len_le(s);
        assert(token_len(s) >= 1);
    }
}

/// The front token never runs past the end of the text.
proof fn lemma_token_len_le(s: Seq<u8>)
    ensures
        token_len(s) <= s.len(),
    decreases s.len(),
{
    if s.len() > 0 && !is_ws(s[0]) {
        lemma_token_len_le(s.drop_first());
    }
}

/// A scanned non-whitespace run, stopped at the end or at whitespace, is
/// exactly the front token.
proof fn lemma_token_len_run(t: Seq<u8>, k: int)
    requires
        0 <= k <= t.len(),
        forall|j: int| 0 <= j < k ==> !is_ws(#[trigger] t[j]),
        k == t.len() || is_ws(t[k]),
    ensures
        token_len(t) == k,
    decreases k,
{
    if k == 0 {
    } else {
        let d = t.drop_first();
        assert(forall|j: int| 0 <= j < k - 1 ==> !is_ws(#[trigger] d[j]));
        if k - 1 < d.len() {
            assert(d[k - 1] == t[k]);
        }
        lemma_token_len_run(d, k - 1);
    }
}

/// Splits `line` into its whitespace-separated tokens.
pub fn tokenize(line: &Vec<u8>) -> (r: Vec<Vec<u8>>)
    ensures
        views_of(r@) == tokens_of(line@),
{
    let n = line.len();
    let mut out: Vec<Vec<u8>> = Vec::new();
    let mut i: usize = 0;
    proof {
        assert(line@.skip(0) =~= line@);
        assert(views_of(out@) + tokens_of(line@) =~= tokens_of(line@));
    }
    while i < n
        invariant
            n == line@.len(),
            i <= n,
            tokens_of(line@) == views_of(out@) + tokens_of(line@.skip(i as int)),
        decreases n - i,
    {
        let b = line[i];
        if b == 32 || b == 9 || b == 10 || b == 11 || b == 12 || b == 13 {
            proof {
                let t = line@.skip(i as int);
                assert(t[0] == line@[i as int]);
                assert(t.drop_first() =~= line@.skip(i + 1));
            }
            i += 1;
        } else {
            let start = i;
            i += 1;
            while i < n && !(line[i] == 32 || line[i] == 9 || line[i] == 10 || line[i] == 11
                || line[i] == 12 || line[i] == 13)
                invariant
                    n == line@.len(),
                    start < i <= n,
                    forall|j: int| start <= j < i ==> !is_ws(#[trigger] line@[j]),
                decreases n - i,
            {
                i += 1;
            }
            let tok = vstd::slice::slice_to_vec(
                vstd::slice::slice_subrange(line.as_slice(), start, i),
            );
            let ghost o0 = out@;
            out.push(tok);
            proof {
                let t = line@.skip(start as int);
                assert forall|j: int| 0 <= j < i - start implies !is_ws(#[trigger] t[j]) by {
                    assert(t[j] == line@[start + j]);
                }
                if i < n {
                    assert(t[i - start] == line@[i as int]);
                }
                lemma_token_len_run(t, i - start);
                assert(t.take(i - start) =~= line@.subrange(start as int, i as int));
                assert(t.skip(i - start) =~= line@.skip(i as int));
                let c = out@.last();
                assert(out@ == o0.push(c));
                assert forall|j: int| 0 <= j < out@.len() implies #[trigger] views_of(out@)[j]
                    == views_of(o0).push(c@)[j] by {
                    if j < o0.len() {
                        assert(out@[j] == o0[j]);
                    } else {
                        assert(out@[j] == c);
                    }
                }
                assert(views_of(out@) =~= views_of(o0).push(c@));
                assert(views_of(o0) + tokens_of(line@.skip(start as int)) =~= views_of(out@)
                    + tokens_of(line@.skip(i as int)));
            }
        }
    }
    proof {
        assert(line@.skip(n as int) =~= Seq::<u8>::empty());
        assert(tokens_of(line@) =~= views_of(out@));
    }
    out
}

} // verus!
