//! Responses and their wire framing.
//!
//! Framing: `+label`, `-ERR message` and `:n` lines; `$len` bulk strings
//! with `$-1` for nil; `*count` arrays of bulk strings. Every line ends in
//! carriage return and line feed.

use vstd::prelude::*;

use vstd::string::StrSliceExecFns;
use vstd::string::StringSliceAdditionalSpecFns;

use crate::bytes::append_bytes;
use crate::bytes::views_of;
use crate::num::dec_digits;
use crate::num::dec_int;
use crate::num::i64_to_dec;
use crate::num::u64_to_dec;

verus! {

/// A response of the command processor.
pub enum Resp {
    /// A simple status label, sent as `+label`.
    Simple(Vec<u8>),
    /// An error message, sent as `-ERR message`.
    Error(Vec<u8>),
    /// A signed count or sentinel, sent as `:n`.
    Int(i64),
    /// An unsigned count, sent as `:n`.
    Uint(u64),
    /// The absent result, sent as `$-1`.
    Nil,
    /// One byte string, sent as a bulk string.
    Bulk(Vec<u8>),
    /// A list of byte strings, sent as an array of bulk strings.
    Array(Vec<Vec<u8>>),
}

/// Mathematical model of a [`Resp`].
pub enum RespModel {
    Simple(Seq<u8>),
    Error(Seq<u8>),
    Int(i64),
    Uint(u64),
    Nil,
    Bulk(Seq<u8>),
    Array(Seq<Seq<u8>>),
}

impl View for Resp {
    type V = RespModel;

    open spec fn view(&self) -> RespModel {
        match self {
            Resp::Simple(s) => RespModel::Simple(s@),
            Resp::Error(m) => RespModel::Error(m@),
            Resp::Int(n) => RespModel::Int(*n),
            Resp::Uint(n) => RespModel::Uint(*n),
            Resp::Nil => RespModel::Nil,
            Resp::Bulk(s) => RespModel::Bulk(s@),
            Resp::Array(items) => RespModel::Array(views_of(items@)),
        }
    }
}

/// The line terminator.
pub open spec fn crlf() -> Seq<u8> {
    seq![13u8, 10u8]
}

/// The error line prefix.
pub open spec fn err_prefix() -> Seq<u8> {
    "-ERR ".spec_bytes()
}

/// The wire form of one bulk string.
pub open spec fn bulk_spec(s: Seq<u8>) -> Seq<u8> {
    seq![36u8] + dec_digits(s.len()) + crlf() + s + crlf()
}

/// The concatenated bulk strings of an array body.
pub open spec fn array_body(items: Seq<Seq<u8>>) -> Seq<u8>
    decreases items.len(),
{
    if items.len() == 0 {
        Seq::empty()
    } else {
        array_body(items.drop_last()) + bulk_spec(items.last())
    }
}

/// The full wire form of a response.
pub open spec fn render_spec(r: RespModel) -> Seq<u8> {
    match r {
        RespModel::Simple(s) => seq![43u8] + s + crlf(),
        RespModel::Error(m) => err_prefix() + m + crlf(),
        RespModel::Int(n) => seq![58u8] + dec_int(n as int) + crlf(),
        RespModel::Uint(n) => seq![58u8] + dec_digits(n as nat) + crlf(),
        RespModel::Nil => seq![36u8, 45u8, 49u8] + crlf(),
        RespModel::Bulk(s) => bulk_spec(s),
        RespModel::Array(items) => seq![42u8] + dec_digits(items.len()) + crlf() + array_body(
            items,
        ),
    }
}

/// Appends the line terminator.
fn push_crlf(out: &mut Vec<u8>)
    ensures
        final(out)@ == old(out)@ + crlf(),
{
    out.push(13u8);
    out.push(10u8);
    proof {
        assert(out@ =~= old(out)@ + crlf());
    }
}

/// Appends one bulk string in wire form.
fn append_bulk(out: &mut Vec<u8>, s: &Vec<u8>)
    ensures
        final(out)@ == old(out)@ + bulk_spec(s@),
{
    out.push(36u8);
    let d = u64_to_dec(s.len() as u64);
    append_bytes(out, &d);
    push_crlf(out);
    append_bytes(out, s);
    push_crlf(out);
    proof {
        assert(out@ =~= old(out)@ + bulk_spec(s@));
    }
}

/// Renders a response to its wire bytes.
pub fn render(resp: &Resp) -> (out: Vec<u8>)
    ensures
        out@ == render_spec(resp@),
{
    match resp {
        Resp::Simple(s) => {
            let mut out: Vec<u8> = Vec::new();
            out.push(43u8);
            append_bytes(&mut out, s);
            push_crlf(&mut out);
            proof {
                assert(out@ =~= render_spec(resp@));
            }
            out
        },
        Resp::Error(m) => {
            let mut out = "-ERR ".as_bytes_vec();
            append_bytes(&mut out, m);
            push_crlf(&mut out);
            proof {
                assert(out@ =~= render_spec(resp@));
            }
            out
        },
        Resp::Int(n) => {
            let mut out: Vec<u8> = Vec::new();
            out.push(58u8);
            let d = i64_to_dec(*n);
            append_bytes(&mut out, &d);
            push_crlf(&mut out);
            proof {
                assert(out@ =~= render_spec(resp@));
            }
            out
        },
        Resp::Uint(n) => {
            let mut out: Vec<u8> = Vec::new();
            out.push(58u8);
            let d = u64_to_dec(*n);
            append_bytes(&mut out, &d);
            push_crlf(&mut out);
            proof {
                assert(out@ =~= render_spec(resp@));
            }
            out
        },
        Resp::Nil => {
            let mut out: Vec<u8> = Vec::new();
            out.push(36u8);
            out.push(45u8);
            out.push(49u8);
            push_crlf(&mut out);
            proof {
                assert(out@ =~= render_spec(resp@));
            }
            out
        },
        Resp::Bulk(s) => {
            let mut out: Vec<u8> = Vec::new();
            append_bulk(&mut out, s);
            proof {
                assert(out@ =~= render_spec(resp@));
            }
            out
        },
        Resp::Array(items) => {
            let ghost vs = views_of(items@);
            let mut out: Vec<u8> = Vec::new();
            out.push(42u8);
            let d = u64_to_dec(items.len() as u64);
            append_bytes(&mut out, &d);
            push_crlf(&mut out);
            let ghost hdr = out@;
            proof {
                assert(vs.take(0) =~= Seq::<Seq<u8>>::empty());
                assert(hdr + array_body(vs.take(0)) =~= hdr);
            }
            let n = items.len();
            let mut i: usize = 0;
            while i < n
                invariant
                    vs == views_of(items@),
                    n == items@.len(),
                    i <= n,
                    out@ == hdr + array_body(vs.take(i as int)),
                decreases n - i,
            {
                append_bulk(&mut out, &items[i]);
                proof {
                    assert(vs.take(i + 1).drop_last() =~= vs.take(i as int));
                    assert(vs.take(i + 1).last() == items@[i as int]@);
                    assert(out@ =~= hdr + array_body(vs.take(i + 1)));
                }
                i += 1;
            }
            proof {
                assert(vs.take(n as int) =~= vs);
                assert(hdr =~= seq![42u8] + dec_digits(vs.len()) + crlf());
                assert(out@ =~= render_spec(resp@));
            }
            out
        },
    }
}

} // verus!
