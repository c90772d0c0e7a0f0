//! Clipboard payload. Copying goes through OSC 52, which hands the terminal a
//! standard base64 text; writing that sequence out is the front end's job.
use vstd::prelude::*;

use crate::text::push_char;

verus! {

broadcast use vstd::string::group_string_axioms;

/// The standard base64 alphabet.
pub open spec fn b64_alphabet() -> Seq<char> {
    "ABCDEFGHIJKLMNOPQRSTUVWXYZabcdefghijklmnopqrstuvwxyz0123456789+/"@
}

/// The four characters for the three bytes starting at `i` (fewer at the end,
/// padded with `=`).
pub open spec fn b64_chunk(d: Seq<u8>, i: int) -> Seq<char> {
    let n = d.len() - i;
    let b0 = d[i] as int;
    let b1 = if n > 1 { d[i + 1] as int } else { 0 };
    let b2 = if n > 2 { d[i + 2] as int } else { 0 };
    seq![
        b64_alphabet()[b0 / 4],
        b64_alphabet()[(b0 % 4) * 16 + b1 / 16],
        if n > 1 { b64_alphabet()[(b1 % 16) * 4 + b2 / 64] } else { '=' },
        if n > 2 { b64_alphabet()[b2 % 64] } else { '=' },
    ]
}

/// Base64 of the bytes from `i` on.
pub open spec fn b64_from(d: Seq<u8>, i: int) -> Seq<char>
    decreases if i >= d.len() { 0 } else { d.len() - i },
{
    if i >= d.len() {
        Seq::empty()
    } else {
        b64_chunk(d, i) + b64_from(d, i + 3)
    }
}

/// Standard base64 (RFC 4648, with padding).
pub open spec fn base64(d: Seq<u8>) -> Seq<char> {
    b64_from(d, 0)
}

proof fn lemma_b64_from_len(d: Seq<u8>, i: int)
    requires
        0 <= i,
    ensures
        i >= d.len() ==> b64_from(d, i).len() == 0,
        i < d.len() ==> b64_from(d, i).len() == 4 * ((d.len() - i + 2) / 3),
    decreases if i >= d.len() { 0 } else { d.len() - i },
{
    if i < d.len() {
        lemma_b64_from_len(d, i + 3);
    }
}

fn b64_char(v: u32) -> (c: char)
    requires
        v < 64,
    ensures
        c == b64_alphabet()[v as int],
{
    let table = "ABCDEFGHIJKLMNOPQRSTUVWXYZabcdefghijklmnopqrstuvwxyz0123456789+/";
    proof {
        reveal_strlit("ABCDEFGHIJKLMNOPQRSTUVWXYZabcdefghijklmnopqrstuvwxyz0123456789+/");
    }
    table.get_char(v as usize)
}

/// Base64-encodes bytes: every three bytes become four characters, a short
/// last group is padded with `=`, so the length is always a multiple of four.
pub fn base64_encode(data: &[u8]) -> (r: String)
    ensures
        r@ == base64(data@),
        r@.len() == 4 * ((data@.len() + 2) / 3),
{
    let mut out = String::new();
    let n = data.len();
    let mut i: usize = 0;
    proof {
        assert(out@ + b64_from(data@, 0) =~= base64(data@));
    }
    while i < n
        invariant
            n == data@.len(),
            i % 3 == 0,
            out@ + b64_from(data@, i as int) == base64(data@),
        decreases n - i,
    {
        let ghost before = out@;
        let b0 = data[i] as u32;
        let b1: u32 = if i + 1 < n { data[i + 1] as u32 } else { 0 };
        let b2: u32 = if i + 2 < n { data[i + 2] as u32 } else { 0 };
        push_char(&mut out, b64_char(b0 / 4));
        push_char(&mut out, b64_char((b0 % 4) * 16 + b1 / 16));
        if i + 1 < n {
            push_char(&mut out, b64_char((b1 % 16) * 4 + b2 / 64));
        } else {
            push_char(&mut out, '=');
        }
        if i + 2 < n {
            push_char(&mut out, b64_char(b2 % 64));
        } else {
            push_char(&mut out, '=');
        }
        proof {
            assert(out@ =~= before + b64_chunk(data@, i as int));
            assert(b64_from(data@, i as int) == b64_chunk(data@, i as int) + b64_from(data@, i + 3));
            assert(before + b64_chunk(data@, i as int) + b64_from(data@, i + 3) =~= before + (b64_chunk(
                data@,
                i as int,
            ) + b64_from(data@, i + 3)));
        }
        if n - i <= 3 {
            proof {
                assert(b64_from(data@, i + 3) == Seq::<char>::empty());
                assert(out@ + Seq::<char>::empty() =~= out@);
                lemma_b64_from_len(data@, 0);
            }
            return out;
        }
        i = i + 3;
    }
    proof {
        assert(b64_from(data@, i as int) == Seq::<char>::empty());
        assert(out@ + Seq::<char>::empty() =~= out@);
        lemma_b64_from_len(data@, 0);
    }
    out
}

} // verus!
