//! How ids are written: a UUID in its hyphenated lower-case form.
use vstd::prelude::*;

use crate::idempotency::{hex_char, hex_digit};

verus! {

/// The last `n` hexadecimal digits of `u`, most significant first.
pub open spec fn hex_n(u: nat, n: nat) -> Seq<char>
    decreases n,
{
    if n == 0 {
        seq![]
    } else {
        hex_n(u / 16, (n - 1) as nat).push(hex_digit((u % 16) as u8))
    }
}

/// A UUID as `Display` writes it: 32 lower-case hexadecimal digits of its 128 bits, most
/// significant first, with hyphens after the 8th, 12th, 16th and 20th.
pub open spec fn uuid_text(u: u128) -> Seq<char> {
    let h = hex_n(u as nat, 32);
    h.subrange(0, 8) + seq!['-'] + h.subrange(8, 12) + seq!['-'] + h.subrange(12, 16) + seq!['-']
        + h.subrange(16, 20) + seq!['-'] + h.subrange(20, 32)
}

proof fn lemma_hex_n_len(u: nat, n: nat)
    ensures
        hex_n(u, n).len() == n,
    decreases n,
{
    if n > 0 {
        lemma_hex_n_len(u / 16, (n - 1) as nat);
    }
}

/// A written UUID has 36 characters.
pub proof fn lemma_uuid_text_len(u: u128)
    ensures
        uuid_text(u).len() == 36,
{
    lemma_hex_n_len(u as nat, 32);
}

fn hex_digits(u: u128, n: usize) -> (r: Vec<char>)
    ensures
        r@ == hex_n(u as nat, n as nat),
    decreases n,
{
    if n == 0 {
        Vec::new()
    } else {
        let mut v = hex_digits(u / 16, n - 1);
        v.push(hex_char((u % 16) as u8));
        v
    }
}

/// Writes a UUID (see `uuid_text`).
pub fn uuid_string(u: u128) -> (r: String)
    ensures
        r@ == uuid_text(u),
{
    let h = hex_digits(u, 32);
    proof {
        lemma_hex_n_len(u as nat, 32);
    }
    let mut out = String::new();
    crate::text::push_range(&mut out, &h, 0, 8);
    out.push('-');
    crate::text::push_range(&mut out, &h, 8, 12);
    out.push('-');
    crate::text::push_range(&mut out, &h, 12, 16);
    out.push('-');
    crate::text::push_range(&mut out, &h, 16, 20);
    out.push('-');
    crate::text::push_range(&mut out, &h, 20, 32);
    proof {
        assert(out@ =~= uuid_text(u));
    }
    out
}

} // verus!
