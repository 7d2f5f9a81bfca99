//! Rendering of digests as colon-separated upper-case hexadecimal octets.

use vstd::prelude::*;

verus! {

/// The sixteen hexadecimal digits, in order of their value.
pub open spec fn hex_digits() -> Seq<char> {
    "0123456789ABCDEF"@
}

/// Number of characters in the rendering of `n` octets: two digits for each,
/// and a colon between neighbours.
pub open spec fn text_len(n: nat) -> nat {
    if n == 0 {
        0
    } else {
        (3 * n - 1) as nat
    }
}

/// The character at position `i` of the rendering of `octets`.
pub open spec fn text_char(octets: Seq<u8>, i: int) -> char {
    if i % 3 == 0 {
        hex_digits()[octets[i / 3] as int / 16]
    } else if i % 3 == 1 {
        hex_digits()[octets[i / 3] as int % 16]
    } else {
        ':'
    }
}

/// `octets` written as upper-case hexadecimal pairs joined by `:`.
pub open spec fn fingerprint_text(octets: Seq<u8>) -> Seq<char> {
    Seq::new(text_len(octets.len()), |i: int| text_char(octets, i))
}

/// One hexadecimal digit as a string slice.
fn hex_digit(value: u8) -> (digit: &'static str)
    requires
        value < 16,
    ensures
        digit@ == seq![hex_digits()[value as int]],
{
    let digits = "0123456789ABCDEF";
    proof {
        reveal_strlit("0123456789ABCDEF");
    }
    let at: usize = value as usize;
    let digit = digits.substring_ascii(at, at + 1);
    assert(digit@ =~= seq![hex_digits()[value as int]]);
    digit
}

/// Renders `octets` as upper-case hexadecimal pairs joined by `:`.
pub fn colon_hex(octets: &[u8]) -> (text: String)
    ensures
        text@ == fingerprint_text(octets@),
{
    let mut text = String::new();
    let n = octets.len();
    let mut i: usize = 0;
    while i < n
        invariant
            n == octets@.len(),
            i <= n,
            text@ == fingerprint_text(octets@.take(i as int)),
        decreases n - i,
    {
        let octet: u8 = octets[i];
        let ghost before = text@;
        if i > 0 {
            text.append(":");
        }
        text.append(hex_digit(octet / 16));
        text.append(hex_digit(octet % 16));
        proof {
            reveal_strlit(":");
            let shorter = octets@.take(i as int);
            let longer = octets@.take(i as int + 1);
            assert(before == fingerprint_text(shorter));
            assert(text@.len() == text_len(longer.len()));
            assert forall|k: int| 0 <= k < text@.len() implies text@[k] == text_char(
                longer,
                k,
            ) by {
                if k < before.len() {
                    assert(text@[k] == before[k]);
                    assert(before[k] == text_char(shorter, k));
                    assert(shorter[k / 3] == longer[k / 3]);
                }
            }
            assert(text@ =~= fingerprint_text(longer));
        }
        i = i + 1;
    }
    assert(octets@.take(n as int) =~= octets@);
    text
}

/// Two digits of equal face have equal value.
pub proof fn lemma_hex_digits_distinct(a: int, b: int)
    requires
        0 <= a < 16,
        0 <= b < 16,
        hex_digits()[a] == hex_digits()[b],
    ensures
        a == b,
{
    reveal_strlit("0123456789ABCDEF");
}

/// A rendering is empty only for no octets at all, and has three characters
/// for each octet but the last, which has two.
pub proof fn lemma_fingerprint_len(octets: Seq<u8>)
    ensures
        fingerprint_text(octets).len() == text_len(octets.len()),
        octets.len() > 0 ==> fingerprint_text(octets).len() > 0,
{
}

/// Different octets never render alike: equal renderings come from equal
/// octet sequences.
pub proof fn lemma_fingerprint_injective(a: Seq<u8>, b: Seq<u8>)
    requires
        fingerprint_text(a) == fingerprint_text(b),
    ensures
        a == b,
{
    let ta = fingerprint_text(a);
    let tb = fingerprint_text(b);
    assert(ta.len() == text_len(a.len()));
    assert(tb.len() == text_len(b.len()));
    assert(a.len() == b.len());
    assert forall|k: int| 0 <= k < a.len() implies a[k] == b[k] by {
        assert(ta[3 * k] == text_char(a, 3 * k));
        assert(tb[3 * k] == text_char(b, 3 * k));
        assert(ta[3 * k + 1] == text_char(a, 3 * k + 1));
        assert(tb[3 * k + 1] == text_char(b, 3 * k + 1));
        lemma_hex_digits_distinct(a[k] as int / 16, b[k] as int / 16);
        lemma_hex_digits_distinct(a[k] as int % 16, b[k] as int % 16);
    }
    assert(a =~= b);
}

} // verus!
