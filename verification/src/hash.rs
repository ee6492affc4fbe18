//! The content fingerprint: a djb2-style accumulator over the bytes of a
//! translation string, rendered as lowercase hexadecimal.

use vstd::prelude::*;
use vstd::string::StringExecFns;
use vstd::string::StringSliceAdditionalSpecFns;

verus! {

/// One step of the accumulator: multiply by 33 modulo 2^32, then
/// exclusive-or the next byte.
pub open spec fn hash_step(h: u32, b: u8) -> u32 {
    vstd::wrapping::u32_specs::wrapping_mul(h, 33) ^ (b as u32)
}

/// The accumulator over a byte sequence, starting from 5381.
pub open spec fn hash_acc(bytes: Seq<u8>) -> u32
    decreases bytes.len(),
{
    if bytes.len() == 0 {
        5381u32
    } else {
        hash_step(hash_acc(bytes.drop_last()), bytes.last())
    }
}

/// The lowercase hexadecimal digit for a value below 16.
pub open spec fn hex_digit(d: int) -> char {
    if d == 0 {
        '0'
    } else if d == 1 {
        '1'
    } else if d == 2 {
        '2'
    } else if d == 3 {
        '3'
    } else if d == 4 {
        '4'
    } else if d == 5 {
        '5'
    } else if d == 6 {
        '6'
    } else if d == 7 {
        '7'
    } else if d == 8 {
        '8'
    } else if d == 9 {
        '9'
    } else if d == 10 {
        'a'
    } else if d == 11 {
        'b'
    } else if d == 12 {
        'c'
    } else if d == 13 {
        'd'
    } else if d == 14 {
        'e'
    } else {
        'f'
    }
}

/// Lowercase hexadecimal rendering of a positive integer, with no leading
/// zeroes; empty for zero and below.
pub open spec fn hex_chars(n: int) -> Seq<char>
    decreases n,
{
    if n <= 0 {
        Seq::empty()
    } else {
        hex_chars(n / 16).push(hex_digit(n % 16))
    }
}

/// The fingerprint of a byte sequence: the djb2-style accumulator in
/// lowercase hexadecimal. Leading zeroes are suppressed, so the result has
/// between 1 and 8 characters.
pub open spec fn fingerprint(bytes: Seq<u8>) -> Seq<char> {
    if hash_acc(bytes) == 0 {
        seq!['0']
    } else {
        hex_chars(hash_acc(bytes) as int)
    }
}

/// 16 to the power of k.
spec fn pow16(k: nat) -> int
    decreases k,
{
    if k == 0 {
        1
    } else {
        16 * pow16((k - 1) as nat)
    }
}

/// The rendering of a value below 16^k takes at most k digits.
proof fn lemma_hex_chars_len(n: int, k: nat)
    requires
        0 <= n < pow16(k),
    ensures
        hex_chars(n).len() <= k,
    decreases k,
{
    if n > 0 {
        assert(k > 0);
        assert(n / 16 < pow16((k - 1) as nat)) by (nonlinear_arith)
            requires
                0 <= n < 16 * pow16((k - 1) as nat),
        {
        }
        lemma_hex_chars_len(n / 16, (k - 1) as nat);
    }
}

/// The fingerprint never exceeds 8 characters and is never empty.
pub proof fn lemma_fingerprint_len(bytes: Seq<u8>)
    ensures
        1 <= fingerprint(bytes).len() <= 8,
{
    let h = hash_acc(bytes);
    if h != 0 {
        assert(pow16(8) == 0x1_0000_0000) by {
            reveal_with_fuel(pow16, 9);
        }
        lemma_hex_chars_len(h as int, 8);
    }
}

/// Appends the hexadecimal digit for `d` to `s`.
fn append_hex_digit(s: &mut String, d: u8)
    requires
        d < 16,
    ensures
        final(s)@ == old(s)@.push(hex_digit(d as int)),
{
    proof {
        reveal_strlit("0");
        reveal_strlit("1");
        reveal_strlit("2");
        reveal_strlit("3");
        reveal_strlit("4");
        reveal_strlit("5");
        reveal_strlit("6");
        reveal_strlit("7");
        reveal_strlit("8");
        reveal_strlit("9");
        reveal_strlit("a");
        reveal_strlit("b");
        reveal_strlit("c");
        reveal_strlit("d");
        reveal_strlit("e");
        reveal_strlit("f");
    }
    let ghost target = old(s)@.push(hex_digit(d as int));
    if d == 0 {
        s.append("0");
    } else if d == 1 {
        s.append("1");
    } else if d == 2 {
        s.append("2");
    } else if d == 3 {
        s.append("3");
    } else if d == 4 {
        s.append("4");
    } else if d == 5 {
        s.append("5");
    } else if d == 6 {
        s.append("6");
    } else if d == 7 {
        s.append("7");
    } else if d == 8 {
        s.append("8");
    } else if d == 9 {
        s.append("9");
    } else if d == 10 {
        s.append("a");
    } else if d == 11 {
        s.append("b");
    } else if d == 12 {
        s.append("c");
    } else if d == 13 {
        s.append("d");
    } else if d == 14 {
        s.append("e");
    } else {
        s.append("f");
    }
    proof {
        assert(s@ =~= target);
    }
}

/// Appends the hexadecimal rendering of `n` to `s`, most significant digit
/// first.
fn append_hex(n: u32, s: &mut String)
    requires
        n > 0,
    ensures
        final(s)@ == old(s)@ + hex_chars(n as int),
    decreases n,
{
    if n >= 16 {
        append_hex(n / 16, s);
    }
    append_hex_digit(s, (n % 16) as u8);
    proof {
        assert(hex_chars(0) == Seq::<char>::empty());
        assert((n as int) / 16 == (n / 16) as int);
        assert((n as int) % 16 == (n % 16) as int);
        assert(s@ =~= old(s)@ + hex_chars(n as int));
    }
}

/// Renders the accumulator value in lowercase hexadecimal ("0" for zero).
fn render_hash(h: u32) -> (r: String)
    ensures
        r@ == (if h == 0 { seq!['0'] } else { hex_chars(h as int) }),
{
    let mut s = String::new();
    if h == 0 {
        append_hex_digit(&mut s, 0);
        proof {
            assert(s@ =~= seq!['0']);
        }
    } else {
        append_hex(h, &mut s);
        proof {
            assert(s@ =~= hex_chars(h as int));
        }
    }
    s
}

/// Computes the fingerprint of `content`: the djb2-style accumulator over
/// its bytes, rendered as lowercase hexadecimal with leading zeroes
/// suppressed. Deterministic: equal byte sequences yield equal results.
pub fn generate_hash(content: &str) -> (r: String)
    ensures
        r@ == fingerprint(content.spec_bytes()),
        1 <= r@.len() <= 8,
{
    let bytes = content.as_bytes();
    let n = bytes.len();
    let mut h: u32 = 5381;
    let mut i: usize = 0;
    while i < n
        invariant
            i <= n,
            n == bytes@.len(),
            h == hash_acc(bytes@.take(i as int)),
        decreases n - i,
    {
        let b = bytes[i];
        h = h.wrapping_mul(33) ^ (b as u32);
        proof {
            assert(bytes@.take(i + 1).drop_last() =~= bytes@.take(i as int));
            assert(bytes@.take(i + 1).last() == b);
        }
        i = i + 1;
    }
    proof {
        assert(bytes@.take(n as int) =~= bytes@);
        lemma_fingerprint_len(content.spec_bytes());
    }
    render_hash(h)
}

/// The fingerprint is a function of the bytes alone: equal byte sequences
/// always hash alike.
pub proof fn lemma_hash_deterministic(b1: Seq<u8>, b2: Seq<u8>)
    requires
        b1 == b2,
    ensures
        fingerprint(b1) == fingerprint(b2),
{
}

} // verus!
