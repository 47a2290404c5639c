//! Base58 text of Solana public keys: which texts decode, and to how many bytes.

use vstd::prelude::*;

verus! {

/// A character of the base58 alphabet: the digits and letters without `0`,
/// `O`, `I` and `l`.
pub open spec fn is_base58_char(c: char) -> bool {
    ('1' <= c && c <= '9') || ('A' <= c && c <= 'H') || ('J' <= c && c <= 'N') || ('P' <= c
        && c <= 'Z') || ('a' <= c && c <= 'k') || ('m' <= c && c <= 'z')
}

/// The value of a base58 character: its position in
/// `123456789ABCDEFGHJKLMNPQRSTUVWXYZabcdefghijkmnopqrstuvwxyz`.
pub open spec fn base58_digit(c: char) -> nat {
    if '1' <= c && c <= '9' {
        (c as u32 - '1' as u32) as nat
    } else if 'A' <= c && c <= 'H' {
        (c as u32 - 'A' as u32 + 9) as nat
    } else if 'J' <= c && c <= 'N' {
        (c as u32 - 'J' as u32 + 17) as nat
    } else if 'P' <= c && c <= 'Z' {
        (c as u32 - 'P' as u32 + 22) as nat
    } else if 'a' <= c && c <= 'k' {
        (c as u32 - 'a' as u32 + 33) as nat
    } else if 'm' <= c && c <= 'z' {
        (c as u32 - 'm' as u32 + 44) as nat
    } else {
        0
    }
}

/// The number that a base58 text writes, most significant digit first.
pub open spec fn base58_value(text: Seq<char>) -> nat
    decreases text.len(),
{
    if text.len() == 0 {
        0
    } else {
        base58_value(text.drop_last()) * 58 + base58_digit(text.last())
    }
}

/// How many `1`s (zero digits) the text starts with.
pub open spec fn leading_ones(text: Seq<char>) -> nat
    decreases text.len(),
{
    if text.len() > 0 && text[0] == '1' {
        1 + leading_ones(text.drop_first())
    } else {
        0
    }
}

/// How many bytes the big-endian form of `v` takes, without leading zero bytes.
pub open spec fn byte_len(v: nat) -> nat
    decreases v,
{
    if v == 0 {
        0
    } else {
        1 + byte_len(v / 256)
    }
}

/// How many bytes a base58 text decodes to: one zero byte for each leading `1`,
/// then the bytes of the number written.
pub open spec fn base58_decoded_len(text: Seq<char>) -> nat {
    leading_ones(text) + byte_len(base58_value(text))
}

/// The text of a Solana public key: base58 that decodes to exactly 32 bytes.
pub open spec fn is_base58_pubkey(text: Seq<char>) -> bool {
    &&& forall|i: int| 0 <= i < text.len() ==> #[trigger] is_base58_char(text[i])
    &&& base58_decoded_len(text) == 32
}

/// The number held by bytes in little-endian order.
pub open spec fn le_value(bytes: Seq<u8>) -> nat
    decreases bytes.len(),
{
    if bytes.len() == 0 {
        0
    } else {
        bytes[0] as nat + 256 * le_value(bytes.drop_first())
    }
}

/// Two hundred fifty-six to the power `k`.
pub open spec fn pow256(k: nat) -> nat
    decreases k,
{
    if k == 0 {
        1
    } else {
        256 * pow256((k - 1) as nat)
    }
}

/// Bytes without a zero at the most significant end.
pub open spec fn is_minimal(bytes: Seq<u8>) -> bool {
    bytes.len() == 0 || bytes.last() != 0
}

proof fn lemma_le_value_push(bytes: Seq<u8>, b: u8)
    ensures
        le_value(bytes.push(b)) == le_value(bytes) + b * pow256(bytes.len()),
    decreases bytes.len(),
{
    reveal_with_fuel(pow256, 2);
    if bytes.len() > 0 {
        assert(pow256(bytes.len()) == 256 * pow256((bytes.len() - 1) as nat));
        lemma_le_value_push(bytes.drop_first(), b);
        assert(bytes.push(b).drop_first() =~= bytes.drop_first().push(b));
        assert(le_value(bytes.push(b)) == bytes[0] as nat + 256 * (le_value(bytes.drop_first()) + b
            * pow256(bytes.drop_first().len())));
        assert(256 * (le_value(bytes.drop_first()) + b * pow256((bytes.len() - 1) as nat))
            == 256 * le_value(bytes.drop_first()) + b * (256 * pow256((bytes.len() - 1) as nat)))
            by (nonlinear_arith);
    } else {
        assert(bytes.push(b).drop_first() =~= Seq::<u8>::empty());
        assert(bytes.push(b)[0] == b);
        assert(le_value(bytes.push(b).drop_first()) == 0);
        assert(le_value(bytes.push(b)) == b as nat);
        assert(pow256(0) == 1);
    }
}

proof fn lemma_le_value_bounds(bytes: Seq<u8>)
    ensures
        le_value(bytes) < pow256(bytes.len()),
        bytes.len() > 0 && is_minimal(bytes) ==> le_value(bytes) >= pow256((bytes.len() - 1) as nat),
    decreases bytes.len(),
{
    if bytes.len() > 0 {
        let rest = bytes.drop_first();
        lemma_le_value_bounds(rest);
        if rest.len() > 0 {
            assert(rest.last() == bytes.last());
        } else {
            assert(le_value(rest) == 0);
        }
        let r = le_value(rest);
        let p = pow256(rest.len());
        assert(bytes[0] as nat + 256 * r < 256 * p) by (nonlinear_arith)
            requires
                r < p,
                bytes[0] < 256,
        ;
    }
}

/// Minimal bytes take exactly as many bytes as the number they hold.
proof fn lemma_minimal_byte_len(bytes: Seq<u8>)
    requires
        is_minimal(bytes),
    ensures
        byte_len(le_value(bytes)) == bytes.len(),
    decreases bytes.len(),
{
    if bytes.len() > 0 {
        let rest = bytes.drop_first();
        lemma_le_value_bounds(bytes);
        reveal_with_fuel(pow256, 1);
        if bytes.len() == 1 {
            assert(le_value(rest) == 0);
        } else {
            assert(pow256((bytes.len() - 1) as nat) >= 1) by {
                lemma_pow256_positive((bytes.len() - 1) as nat);
            }
            assert(rest.last() == bytes.last());
        }
        assert(le_value(bytes) > 0) by {
            lemma_pow256_positive((bytes.len() - 1) as nat);
        }
        assert(le_value(bytes) / 256 == le_value(rest));
        lemma_minimal_byte_len(rest);
    }
}

proof fn lemma_pow256_positive(k: nat)
    ensures
        pow256(k) >= 1,
    decreases k,
{
    if k > 0 {
        lemma_pow256_positive((k - 1) as nat);
    }
}

/// A larger number never takes fewer bytes.
proof fn lemma_byte_len_monotone(a: nat, b: nat)
    requires
        a <= b,
    ensures
        byte_len(a) <= byte_len(b),
    decreases b,
{
    if a > 0 {
        lemma_byte_len_monotone(a / 256, b / 256);
    }
}

/// A prefix of a base58 text never writes a larger number than the whole.
proof fn lemma_prefix_value_le(text: Seq<char>, k: int)
    requires
        0 <= k <= text.len(),
    ensures
        base58_value(text.take(k)) <= base58_value(text),
    decreases text.len() - k,
{
    if k < text.len() {
        lemma_prefix_value_le(text, k + 1);
        assert(text.take(k + 1).drop_last() =~= text.take(k));
    } else {
        assert(text.take(k) =~= text);
    }
}

/// A text starting with `k` ones has at least `k` leading ones, and exactly `k`
/// when the next character is not a one.
proof fn lemma_leading_ones(text: Seq<char>, k: int)
    requires
        0 <= k <= text.len(),
        forall|j: int| 0 <= j < k ==> text[j] == '1',
    ensures
        leading_ones(text) >= k,
        k < text.len() && text[k] != '1' ==> leading_ones(text) == k,
        k == text.len() ==> leading_ones(text) == k,
    decreases k,
{
    if k > 0 {
        lemma_leading_ones(text.drop_first(), k - 1);
    } else if text.len() > 0 && text[0] == '1' {
    }
}

/// The value of a base58 character, if it is one.
fn base58_digit_of(c: char) -> (d: Option<u32>)
    ensures
        d is Some <==> is_base58_char(c),
        d matches Some(v) ==> v == base58_digit(c) && v < 58,
{
    if '1' <= c && c <= '9' {
        Some(c as u32 - '1' as u32)
    } else if 'A' <= c && c <= 'H' {
        Some(c as u32 - 'A' as u32 + 9)
    } else if 'J' <= c && c <= 'N' {
        Some(c as u32 - 'J' as u32 + 17)
    } else if 'P' <= c && c <= 'Z' {
        Some(c as u32 - 'P' as u32 + 22)
    } else if 'a' <= c && c <= 'k' {
        Some(c as u32 - 'a' as u32 + 33)
    } else if 'm' <= c && c <= 'z' {
        Some(c as u32 - 'm' as u32 + 44)
    } else {
        None
    }
}

/// Replaces the little-endian number in `bytes` by itself times 58 plus `d`.
fn mul58_add(bytes: &mut Vec<u8>, d: u32)
    requires
        d < 58,
        is_minimal(old(bytes)@),
    ensures
        le_value(final(bytes)@) == le_value(old(bytes)@) * 58 + d,
        is_minimal(final(bytes)@),
        final(bytes)@.len() <= old(bytes)@.len() + 1,
{
    let ghost old_bytes = bytes@;
    let n = bytes.len();
    let mut carry: u32 = d;
    let mut i: usize = 0;
    proof {
        assert(bytes@.take(0) =~= Seq::<u8>::empty());
        assert(bytes@.skip(0) =~= bytes@);
        reveal_with_fuel(pow256, 1);
        assert(pow256(0) == 1);
    }
    while i < n
        invariant
            n == bytes@.len(),
            n == old_bytes.len(),
            i <= n,
            carry < 58,
            bytes@.skip(i as int) == old_bytes.skip(i as int),
            le_value(bytes@.take(i as int)) + pow256(i as nat) * (carry + 58 * le_value(
                old_bytes.skip(i as int),
            )) == le_value(old_bytes) * 58 + d,
        decreases n - i,
    {
        let x: u32 = bytes[i] as u32 * 58 + carry;
        let b = (x % 256) as u8;
        let ghost before = bytes@;
        bytes.set(i, b);
        proof {
            let rest = le_value(old_bytes.skip(i + 1));
            assert(old_bytes.skip(i as int).drop_first() =~= old_bytes.skip(i + 1));
            assert(old_bytes.skip(i as int)[0] == old_bytes[i as int]);
            assert(old_bytes[i as int] == before[i as int]) by {
                assert(before.skip(i as int)[0] == before[i as int]);
            }
            assert(bytes@.take(i + 1) =~= before.take(i as int).push(b));
            assert(bytes@.take(i as int) =~= before.take(i as int));
            lemma_le_value_push(before.take(i as int), b);
            assert(bytes@.skip(i + 1) =~= old_bytes.skip(i + 1));
            let p = pow256(i as nat);
            assert(pow256((i + 1) as nat) == 256 * p);
            let o = old_bytes[i as int] as nat;
            let a = le_value(before.take(i as int));
            assert(le_value(old_bytes.skip(i as int)) == o + 256 * rest);
            assert(le_value(bytes@.take(i + 1)) == a + b * p);
            assert(x == o * 58 + carry);
            assert(x == b + 256 * (x / 256));
            assert(a + b * p + (256 * p) * (x / 256 + 58 * rest) == a + p * (carry + 58 * (o + 256
                * rest))) by (nonlinear_arith)
                requires
                    x == o * 58 + carry,
                    x == b + 256 * (x / 256),
            ;
        }
        carry = x / 256;
        i = i + 1;
    }
    proof {
        assert(bytes@.take(n as int) =~= bytes@);
        assert(old_bytes.skip(n as int) =~= Seq::<u8>::empty());
        assert(le_value(old_bytes.skip(n as int)) == 0);
        assert(pow256(n as nat) * (carry + 58 * 0) == pow256(n as nat) * carry);
        assert(le_value(bytes@) + pow256(n as nat) * carry == le_value(old_bytes) * 58 + d);
        lemma_le_value_bounds(old_bytes);
        lemma_le_value_bounds(bytes@);
    }
    if carry > 0 {
        let ghost before = bytes@;
        bytes.push(carry as u8);
        proof {
            lemma_le_value_push(before, carry as u8);
            let p = pow256(n as nat);
            assert((carry as u8) as nat == carry as nat);
            assert((carry as u8) * p == p * carry) by (nonlinear_arith)
                requires
                    (carry as u8) as nat == carry as nat,
            ;
        }
    } else {
        assert(pow256(n as nat) * carry == 0) by (nonlinear_arith)
            requires
                carry == 0,
        ;
    }
    if carry == 0 && n > 0 {
        proof {
            let prefix = bytes@.take(n - 1);
            assert(bytes@ =~= prefix.push(bytes@.last()));
            lemma_le_value_push(prefix, bytes@.last());
            lemma_le_value_bounds(prefix);
            if bytes@.last() == 0 {
                assert(le_value(bytes@) == le_value(prefix));
                assert(le_value(bytes@) == le_value(old_bytes) * 58 + d);
                assert(le_value(old_bytes) >= pow256((n - 1) as nat));
                assert(le_value(old_bytes) * 58 + d >= le_value(old_bytes));
                assert(false);
            }
        }
    }
}

/// Whether `text` is the base58 text of a 32-byte key.
pub(crate) fn check_base58_pubkey(text: &str) -> (valid: bool)
    ensures
        valid == is_base58_pubkey(text@),
{
    let mut bytes: Vec<u8> = Vec::new();
    let mut ones: usize = 0;
    let chars = text.chars();
    for c in it: chars
        invariant
            it.seq() == text@,
            forall|j: int| 0 <= j < it.index() ==> #[trigger] is_base58_char(text@[j]),
            le_value(bytes@) == base58_value(text@.take(it.index() as int)),
            is_minimal(bytes@),
            ones <= 32,
            ones + bytes@.len() <= 32,
            bytes@.len() == 0 ==> ones == it.index(),
            bytes@.len() > 0 ==> ones < it.index() && text@[ones as int] != '1',
            forall|j: int| 0 <= j < ones ==> text@[j] == '1',
    {
        let ghost k = it.index() as int;
        let d = match base58_digit_of(c) {
            Some(d) => d,
            None => {
                return false;
            },
        };
        proof {
            assert(text@.take(k + 1).drop_last() =~= text@.take(k));
            assert(text@[k] == c);
            lemma_le_value_bounds(bytes@);
            if bytes@.len() > 0 {
                lemma_pow256_positive((bytes@.len() - 1) as nat);
            }
        }
        if bytes.len() == 0 && d == 0 {
            if ones == 32 {
                proof {
                    lemma_leading_ones(text@, 33);
                }
                return false;
            }
            ones = ones + 1;
        } else {
            mul58_add(&mut bytes, d);
            proof {
                assert(le_value(bytes@) > 0);
                if bytes@.len() == 0 {
                    assert(le_value(bytes@) == 0);
                }
            }
            if ones + bytes.len() > 32 {
                proof {
                    lemma_leading_ones(text@, ones as int);
                    lemma_prefix_value_le(text@, k + 1);
                    lemma_minimal_byte_len(bytes@);
                    lemma_byte_len_monotone(
                        base58_value(text@.take(k + 1)),
                        base58_value(text@),
                    );
                }
                return false;
            }
        }
    }
    proof {
        assert(text@.take(text@.len() as int) =~= text@);
        lemma_leading_ones(text@, ones as int);
        lemma_minimal_byte_len(bytes@);
    }
    bytes.len() == 32 - ones
}

} // verus!
