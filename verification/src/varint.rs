//! Unsigned variable-length integers: seven payload bits per byte, least
//! significant group first, the high bit of a byte set when another byte
//! follows. A value is a `u64`, so an encoding is at most ten bytes long and
//! its tenth byte carries a single bit.

use integer_encoding::VarInt;
use vstd::prelude::*;
use vstd::slice::slice_subrange;

verus! {

/// The longest encoding of a 64-bit value, in bytes.
pub const MAX_VARINT_LEN: usize = 10;

/// The value and the length in bytes of the varint at the front of `s`, when
/// `depth` bytes of it came before `s`. `None` where `s` ends before the final
/// byte, or where the tenth byte is not a final byte worth 0 or 1.
pub open spec fn varint_parse(s: Seq<u8>, depth: nat) -> Option<(nat, nat)>
    decreases s.len(),
{
    if s.len() == 0 {
        None
    } else if depth >= 9 {
        if s[0] < 2 {
            Some((s[0] as nat, 1nat))
        } else {
            None
        }
    } else if s[0] < 128 {
        Some((s[0] as nat, 1nat))
    } else {
        match varint_parse(s.drop_first(), depth + 1) {
            Some((v, n)) => Some((((s[0] - 128) + 128 * v) as nat, n + 1)),
            None => None,
        }
    }
}

/// The value and the length in bytes of the varint at the front of `s`.
pub open spec fn varint_decode(s: Seq<u8>) -> Option<(nat, nat)> {
    varint_parse(s, 0)
}

/// The bytes that encode `n`.
pub open spec fn varint_encode(n: nat) -> Seq<u8>
    decreases n,
{
    if n < 128 {
        seq![n as u8]
    } else {
        seq![(128 + n % 128) as u8] + varint_encode(n / 128)
    }
}

/// Every one of the first `k` bytes of `s` announces a further byte.
pub open spec fn all_continue(s: Seq<u8>, k: int) -> bool {
    forall|i: int| 0 <= i < k ==> #[trigger] s[i] >= 128
}

/// `s` ends inside a varint: it is shorter than ten bytes and each of them
/// announces a further byte.
pub open spec fn varint_cut_short(s: Seq<u8>) -> bool {
    s.len() < MAX_VARINT_LEN && all_continue(s, s.len() as int)
}

/// The varint at `pos`: its value and the position behind it. An input that
/// ends inside it is truncated; ten bytes that hold no 64-bit value are
/// malformed.
pub open spec fn varint_at(s: Seq<u8>, pos: int) -> Result<(nat, int), VarintError> {
    if pos < 0 || pos > s.len() {
        Err(VarintError::Truncated)
    } else {
        match varint_decode(s.skip(pos)) {
            Some((v, n)) => Ok((v, pos + n)),
            None => if varint_cut_short(s.skip(pos)) {
                Err(VarintError::Truncated)
            } else {
                Err(VarintError::Malformed)
            },
        }
    }
}

/// Exclusive upper bound of the values that a varint can still take when
/// `depth` bytes of it have been read.
pub open spec fn varint_bound(depth: nat) -> nat
    decreases 9 - depth,
{
    if depth >= 9 {
        2
    } else {
        128 * varint_bound(depth + 1)
    }
}

/// Why no varint could be read.
#[derive(Clone, Copy, Debug, PartialEq, Eq, Structural)]
pub enum VarintError {
    /// The input ended before the final byte.
    Truncated,
    /// Ten bytes were there and did not hold a 64-bit value.
    Malformed,
}

/// A decoded value is below the bound of its depth, and its length is at
/// least one byte and at most what is left of the ten.
pub proof fn lemma_varint_parse_bounds(s: Seq<u8>, depth: nat)
    requires
        depth <= 9,
    ensures
        match varint_parse(s, depth) {
            Some((v, n)) => v < varint_bound(depth) && 1 <= n <= 10 - depth && n <= s.len(),
            None => true,
        },
    decreases s.len(),
{
    if s.len() > 0 && depth < 9 && s[0] >= 128 {
        lemma_varint_parse_bounds(s.drop_first(), depth + 1);
    } else if s.len() > 0 && depth < 9 {
        lemma_varint_bound_large(depth);
    }
}

/// Below the tenth byte the bound is at least 256.
proof fn lemma_varint_bound_large(depth: nat)
    requires
        depth < 9,
    ensures
        varint_bound(depth) >= 256,
    decreases 9 - depth,
{
    if depth < 8 {
        lemma_varint_bound_large(depth + 1);
    } else {
        reveal_with_fuel(varint_bound, 2);
    }
}

/// A whole varint holds a 64-bit value.
pub proof fn lemma_varint_bound_zero()
    ensures
        varint_bound(0) == 0x1_0000_0000_0000_0000,
{
    reveal_with_fuel(varint_bound, 10);
}

/// A decoded value fits in 64 bits and takes one to ten bytes.
pub proof fn lemma_varint_decode_bounds(s: Seq<u8>)
    ensures
        match varint_decode(s) {
            Some((v, n)) => v <= u64::MAX && 1 <= n <= MAX_VARINT_LEN && n <= s.len(),
            None => true,
        },
{
    lemma_varint_parse_bounds(s, 0);
    lemma_varint_bound_zero();
}

/// No varint is read exactly when the input is cut short, or when its first
/// nine bytes each announce a further byte and the tenth is not 0 or 1.
pub proof fn lemma_varint_parse_none(s: Seq<u8>, depth: nat)
    requires
        depth <= 9,
    ensures
        varint_parse(s, depth) is None <==> (s.len() < 10 - depth && all_continue(
            s,
            s.len() as int,
        )) || (s.len() >= 10 - depth && all_continue(s, 9 - depth) && s[9 - depth] >= 2),
    decreases s.len(),
{
    if s.len() == 0 {
    } else if depth >= 9 {
    } else if s[0] < 128 {
    } else {
        let t = s.drop_first();
        lemma_varint_parse_none(t, depth + 1);
        assert(all_continue(t, t.len() as int) <==> all_continue(s, s.len() as int)) by {
            if all_continue(t, t.len() as int) {
                assert forall|i: int| 0 <= i < s.len() implies #[trigger] s[i] >= 128 by {
                    if i > 0 {
                        assert(t[i - 1] == s[i]);
                    }
                }
            }
            if all_continue(s, s.len() as int) {
                assert forall|i: int| 0 <= i < t.len() implies #[trigger] t[i] >= 128 by {
                    assert(t[i] == s[i + 1]);
                }
            }
        }
        if s.len() >= 10 - depth {
            assert(t[8 - depth] == s[9 - depth]);
            assert(all_continue(t, 8 - depth) <==> all_continue(s, 9 - depth)) by {
                if all_continue(t, 8 - depth) {
                    assert forall|i: int| 0 <= i < 9 - depth implies #[trigger] s[i] >= 128 by {
                        if i > 0 {
                            assert(t[i - 1] == s[i]);
                        }
                    }
                }
                if all_continue(s, 9 - depth) {
                    assert forall|i: int| 0 <= i < 8 - depth implies #[trigger] t[i] >= 128 by {
                        assert(t[i] == s[i + 1]);
                    }
                }
            }
        }
    }
}

/// What is read depends only on the bytes of the varint itself: bytes that
/// follow a varint change neither its value nor its length, and an input that
/// is refused with ten bytes at hand is refused however it goes on.
pub proof fn lemma_varint_parse_extend(s: Seq<u8>, rest: Seq<u8>, depth: nat)
    requires
        depth <= 9,
        varint_parse(s, depth) is Some || s.len() >= 10 - depth,
    ensures
        varint_parse(s + rest, depth) == varint_parse(s, depth),
    decreases s.len(),
{
    if s.len() == 0 {
    } else {
        assert((s + rest)[0] == s[0]);
        if depth < 9 && s[0] >= 128 {
            assert((s + rest).drop_first() =~= s.drop_first() + rest);
            lemma_varint_parse_extend(s.drop_first(), rest, depth + 1);
        }
    }
}

/// A varint reads the same in an input that is cut behind it.
pub proof fn lemma_varint_parse_within(s: Seq<u8>, k: int, depth: nat)
    requires
        depth <= 9,
        varint_parse(s, depth) matches Some((v, n)) && n <= k <= s.len(),
    ensures
        varint_parse(s.take(k), depth) == varint_parse(s, depth),
    decreases s.len(),
{
    assert(s.take(k)[0] == s[0]);
    if depth < 9 && s[0] >= 128 {
        assert(s.take(k).drop_first() =~= s.drop_first().take(k - 1));
        lemma_varint_parse_within(s.drop_first(), k - 1, depth + 1);
    }
}

/// Encoding then decoding gives the value back, with the length of the
/// encoding, whatever bytes follow.
pub proof fn lemma_varint_parse_encode(n: nat, rest: Seq<u8>, depth: nat)
    requires
        depth <= 9,
        n < varint_bound(depth),
    ensures
        varint_parse(varint_encode(n) + rest, depth) == Some((n, varint_encode(n).len())),
    decreases n,
{
    let e = varint_encode(n);
    let s = e + rest;
    if n < 128 {
        assert(s[0] == n as u8);
    } else {
        assert(depth < 9);
        let m = n / 128;
        assert(m < varint_bound(depth + 1));
        assert(s[0] == (128 + n % 128) as u8);
        assert(s.drop_first() =~= varint_encode(m) + rest);
        lemma_varint_parse_encode(m, rest, depth + 1);
        assert(n == (n % 128) + 128 * m);
    }
}

/// Encoding then decoding gives the value back, whatever bytes follow.
pub proof fn lemma_varint_round_trip(n: u64, rest: Seq<u8>)
    ensures
        varint_decode(varint_encode(n as nat) + rest) == Some(
            (n as nat, varint_encode(n as nat).len()),
        ),
{
    lemma_varint_bound_zero();
    lemma_varint_parse_encode(n as nat, rest, 0);
}

/// Decodes with `u64::decode_var` of integer_encoding. That function walks
/// `src` from the front, adds the low seven bits of each byte at the next
/// higher group, and stops with a value at the first byte below 128; at the
/// tenth byte it stops in any case, with a value only if that byte is 0 or 1.
/// It returns the value and the number of bytes walked, or `None`.
#[verifier::external_body]
fn decode_var(src: &[u8]) -> (r: Option<(u64, usize)>)
    ensures
        match r {
            Some((v, n)) => varint_decode(src@) == Some((v as nat, n as nat)),
            None => varint_decode(src@) is None,
        },
{
    u64::decode_var(src)
}

/// Encodes with `encode_var_vec` of integer_encoding, for `u64`. That
/// function emits the low seven bits of the value with the high bit set while
/// the value is 128 or more, shifting it down by seven bits each time, and
/// ends with the byte that is left.
#[verifier::external_body]
fn encode_var(n: u64) -> (r: Vec<u8>)
    ensures
        r@ == varint_encode(n as nat),
{
    n.encode_var_vec()
}

/// Reads the varint that starts at `pos` and returns its value with the
/// position behind it. At the end of the input, or beyond it, there is
/// nothing to read.
pub fn read_varint(input: &[u8], pos: usize) -> (r: Result<(u64, usize), VarintError>)
    ensures
        match r {
            Ok((v, next)) => varint_at(input@, pos as int) == Ok::<(nat, int), VarintError>(
                (v as nat, next as int),
            ) && pos < next <= input@.len(),
            Err(e) => varint_at(input@, pos as int) == Err::<(nat, int), VarintError>(e),
        },
{
    if pos > input.len() {
        return Err(VarintError::Truncated);
    }
    let tail = slice_subrange(input, pos, input.len());
    assert(tail@ =~= input@.skip(pos as int));
    proof {
        lemma_varint_decode_bounds(tail@);
    }
    match decode_var(tail) {
        Some((v, n)) => Ok((v, pos + n)),
        None => {
            if tail.len() < MAX_VARINT_LEN {
                proof {
                    lemma_varint_parse_none(tail@, 0);
                }
                Err(VarintError::Truncated)
            } else {
                Err(VarintError::Malformed)
            }
        },
    }
}

/// Appends the encoding of `n` to `out`.
pub fn write_varint(out: &mut Vec<u8>, n: u64)
    ensures
        final(out)@ == old(out)@ + varint_encode(n as nat),
{
    let mut bytes = encode_var(n);
    out.append(&mut bytes);
}

} // verus!
