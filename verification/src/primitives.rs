//! Fixed-size byte identifiers, 256-bit numbers and the hash function the node shares.

use vstd::prelude::*;

verus! {

/// Public key of a peer, by which the registry knows it.
pub type PeerId = [u8; 64];

/// Hash of a block header.
pub type BlockHash = [u8; 32];

/// Identifier that a validator publishes on chain for one of its nodes.
pub type NodeId = [u8; 32];

/// Account address.
pub type Address = [u8; 20];

/// BLS public key with which a validator votes.
pub type VoteAddress = [u8; 48];

/// Whether two identifiers hold the same bytes.
pub fn same_bytes<const N: usize>(a: &[u8; N], b: &[u8; N]) -> (same: bool)
    ensures
        same == (*a == *b),
{
    let mut i: usize = 0;
    while i < N
        invariant
            i <= N,
            forall|j: int| 0 <= j < i ==> a@[j] == b@[j],
        decreases N - i,
    {
        if a[i] != b[i] {
            assert(a@[i as int] != b@[i as int]);
            return false;
        }
        i = i + 1;
    }
    assert(*a =~= *b);
    true
}

/// The position of the first occurrence of `id` in `list`.
pub fn position<const N: usize>(list: &Vec<[u8; N]>, id: &[u8; N]) -> (found: Option<usize>)
    ensures
        found matches Some(i) ==> i < list.len() && list@[i as int] == *id && !list@.take(
            i as int,
        ).contains(*id),
        found is None ==> !list@.contains(*id),
{
    let mut i: usize = 0;
    while i < list.len()
        invariant
            i <= list.len(),
            forall|j: int| 0 <= j < i ==> list@[j] != *id,
        decreases list.len() - i,
    {
        if same_bytes(&list[i], id) {
            return Some(i);
        }
        i = i + 1;
    }
    None
}

/// Whether `id` occurs in `list`.
pub fn contains_id<const N: usize>(list: &Vec<[u8; N]>, id: &[u8; N]) -> (found: bool)
    ensures
        found == list@.contains(*id),
{
    match position(list, id) {
        Some(i) => {
            assert(list@[i as int] == *id);
            true
        },
        None => false,
    }
}

/// A list of distinct items stays one when a new item is put at its end.
pub proof fn lemma_push_keeps_distinct<T>(list: Seq<T>, item: T)
    requires
        list.no_duplicates(),
        !list.contains(item),
    ensures
        list.push(item).no_duplicates(),
{
    let longer = list.push(item);
    assert forall|i: int, j: int|
        0 <= i < longer.len() && 0 <= j < longer.len() && i != j implies longer[i] != longer[j] by {
        if i < list.len() {
            assert(list.contains(longer[i]));
        }
        if j < list.len() {
            assert(list.contains(longer[j]));
        }
    }
}

/// An unsigned number of 256 bits, as four words with the least significant one first.
#[derive(Debug, Clone, Copy)]
pub struct U256 {
    pub limbs: [u64; 4],
}

/// The number that base-2^64 words stand for, least significant word first.
pub open spec fn limbs_value(limbs: Seq<u64>) -> nat
    decreases limbs.len(),
{
    if limbs.len() == 0 {
        0
    } else {
        limbs.first() as nat + (u64::MAX as nat + 1) * limbs_value(limbs.drop_first())
    }
}

/// The number that bytes stand for, most significant byte first.
pub open spec fn big_endian_value(bytes: Seq<u8>) -> nat
    decreases bytes.len(),
{
    if bytes.len() == 0 {
        0
    } else {
        256 * big_endian_value(bytes.drop_last()) + bytes.last() as nat
    }
}

impl U256 {
    /// The number itself.
    pub open spec fn value(self) -> nat {
        limbs_value(self.limbs@)
    }
}

/// `alloy_primitives::U256::to_be_bytes::<32>`, on the number that `U256::from_limbs` makes
/// of the four words.
///
/// Claimed: the thirty-two bytes are the big-endian notation of that number.
#[verifier::external_body]
fn to_be_bytes(limbs: [u64; 4]) -> (bytes: [u8; 32])
    ensures
        big_endian_value(bytes@) == limbs_value(limbs@),
{
    alloy_primitives::U256::from_limbs(limbs).to_be_bytes::<32>()
}

/// The result of Keccak-256 on `bytes`.
pub uninterp spec fn keccak256_of(bytes: Seq<u8>) -> Seq<u8>;

/// `alloy_primitives::keccak256`.
///
/// Claimed: the digest depends on the bytes alone.
#[verifier::external_body]
pub(crate) fn keccak256(bytes: &Vec<u8>) -> (digest: [u8; 32])
    ensures
        digest@ == keccak256_of(bytes@),
{
    alloy_primitives::keccak256(bytes).0
}

/// 256^n, the number of values that `n` bytes can take.
pub open spec fn byte_range(n: nat) -> nat
    decreases n,
{
    if n == 0 {
        1
    } else {
        256 * byte_range((n - 1) as nat)
    }
}

proof fn lemma_byte_range_16()
    ensures
        byte_range(16) == u128::MAX + 1,
{
    reveal_with_fuel(byte_range, 17);
}

proof fn lemma_byte_range_increases(m: nat, n: nat)
    requires
        m <= n,
    ensures
        1 <= byte_range(m) <= byte_range(n),
    decreases n,
{
    if n > 0 {
        if m == n {
            lemma_byte_range_increases((m - 1) as nat, (n - 1) as nat);
        } else {
            lemma_byte_range_increases(m, (n - 1) as nat);
        }
    }
}

proof fn lemma_big_endian_bound(bytes: Seq<u8>)
    ensures
        big_endian_value(bytes) < byte_range(bytes.len()),
    decreases bytes.len(),
{
    if bytes.len() > 0 {
        lemma_big_endian_bound(bytes.drop_last());
    }
}

proof fn lemma_big_endian_split(bytes: Seq<u8>, at: int)
    requires
        0 <= at <= bytes.len(),
    ensures
        big_endian_value(bytes) == big_endian_value(bytes.take(at)) * byte_range(
            (bytes.len() - at) as nat,
        ) + big_endian_value(bytes.skip(at)),
    decreases bytes.len(),
{
    if at == bytes.len() {
        assert(bytes.take(at) =~= bytes);
        assert(bytes.skip(at).len() == 0);
        assert(byte_range(0) == 1);
        vstd::arithmetic::mul::lemma_mul_basics(big_endian_value(bytes) as int);
    } else {
        let init = bytes.drop_last();
        lemma_big_endian_split(init, at);
        assert(init.take(at) =~= bytes.take(at));
        assert(bytes.skip(at).drop_last() =~= init.skip(at));
        assert(bytes.skip(at).last() == bytes.last());
        let high = big_endian_value(bytes.take(at));
        let scale = byte_range((init.len() - at) as nat);
        assert(byte_range((bytes.len() - at) as nat) == 256 * scale);
        assert(256 * (high * scale) == high * (256 * scale)) by (nonlinear_arith);
    }
}

/// The number that the sixteen bytes from `from` on stand for.
fn read_u128(bytes: &[u8; 32], from: usize) -> (word: u128)
    requires
        from <= 16,
    ensures
        word == big_endian_value(bytes@.subrange(from as int, from + 16)),
{
    let mut word: u128 = 0;
    let mut i: usize = 0;
    while i < 16
        invariant
            i <= 16,
            from <= 16,
            word == big_endian_value(bytes@.subrange(from as int, from + i)),
        decreases 16 - i,
    {
        proof {
            let next = bytes@.subrange(from as int, from + i + 1);
            assert(next.drop_last() =~= bytes@.subrange(from as int, from + i));
            lemma_big_endian_bound(next);
            lemma_byte_range_increases((i + 1) as nat, 16);
            lemma_byte_range_16();
        }
        word = word * 256 + bytes[from + i] as u128;
        i = i + 1;
    }
    word
}

/// The number as a `u128`, or `None` where it is too large for one.
pub fn u256_to_u128(v: U256) -> (word: Option<u128>)
    ensures
        v.value() <= u128::MAX ==> word is Some && word->0 == v.value(),
        v.value() > u128::MAX ==> word is None,
{
    let be: [u8; 32] = to_be_bytes(v.limbs);
    let high: u128 = read_u128(&be, 0);
    let low: u128 = read_u128(&be, 16);
    proof {
        lemma_big_endian_split(be@, 16);
        lemma_byte_range_16();
        assert(be@.take(16) =~= be@.subrange(0, 16));
        assert(be@.skip(16) =~= be@.subrange(16, 32));
        assert(v.value() == high * byte_range(16) + low);
    }
    if high == 0 {
        Some(low)
    } else {
        proof {
            vstd::arithmetic::mul::lemma_mul_inequality(1, high as int, byte_range(16) as int);
        }
        None
    }
}

/// The four words of a number count for powers of 2^64, the first for the lowest.
pub proof fn law_words_count_for_powers(number: U256)
    ensures
        ({
            let base = 0x1_0000_0000_0000_0000int;
            number.value() == number.limbs@[0] + base * (number.limbs@[1] + base * (
            number.limbs@[2] + base * number.limbs@[3]))
        }),
{
    let limbs = number.limbs@;
    reveal_with_fuel(limbs_value, 5);
    assert(limbs.drop_first()[0] == limbs[1]);
    assert(limbs.drop_first().drop_first()[0] == limbs[2]);
    assert(limbs.drop_first().drop_first().drop_first()[0] == limbs[3]);
    assert(limbs.drop_first().drop_first().drop_first().drop_first().len() == 0);
}

}
