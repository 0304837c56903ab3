//! Big-endian numbers and the digests made of them.

use vstd::prelude::*;

verus! {

/// A number as `width` bytes, the most significant first.
pub open spec fn be(n: nat, width: nat) -> Seq<u8>
    decreases width,
{
    if width == 0 {
        Seq::empty()
    } else {
        be(n / 256, (width - 1) as nat).push((n % 256) as u8)
    }
}

/// The number that bytes write, the most significant first.
pub open spec fn be_value(s: Seq<u8>) -> nat
    decreases s.len(),
{
    if s.len() == 0 {
        0
    } else {
        256 * be_value(s.drop_last()) + s.last() as nat
    }
}

/// How many numbers `width` bytes can write.
pub open spec fn be_range(width: nat) -> nat
    decreases width,
{
    if width == 0 {
        1
    } else {
        256 * be_range((width - 1) as nat)
    }
}

/// Reading bytes gives back the number that they were written from.
pub proof fn be_round_trip(n: nat, width: nat)
    requires
        n < be_range(width),
    ensures
        be(n, width).len() == width,
        be_value(be(n, width)) == n,
    decreases width,
{
    if width > 0 {
        be_round_trip(n / 256, (width - 1) as nat);
        assert(be(n, width).drop_last() =~= be(n / 256, (width - 1) as nat));
    }
}

/// Writing a number gives back the bytes that it was read from.
pub proof fn be_read_back(s: Seq<u8>)
    ensures
        be_value(s) < be_range(s.len()),
        be(be_value(s), s.len()) == s,
    decreases s.len(),
{
    if s.len() > 0 {
        be_read_back(s.drop_last());
        let n = be_value(s);
        assert(n / 256 == be_value(s.drop_last()));
        assert(n % 256 == s.last() as nat);
        assert(be(n, s.len()) =~= s.drop_last().push(s.last()));
        assert(s.drop_last().push(s.last()) =~= s);
    } else {
        assert(be(be_value(s), s.len()) =~= s);
    }
}

/// A written number has as many bytes as asked for.
pub proof fn be_len(n: nat, width: nat)
    ensures
        be(n, width).len() == width,
    decreases width,
{
    if width > 0 {
        be_len(n / 256, (width - 1) as nat);
    }
}

pub proof fn be_ranges()
    ensures
        be_range(1) == 0x100,
        be_range(2) == 0x1_0000,
        be_range(4) == 0x1_0000_0000,
        be_range(8) == 0x1_0000_0000_0000_0000,
        be_range(16) == 0x1_0000_0000_0000_0000_0000_0000_0000_0000,
{
    reveal_with_fuel(be_range, 17);
}

/// Appends a number as `width` bytes.
pub fn push_be(out: &mut Vec<u8>, n: u128, width: usize)
    ensures
        final(out)@ == old(out)@ + be(n as nat, width as nat),
    decreases width,
{
    if width > 0 {
        push_be(out, n / 256, width - 1);
        out.push((n % 256) as u8);
        assert(out@ =~= old(out)@ + be(n as nat, width as nat));
    } else {
        assert(out@ =~= old(out)@ + be(n as nat, 0));
    }
}

proof fn lemma_range_grows(a: nat, b: nat)
    requires
        a <= b,
    ensures
        be_range(a) <= be_range(b),
    decreases b,
{
    if a < b {
        lemma_range_grows(a, (b - 1) as nat);
    }
}

/// The number that up to sixteen bytes write.
pub fn read_be(s: &[u8]) -> (r: u128)
    requires
        s@.len() <= 16,
    ensures
        r == be_value(s@),
        r < be_range(s@.len()),
{
    let mut n: u128 = 0;
    for i in 0..s.len()
        invariant
            s@.len() <= 16,
            n == be_value(s@.take(i as int)),
    {
        assert(s@.take(i + 1).drop_last() =~= s@.take(i as int));
        proof {
            be_read_back(s@.take(i + 1));
            lemma_range_grows((i + 1) as nat, 16);
            be_ranges();
        }
        n = 256 * n + s[i] as u128;
    }
    assert(s@.take(s@.len() as int) =~= s@);
    proof {
        be_read_back(s@);
    }
    n
}

/// A word with its bits moved `k` places to the left, those that leave coming
/// back on the right.
pub open spec fn rotate_spec(x: u64, k: u64) -> u64 {
    (x << k) | (x >> ((64 - k) as u64))
}

fn rotate(x: u64, k: u64) -> (r: u64)
    requires
        0 < k < 64,
    ensures
        r == rotate_spec(x, k),
{
    (x << k) | (x >> (64 - k))
}

/// One step of the revision digest on the lane that the byte falls in.
pub open spec fn digest_step(lane: u64, index: nat, byte: u8) -> u64 {
    let mixed = (lane ^ (byte as u64)).wrapping_mul(0x100000001b3u64);
    let spread = mixed ^ rotate_spec(mixed, 27);
    spread.wrapping_add((index as u64).wrapping_mul(0x9e37u64))
}

/// The four lanes of the revision digest after the given bytes: byte `i` goes
/// to lane `i` modulo four.
pub open spec fn digest_lanes(bytes: Seq<u8>) -> Seq<u64>
    decreases bytes.len(),
{
    if bytes.len() == 0 {
        seq![
            0xcbf29ce484222325u64,
            0x84222325cb29ce4u64,
            0x9e3779b185ebca87u64,
            0xd6e8feb86659fd93u64,
        ]
    } else {
        let before = digest_lanes(bytes.drop_last());
        let index = (bytes.len() - 1) as nat;
        let lane = (index % 4) as int;
        before.update(lane, digest_step(before[lane], index, bytes.last()))
    }
}

/// The revision digest: the four lanes as big-endian words.
pub open spec fn digest_spec(bytes: Seq<u8>) -> Seq<u8> {
    let lanes = digest_lanes(bytes);
    be(lanes[0] as nat, 8) + be(lanes[1] as nat, 8) + be(lanes[2] as nat, 8) + be(
        lanes[3] as nat,
        8,
    )
}

/// A deterministic digest that tells changes apart; it is no credential.
pub fn stable_digest(bytes: &[u8]) -> (r: [u8; 32])
    ensures
        r@ == digest_spec(bytes@),
{
    let mut lanes: Vec<u64> = Vec::new();
    lanes.push(0xcbf29ce484222325);
    lanes.push(0x84222325cb29ce4);
    lanes.push(0x9e3779b185ebca87);
    lanes.push(0xd6e8feb86659fd93);
    assert(lanes@ =~= digest_lanes(bytes@.take(0)));
    for index in 0..bytes.len()
        invariant
            lanes@.len() == 4,
            lanes@ == digest_lanes(bytes@.take(index as int)),
    {
        assert(bytes@.take(index + 1).drop_last() =~= bytes@.take(index as int));
        let lane: usize = index % 4;
        let mixed: u64 = (lanes[lane] ^ (bytes[index] as u64)).wrapping_mul(0x100000001b3);
        let spread: u64 = mixed ^ rotate(mixed, 27);
        let next: u64 = spread.wrapping_add((index as u64).wrapping_mul(0x9e37));
        lanes.set(lane, next);
    }
    assert(bytes@.take(bytes@.len() as int) =~= bytes@);
    let mut out: Vec<u8> = Vec::new();
    push_be(&mut out, lanes[0] as u128, 8);
    push_be(&mut out, lanes[1] as u128, 8);
    push_be(&mut out, lanes[2] as u128, 8);
    push_be(&mut out, lanes[3] as u128, 8);
    proof {
        be_len(lanes@[0] as nat, 8);
        be_len(lanes@[1] as nat, 8);
        be_len(lanes@[2] as nat, 8);
        be_len(lanes@[3] as nat, 8);
    }
    assert(out@ =~= digest_spec(bytes@));
    let mut array: [u8; 32] = [0u8; 32];
    for i in 0..32usize
        invariant
            out@.len() == 32,
            forall|j: int| 0 <= j < i ==> array@[j] == out@[j],
    {
        array[i] = out[i];
    }
    assert(array@ =~= out@);
    array
}

/// One step of the node identity digest.
pub open spec fn identity_step(lane: u64, index: nat, byte: u8) -> u64 {
    rotate_spec(
        (lane ^ (byte as u64)).wrapping_mul(0x100000001b3u64),
        (index % 63 + 1) as u64,
    )
}

/// The two lanes of the node identity digest: byte `i` goes to lane `i` modulo
/// two.
pub open spec fn identity_lanes(bytes: Seq<u8>) -> Seq<u64>
    decreases bytes.len(),
{
    if bytes.len() == 0 {
        seq![0xcbf29ce484222325u64, 0x84222325cbf29ce4u64]
    } else {
        let before = identity_lanes(bytes.drop_last());
        let index = (bytes.len() - 1) as nat;
        let lane = (index % 2) as int;
        before.update(lane, identity_step(before[lane], index, bytes.last()))
    }
}

/// Two words, big-endian, one behind the other.
pub open spec fn two_words(high: u64, low: u64) -> Seq<u8> {
    be(high as nat, 8) + be(low as nat, 8)
}

pub open spec fn identity_spec(bytes: Seq<u8>) -> Seq<u8> {
    two_words(identity_lanes(bytes)[0], identity_lanes(bytes)[1])
}

/// The sixteen bytes of two words.
pub fn join_words(high: u64, low: u64) -> (r: [u8; 16])
    ensures
        r@ == two_words(high, low),
{
    let mut out: Vec<u8> = Vec::new();
    push_be(&mut out, high as u128, 8);
    push_be(&mut out, low as u128, 8);
    proof {
        be_len(high as nat, 8);
        be_len(low as nat, 8);
    }
    assert(out@ =~= two_words(high, low));
    let mut array: [u8; 16] = [0u8; 16];
    for i in 0..16usize
        invariant
            out@.len() == 16,
            forall|j: int| 0 <= j < i ==> array@[j] == out@[j],
    {
        array[i] = out[i];
    }
    assert(array@ =~= out@);
    array
}

/// A deterministic sixteen-byte identity of a text's bytes.
pub fn identity_digest(bytes: &[u8]) -> (r: [u8; 16])
    ensures
        r@ == identity_spec(bytes@),
{
    let mut lanes: Vec<u64> = Vec::new();
    lanes.push(0xcbf29ce484222325);
    lanes.push(0x84222325cbf29ce4);
    assert(lanes@ =~= identity_lanes(bytes@.take(0)));
    for index in 0..bytes.len()
        invariant
            lanes@.len() == 2,
            lanes@ == identity_lanes(bytes@.take(index as int)),
    {
        assert(bytes@.take(index + 1).drop_last() =~= bytes@.take(index as int));
        let lane: usize = index % 2;
        let mixed: u64 = (lanes[lane] ^ (bytes[index] as u64)).wrapping_mul(0x100000001b3);
        let next: u64 = rotate(mixed, (index % 63) as u64 + 1);
        lanes.set(lane, next);
    }
    assert(bytes@.take(bytes@.len() as int) =~= bytes@);
    join_words(lanes[0], lanes[1])
}

} // verus!
