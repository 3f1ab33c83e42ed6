//! The 256-entry key box that drives the audio keystream, and the keystream itself.

use vstd::prelude::*;

verus! {

/// The identity permutation of the byte values: entry `i` holds `i`.
pub open spec fn identity_box() -> Seq<u8> {
    Seq::new(256, |i: int| i as u8)
}

/// The byte of the key material used by the key schedule at round `round`:
/// the material is read cyclically.
pub open spec fn key_byte(key: Seq<u8>, round: int) -> u8
    recommends key.len() > 0,
{
    key[round % (key.len() as int)]
}

/// The key box and the last chosen index after `rounds` rounds of the key schedule.
///
/// Round `k` picks `c = (box[k] + last + key_byte(key, k)) mod 256`, swaps entries `k`
/// and `c`, and remembers `c` as `last` for the next round.
pub open spec fn schedule(key: Seq<u8>, rounds: nat) -> (Seq<u8>, u8)
    decreases rounds,
{
    if rounds == 0 {
        (identity_box(), 0u8)
    } else {
        let prev = schedule(key, (rounds - 1) as nat);
        let bx = prev.0;
        let last = prev.1;
        let k = rounds - 1;
        let swap = bx[k];
        let c = ((swap as int + last as int + key_byte(key, k) as int) % 256) as u8;
        (bx.update(k, bx[c as int]).update(c as int, swap), c)
    }
}

/// The key box built from `key`: the box after all 256 rounds of the schedule.
pub open spec fn key_box_of(key: Seq<u8>) -> Seq<u8> {
    schedule(key, 256).0
}

/// No value occurs twice among the entries of `bx`.
pub open spec fn all_distinct(bx: Seq<u8>) -> bool {
    forall|a: int, b: int| 0 <= a < b < bx.len() ==> bx[a] != bx[b]
}

/// The value `v` occurs among the entries of `bx`.
pub open spec fn occurs_in(bx: Seq<u8>, v: u8) -> bool {
    exists|i: int| 0 <= i < bx.len() && bx[i] == v
}

/// Every byte value occurs among the entries of `bx`.
pub open spec fn covers_all_bytes(bx: Seq<u8>) -> bool {
    forall|v: u8| #[trigger] occurs_in(bx, v)
}

/// `bx` holds each of the 256 byte values exactly once.
pub open spec fn is_byte_permutation(bx: Seq<u8>) -> bool {
    &&& bx.len() == 256
    &&& all_distinct(bx)
    &&& covers_all_bytes(bx)
}

/// Every round of the schedule keeps a permutation of the byte values: it only swaps two
/// entries.
pub proof fn lemma_schedule_permutation(key: Seq<u8>, rounds: nat)
    requires
        rounds <= 256,
    ensures
        is_byte_permutation(schedule(key, rounds).0),
    decreases rounds,
{
    if rounds == 0 {
        let bx = identity_box();
        assert forall|v: u8| #[trigger] occurs_in(bx, v) by {
            assert(bx[v as int] == v);
        }
    } else {
        lemma_schedule_permutation(key, (rounds - 1) as nat);
        let prev = schedule(key, (rounds - 1) as nat);
        let bx = prev.0;
        let k = rounds - 1;
        let swap = bx[k];
        let c = ((swap as int + prev.1 as int + key_byte(key, k) as int) % 256) as u8;
        let next = bx.update(k, bx[c as int]).update(c as int, swap);
        assert(next == schedule(key, rounds).0);
        assert forall|v: u8| #[trigger] occurs_in(next, v) by {
            assert(occurs_in(bx, v));
            let i = choose|i: int| 0 <= i < bx.len() && bx[i] == v;
            if i == k {
                assert(next[c as int] == v);
            } else if i == c as int {
                assert(next[k] == v);
            } else {
                assert(next[i] == v);
            }
        }
    }
}

/// Advancing a cyclic offset by one wraps to zero exactly at the end of the material.
proof fn lemma_next_offset(i: int, n: int)
    requires
        0 <= i,
        0 < n,
    ensures
        (i + 1) % n == if i % n + 1 < n { i % n + 1 } else { 0 },
{
    vstd::arithmetic::div_mod::lemma_add_mod_noop(i, 1, n);
    if n == 1 {
        assert(1int % 1 == 0);
        assert((i + 1) % 1 == 0);
    } else {
        vstd::arithmetic::div_mod::lemma_small_mod(1, n as nat);
        if i % n + 1 < n {
            vstd::arithmetic::div_mod::lemma_small_mod((i % n + 1) as nat, n as nat);
        } else {
            vstd::arithmetic::div_mod::lemma_mod_self_0(n);
        }
    }
}

/// Builds the key box from the key material (the decrypted core key past its 17-byte prefix).
pub fn build_key_box(key_material: &[u8]) -> (key_box: Vec<u8>)
    requires
        key_material@.len() > 0,
    ensures
        key_box@ == key_box_of(key_material@),
        is_byte_permutation(key_box@),
{
    let mut key_box: Vec<u8> = Vec::new();
    let mut v: usize = 0;
    while v < 256
        invariant
            v <= 256,
            key_box@.len() == v,
            forall|i: int| 0 <= i < v ==> key_box@[i] == i as u8,
        decreases 256 - v,
    {
        key_box.push(v as u8);
        v = v + 1;
    }
    assert(key_box@ == identity_box());

    let mut last_byte: u8 = 0;
    let mut key_offset: usize = 0;
    let mut i: usize = 0;
    while i < 256
        invariant
            i <= 256,
            key_material@.len() > 0,
            key_offset < key_material@.len(),
            key_offset as int == (i as int) % (key_material@.len() as int),
            (key_box@, last_byte) == schedule(key_material@, i as nat),
            key_box@.len() == 256,
        decreases 256 - i,
    {
        proof {
            lemma_schedule_permutation(key_material@, i as nat);
        }
        let swap = key_box[i];
        let c: u8 = ((swap as usize + last_byte as usize + key_material[key_offset] as usize) % 256) as u8;
        key_offset = key_offset + 1;
        if key_offset >= key_material.len() {
            key_offset = 0;
        }
        let at_c = key_box[c as usize];
        key_box.set(i, at_c);
        key_box.set(c as usize, swap);
        last_byte = c;
        proof {
            let n = key_material@.len() as int;
            assert(key_offset as int == (i as int + 1) % n) by {
                lemma_next_offset(i as int, n);
            }
        }
        i = i + 1;
    }
    proof {
        lemma_schedule_permutation(key_material@, 256);
    }
    key_box
}

/// Two key materials that give the same key byte in each of the first `rounds` rounds give the
/// same schedule.
pub proof fn lemma_schedule_same_key_bytes(k1: Seq<u8>, k2: Seq<u8>, rounds: nat)
    requires
        forall|r: int| 0 <= r < rounds ==> #[trigger] key_byte(k1, r) == key_byte(k2, r),
    ensures
        schedule(k1, rounds) == schedule(k2, rounds),
    decreases rounds,
{
    if rounds > 0 {
        lemma_schedule_same_key_bytes(k1, k2, (rounds - 1) as nat);
        assert(key_byte(k1, rounds - 1) == key_byte(k2, rounds - 1));
    }
}

/// Repeating the key material twice over leaves the key box as it is.
pub proof fn lemma_key_box_repeated_material(key: Seq<u8>)
    requires
        key.len() > 0,
    ensures
        key_box_of(key + key) == key_box_of(key),
{
    let n = key.len() as int;
    let kk = key + key;
    assert forall|r: int| 0 <= r < 256 implies #[trigger] key_byte(kk, r) == key_byte(key, r) by {
        vstd::arithmetic::div_mod::lemma_mod_mod(r, n, 2);
        assert(n * 2 == 2 * n);
        let m = r % (2 * n);
        vstd::arithmetic::div_mod::lemma_mod_bound(r, 2 * n);
        vstd::arithmetic::div_mod::lemma_mod_bound(r, n);
        if m >= n {
            assert(kk[m] == key[m - n]);
            vstd::arithmetic::div_mod::lemma_mod_sub_multiples_vanish(m, n);
            vstd::arithmetic::div_mod::lemma_small_mod((m - n) as nat, n as nat);
        } else {
            vstd::arithmetic::div_mod::lemma_small_mod(m as nat, n as nat);
        }
    }
    lemma_schedule_same_key_bytes(kk, key, 256);
}

/// Only the first 256 bytes of the key material are read: cutting it there leaves the key box
/// as it is.
pub proof fn lemma_key_box_truncated_material(key: Seq<u8>)
    requires
        key.len() >= 256,
    ensures
        key_box_of(key.take(256)) == key_box_of(key),
{
    let t = key.take(256);
    assert forall|r: int| 0 <= r < 256 implies #[trigger] key_byte(t, r) == key_byte(key, r) by {
        vstd::arithmetic::div_mod::lemma_small_mod(r as nat, 256);
        vstd::arithmetic::div_mod::lemma_small_mod(r as nat, key.len());
    }
    lemma_schedule_same_key_bytes(t, key, 256);
}

/// The keystream byte for position `i` of the audio stream: with `j = (i + 1) mod 256`,
/// the entry of the box at `(box[j] + box[(box[j] + j) mod 256]) mod 256`.
pub open spec fn keystream_byte(key_box: Seq<u8>, i: int) -> u8 {
    let j = (i + 1) % 256;
    let a = key_box[j] as int;
    let b = key_box[(a + j) % 256] as int;
    key_box[(a + b) % 256]
}

/// `data`, which stands at position `start` of the audio stream, with each byte XORed with the
/// keystream byte of its position in the stream.
pub open spec fn apply_keystream(key_box: Seq<u8>, start: int, data: Seq<u8>) -> Seq<u8> {
    Seq::new(data.len(), |i: int| data[i] ^ keystream_byte(key_box, start + i))
}

/// Decrypts in place a buffer of audio that stands at position `start` of the stream (taken
/// modulo 256, the period of the keystream): byte `i` of the buffer is XORed with the keystream
/// byte of stream position `start + i`.
pub fn apply_keystream_in_place(key_box: &Vec<u8>, start: usize, buf: &mut Vec<u8>)
    requires
        key_box@.len() == 256,
    ensures
        final(buf)@ == apply_keystream(key_box@, start as int, old(buf)@),
{
    let ghost original = buf@;
    let n = buf.len();
    let mut i: usize = 0;
    let mut phase: usize = start % 256;
    while i < n
        invariant
            key_box@.len() == 256,
            n == original.len(),
            buf@.len() == n,
            i <= n,
            phase < 256,
            phase as int == (start as int + i as int) % 256,
            forall|k: int|
                0 <= k < i ==> buf@[k] == original[k] ^ keystream_byte(key_box@, start + k),
            forall|k: int| i <= k < n ==> buf@[k] == original[k],
        decreases n - i,
    {
        let j = (phase + 1) % 256;
        proof {
            vstd::arithmetic::div_mod::lemma_add_mod_noop(start as int + i as int, 1, 256);
            vstd::arithmetic::div_mod::lemma_mod_twice(start as int + i as int, 256);
            vstd::arithmetic::div_mod::lemma_small_mod(1, 256);
        }
        let a = key_box[j] as usize;
        let b = key_box[(a + j) % 256] as usize;
        let k = key_box[(a + b) % 256];
        let byte = buf[i] ^ k;
        buf.set(i, byte);
        i = i + 1;
        phase = j;
    }
    assert(buf@ == apply_keystream(key_box@, start as int, original));
}

/// XORing with the keystream is its own inverse: decrypting twice gives the data back.
pub proof fn lemma_keystream_involution(key_box: Seq<u8>, start: int, data: Seq<u8>)
    ensures
        apply_keystream(key_box, start, apply_keystream(key_box, start, data)) == data,
{
    let once = apply_keystream(key_box, start, data);
    let twice = apply_keystream(key_box, start, once);
    assert forall|i: int| 0 <= i < data.len() implies twice[i] == data[i] by {
        let x = data[i];
        let k = keystream_byte(key_box, start + i);
        assert((x ^ k) ^ k == x) by (bit_vector);
    }
    assert(twice =~= data);
}

/// The keystream repeats every 256 bytes.
pub proof fn lemma_keystream_period(key_box: Seq<u8>, i: int, m: int)
    requires
        m % 256 == 0,
    ensures
        keystream_byte(key_box, m + i) == keystream_byte(key_box, i),
{
    assert((m + i + 1) % 256 == (i + 1) % 256) by {
        vstd::arithmetic::div_mod::lemma_add_mod_noop(m, i + 1, 256);
        vstd::arithmetic::div_mod::lemma_mod_twice(i + 1, 256);
        vstd::arithmetic::div_mod::lemma_small_mod(0, 256);
    }
}

/// Only the stream position modulo 256 matters to the keystream.
pub proof fn lemma_keystream_phase(key_box: Seq<u8>, start: int, data: Seq<u8>)
    ensures
        apply_keystream(key_box, start % 256, data) == apply_keystream(key_box, start, data),
{
    vstd::arithmetic::div_mod::lemma_fundamental_div_mod(start, 256);
    let m = 256 * (start / 256);
    assert(m % 256 == 0) by {
        vstd::arithmetic::div_mod::lemma_mod_multiples_basic(start / 256, 256);
        assert(m == (start / 256) * 256) by (nonlinear_arith)
            requires
                m == 256 * (start / 256),
        ;
    }
    let a = apply_keystream(key_box, start % 256, data);
    let b = apply_keystream(key_box, start, data);
    assert forall|i: int| 0 <= i < data.len() implies a[i] == b[i] by {
        lemma_keystream_period(key_box, start % 256 + i, m);
        assert(m + (start % 256 + i) == start + i);
    }
    assert(a =~= b);
}

/// Decrypting a stream piece by piece, each piece at the position where the previous one ended
/// (taken modulo 256), gives the same bytes as decrypting it whole.
pub proof fn lemma_keystream_split(key_box: Seq<u8>, start: int, head: Seq<u8>, tail: Seq<u8>)
    ensures
        apply_keystream(key_box, start, head + tail) == apply_keystream(key_box, start, head)
            + apply_keystream(key_box, (start + head.len()) % 256, tail),
{
    lemma_keystream_phase(key_box, start + head.len(), tail);
    let whole = apply_keystream(key_box, start, head + tail);
    let parts = apply_keystream(key_box, start, head) + apply_keystream(
        key_box,
        start + head.len(),
        tail,
    );
    assert forall|i: int| 0 <= i < whole.len() implies whole[i] == parts[i] by {
        if i >= head.len() {
            assert(start + head.len() + (i - head.len()) == start + i);
        }
    }
    assert(whole =~= parts);
}

} // verus!
