use vstd::prelude::*;

verus! {

/// Sum of the big-endian 16-bit words of `s`; a trailing odd byte counts as
/// the high byte of a word whose low byte is zero.
pub open spec fn word_sum(s: Seq<u8>) -> nat
    decreases s.len(),
{
    if s.len() == 0 {
        0
    } else if s.len() % 2 == 1 {
        word_sum(s.drop_last()) + (s.last() as nat) * 256
    } else {
        word_sum(s.take(s.len() - 2)) + (s[s.len() - 2] as nat) * 256 + (s[s.len() - 1] as nat)
    }
}

/// Ones'-complement (end-around carry) reduction of a sum into 16 bits:
/// 0 stays 0, every positive value lands in 1..=0xFFFF and keeps its residue
/// modulo 0xFFFF.
pub open spec fn ones_fold(s: nat) -> nat {
    if s == 0 {
        0
    } else {
        ((s - 1) as nat % 65535) + 1
    }
}

/// The RFC 1071 internet checksum of `s`: the ones'-complement of the
/// ones'-complement sum of its 16-bit words.
pub open spec fn internet_checksum_spec(s: Seq<u8>) -> u16 {
    (65535 - ones_fold(word_sum(s))) as u16
}

proof fn lemma_word_sum_step(s: Seq<u8>, i: int)
    requires
        0 <= i,
        i % 2 == 0,
        i + 2 <= s.len(),
    ensures
        word_sum(s.take(i + 2)) == word_sum(s.take(i)) + (s[i] as nat) * 256 + (s[i + 1] as nat),
{
    assert(s.take(i + 2).take(i) =~= s.take(i));
}

proof fn lemma_fold_step(s: nat)
    requires
        s > 65535,
    ensures
        ones_fold(s % 65536 + s / 65536) == ones_fold(s),
        s % 65536 + s / 65536 < s,
{
    let q = s / 65536;
    let r = s % 65536;
    assert(s == 65536 * q + r);
    assert(q >= 1);
    let y: int = q + r - 1;
    assert((s - 1) as int == 65535 * q + y);
    assert((65535 * q + y) % 65535 == y % 65535) by {
        vstd::arithmetic::div_mod::lemma_mod_multiples_vanish(q as int, y, 65535);
    }
}

/// Adding the same amount to two sums with the same ones'-complement
/// reduction keeps their reductions equal.
proof fn lemma_fold_add(x: nat, y: nat, w: nat)
    requires
        ones_fold(x) == ones_fold(y),
    ensures
        ones_fold(x + w) == ones_fold(y + w),
{
    if w > 0 && x > 0 {
        assert(y > 0);
        vstd::arithmetic::div_mod::lemma_add_mod_noop((x - 1) as int, w as int, 65535);
        vstd::arithmetic::div_mod::lemma_add_mod_noop((y - 1) as int, w as int, 65535);
    } else if w > 0 {
        assert(y == 0);
    }
}

/// Folding the carry of a sum of at most 0x1FFFE into 16 bits.
fn fold_carry(sum: u32, Ghost(total): Ghost<nat>) -> (r: u32)
    requires
        sum <= 0x1FFFE,
        ones_fold(sum as nat) == ones_fold(total),
    ensures
        r <= 0xFFFF,
        ones_fold(r as nat) == ones_fold(total),
{
    if sum > 0xFFFF {
        proof {
            lemma_fold_step(sum as nat);
        }
        sum % 65536 + sum / 65536
    } else {
        sum
    }
}

/// RFC 1071 checksum of `data`, read as big-endian 16-bit words.
pub fn internet_checksum(data: &[u8]) -> (r: u16)
    ensures
        r == internet_checksum_spec(data@),
{
    let mut sum: u32 = 0;
    let mut i: usize = 0;
    while data.len() - i >= 2
        invariant
            i % 2 == 0,
            i <= data.len(),
            sum <= 0xFFFF,
            ones_fold(sum as nat) == ones_fold(word_sum(data@.take(i as int))),
        decreases data.len() - i,
    {
        let w: u32 = (data[i] as u32) * 256 + (data[i + 1] as u32);
        proof {
            lemma_word_sum_step(data@, i as int);
            lemma_fold_add(sum as nat, word_sum(data@.take(i as int)), w as nat);
        }
        sum = fold_carry(sum + w, Ghost(word_sum(data@.take(i + 2))));
        i = i + 2;
    }
    if i < data.len() {
        let w: u32 = (data[i] as u32) * 256;
        proof {
            assert(data@.take(i as int + 1).drop_last() =~= data@.take(i as int));
            lemma_fold_add(sum as nat, word_sum(data@.take(i as int)), w as nat);
        }
        sum = fold_carry(sum + w, Ghost(word_sum(data@.take(i + 1))));
        i = i + 1;
    }
    assert(data@.take(i as int) =~= data@);
    0xFFFF - (sum as u16)
}

/// Filling a zeroed, word-aligned 16-bit field with `a * 256 + b` raises the
/// word sum by exactly that value.
pub proof fn lemma_word_sum_fill(s: Seq<u8>, k: int, a: u8, b: u8)
    requires
        0 <= k,
        k % 2 == 0,
        k + 1 < s.len(),
        s[k] == 0,
        s[k + 1] == 0,
    ensures
        word_sum(s.update(k, a).update(k + 1, b)) == word_sum(s) + (a as nat) * 256 + (b as nat),
    decreases s.len(),
{
    let t = s.update(k, a).update(k + 1, b);
    if s.len() % 2 == 1 {
        assert(t.drop_last() =~= s.drop_last().update(k, a).update(k + 1, b));
        lemma_word_sum_fill(s.drop_last(), k, a, b);
    } else if k == s.len() - 2 {
        assert(t.take(t.len() - 2) =~= s.take(s.len() - 2));
    } else {
        assert(t.take(t.len() - 2) =~= s.take(s.len() - 2).update(k, a).update(k + 1, b));
        lemma_word_sum_fill(s.take(s.len() - 2), k, a, b);
    }
}

proof fn lemma_fold_complement(s: nat)
    ensures
        ones_fold((s + 65535 - ones_fold(s)) as nat) == 65535,
{
    if s > 0 {
        let b = (s - 1) as int % 65535;
        let a = (s - 1) as int / 65535;
        assert((s - 1) as int == 65535 * a + b);
        let t = (s + 65535 - ones_fold(s)) as int;
        assert(t - 1 == 65535 * a + 65534);
        assert((65535 * a + 65534) % 65535 == 65534int % 65535) by {
            vstd::arithmetic::div_mod::lemma_mod_multiples_vanish(a, 65534, 65535);
        }
    }
}

/// The checksum verifies: when the checksum of a block is stored, high byte
/// first, into a zeroed 16-bit field at an even offset of that block, the
/// checksum of the resulting block is zero.
pub proof fn lemma_checksum_verifies(s: Seq<u8>, k: int)
    requires
        0 <= k,
        k % 2 == 0,
        k + 1 < s.len(),
        s[k] == 0,
        s[k + 1] == 0,
    ensures
        ({
            let c = internet_checksum_spec(s);
            internet_checksum_spec(s.update(k, (c / 256) as u8).update(k + 1, (c % 256) as u8)) == 0
        }),
{
    let c = internet_checksum_spec(s);
    lemma_word_sum_fill(s, k, (c / 256) as u8, (c % 256) as u8);
    lemma_fold_complement(word_sum(s));
}

} // verus!
