use vstd::prelude::*;

verus! {

/// A run of zero bytes.
pub open spec fn zeros(n: int) -> Seq<u8> {
    Seq::new(n as nat, |i: int| 0u8)
}

/// A 32-byte word holding a 64-bit integer big-endian in its last 8 bytes.
pub open spec fn be_word(x: u64) -> Seq<u8> {
    Seq::new(32, |i: int|
        if i < 24 {
            0u8
        } else {
            (((x >> ((8 * (31 - i)) as u64)) & 0xff) as u8)
        })
}

/// A 32-byte word holding a 20-byte address right-aligned.
pub open spec fn address_word(a: Seq<u8>) -> Seq<u8> {
    zeros(12) + a
}

/// A 32-byte word holding one byte left-aligned.
pub open spec fn fixed1_word(b: u8) -> Seq<u8> {
    seq![b] + zeros(31)
}

/// The length padded up to a multiple of 32.
pub open spec fn pad_len(n: int) -> int {
    ((n + 31) / 32) * 32
}

/// The tail encoding of a dynamic byte string: its length word, the bytes,
/// and zero padding up to a word boundary.
pub open spec fn bytes_tail(data: Seq<u8>) -> Seq<u8> {
    be_word(data.len() as u64) + data + zeros(pad_len(data.len() as int) - data.len())
}

/// The big-endian value of the 8 bytes at `off`.
pub open spec fn be_val(data: Seq<u8>, off: int) -> int {
    (data[off] as int) * 0x100_0000_0000_0000 + (data[off + 1] as int) * 0x1_0000_0000_0000 + (
    data[off + 2] as int) * 0x100_0000_0000 + (data[off + 3] as int) * 0x1_0000_0000 + (data[off
        + 4] as int) * 0x100_0000 + (data[off + 5] as int) * 0x1_0000 + (data[off + 6] as int)
        * 0x100 + (data[off + 7] as int)
}

/// The 64-bit integer held by the 32-byte word at `off`, or nothing when
/// the word's upper 24 bytes are not zero.
pub open spec fn word_u64_at(data: Seq<u8>, off: int) -> Option<u64> {
    if forall|j: int| off <= j < off + 24 ==> data[j] == 0 {
        Some(be_val(data, off + 24) as u64)
    } else {
        None
    }
}

/// Writing a 64-bit integer big-endian and reading the bytes back gives
/// the integer, and the upper 24 bytes of its word are zero.
pub proof fn lemma_be_word_roundtrip(x: u64)
    ensures
        forall|j: int| 0 <= j < 24 ==> be_word(x)[j] == 0,
        be_val(be_word(x), 24) == x,
        word_u64_at(be_word(x), 0) == Some(x),
{
    let s = be_word(x);
    assert((x >> 56) & 0xff < 256) by (bit_vector);
    assert((x >> 48) & 0xff < 256) by (bit_vector);
    assert((x >> 40) & 0xff < 256) by (bit_vector);
    assert((x >> 32) & 0xff < 256) by (bit_vector);
    assert((x >> 24) & 0xff < 256) by (bit_vector);
    assert((x >> 16) & 0xff < 256) by (bit_vector);
    assert((x >> 8) & 0xff < 256) by (bit_vector);
    assert((x >> 0) & 0xff < 256) by (bit_vector);
    assert(s[24] == ((x >> 56) & 0xff) as u8);
    assert(s[25] == ((x >> 48) & 0xff) as u8);
    assert(s[26] == ((x >> 40) & 0xff) as u8);
    assert(s[27] == ((x >> 32) & 0xff) as u8);
    assert(s[28] == ((x >> 24) & 0xff) as u8);
    assert(s[29] == ((x >> 16) & 0xff) as u8);
    assert(s[30] == ((x >> 8) & 0xff) as u8);
    assert(s[31] == ((x >> 0) & 0xff) as u8);
    assert(((x >> 56) & 0xff) * 0x100_0000_0000_0000 + ((x >> 48) & 0xff) * 0x1_0000_0000_0000 + ((
    x >> 40) & 0xff) * 0x100_0000_0000 + ((x >> 32) & 0xff) * 0x1_0000_0000 + ((x >> 24) & 0xff)
        * 0x100_0000 + ((x >> 16) & 0xff) * 0x1_0000 + ((x >> 8) & 0xff) * 0x100 + ((x >> 0)
        & 0xff) == x) by (bit_vector);
}

/// The padded length is the least multiple of 32 at or above `n`.
pub proof fn lemma_pad_len(n: int)
    requires
        n >= 0,
    ensures
        pad_len(n) >= n,
        pad_len(n) < n + 32,
        pad_len(n) % 32 == 0,
{
    vstd::arithmetic::div_mod::lemma_fundamental_div_mod(n + 31, 32);
    vstd::arithmetic::div_mod::lemma_mod_multiples_basic((n + 31) / 32, 32);
    vstd::arithmetic::mul::lemma_mul_is_commutative((n + 31) / 32, 32);
}

/// The padding that takes a length up to a word boundary.
pub proof fn lemma_pad_gap(n: int)
    requires
        n >= 0,
    ensures
        (32 - (n % 32)) % 32 == pad_len(n) - n,
{
    vstd::arithmetic::div_mod::lemma_fundamental_div_mod(n, 32);
    vstd::arithmetic::div_mod::lemma_mod_bound(n, 32);
    let q = n / 32;
    let r = n % 32;
    if r == 0 {
        lemma_pad_exact(n);
    } else {
        vstd::arithmetic::div_mod::lemma_small_mod((32 - r) as nat, 32);
        vstd::arithmetic::div_mod::lemma_fundamental_div_mod_converse(n + 31, 32, q + 1, r - 1);
        assert(n + 31 == (q + 1) * 32 + (r - 1)) by {
            vstd::arithmetic::mul::lemma_mul_is_distributive_add_other_way(32, q, 1);
            vstd::arithmetic::mul::lemma_mul_is_commutative(q, 32);
        }
        assert((n + 31) / 32 == q + 1);
        assert(pad_len(n) == (q + 1) * 32) by {
            vstd::arithmetic::mul::lemma_mul_is_commutative(q + 1, 32);
        }
        assert((q + 1) * 32 == q * 32 + 32) by {
            vstd::arithmetic::mul::lemma_mul_is_distributive_add_other_way(32, q, 1);
        }
        assert(q * 32 == 32 * q) by {
            vstd::arithmetic::mul::lemma_mul_is_commutative(q, 32);
        }
    }
}

/// A length already on a word boundary pads to itself.
pub proof fn lemma_pad_exact(n: int)
    requires
        n >= 0,
        n % 32 == 0,
    ensures
        pad_len(n) == n,
{
    vstd::arithmetic::div_mod::lemma_fundamental_div_mod(n, 32);
    let q = n / 32;
    assert(n == 32 * q);
    vstd::arithmetic::div_mod::lemma_fundamental_div_mod_converse(n + 31, 32, q, 31);
    assert((n + 31) / 32 == q);
    vstd::arithmetic::mul::lemma_mul_is_commutative(q, 32);
}

/// A stretch of bytes holding a big-endian word reads back as its value.
pub proof fn lemma_word_at(data: Seq<u8>, off: int, x: u64)
    requires
        0 <= off,
        off + 32 <= data.len(),
        forall|j: int| 0 <= j < 32 ==> data[off + j] == be_word(x)[j],
    ensures
        word_u64_at(data, off) == Some(x),
{
    lemma_be_word_roundtrip(x);
    assert forall|j: int| off <= j < off + 24 implies data[j] == 0 by {
        assert(data[off + (j - off)] == be_word(x)[j - off]);
    }
    assert(data[off + 24] == be_word(x)[24]);
    assert(data[off + 25] == be_word(x)[25]);
    assert(data[off + 26] == be_word(x)[26]);
    assert(data[off + 27] == be_word(x)[27]);
    assert(data[off + 28] == be_word(x)[28]);
    assert(data[off + 29] == be_word(x)[29]);
    assert(data[off + 30] == be_word(x)[30]);
    assert(data[off + 31] == be_word(x)[31]);
    assert(be_val(data, off + 24) == be_val(be_word(x), 24));
}

/// A stretch of bytes holding an address word reads back as its address.
pub proof fn lemma_addr_word_at(data: Seq<u8>, off: int, a: Seq<u8>)
    requires
        0 <= off,
        off + 32 <= data.len(),
        a.len() == 20,
        forall|j: int| 0 <= j < 32 ==> data[off + j] == address_word(a)[j],
    ensures
        addr_at(data, off) == Some(a),
{
    assert forall|j: int| off <= j < off + 12 implies data[j] == 0 by {
        assert(data[off + (j - off)] == address_word(a)[j - off]);
    }
    assert forall|j: int| 0 <= j < 20 implies data.subrange(off + 12, off + 32)[j] == a[j] by {
        assert(data[off + (12 + j)] == address_word(a)[12 + j]);
    }
    assert(data.subrange(off + 12, off + 32) =~= a);
}

/// Appends `n` zero bytes.
pub fn push_zeros(out: &mut Vec<u8>, n: usize)
    ensures
        final(out)@ == old(out)@ + zeros(n as int),
{
    let mut i: usize = 0;
    while i < n
        invariant
            i <= n,
            out@.len() == old(out)@.len() + i,
            out@ == old(out)@ + zeros(i as int),
        decreases n - i,
    {
        let ghost pre = out@;
        out.push(0u8);
        proof {
            assert(out@ =~= old(out)@ + zeros(i as int + 1));
        }
        i += 1;
    }
}

/// Appends a 64-bit integer as a big-endian 32-byte word.
pub fn push_be_word(out: &mut Vec<u8>, x: u64)
    ensures
        final(out)@ == old(out)@ + be_word(x),
{
    let mut i: usize = 0;
    while i < 32
        invariant
            i <= 32,
            out@.len() == old(out)@.len() + i,
            forall|j: int| 0 <= j < old(out)@.len() ==> out@[j] == old(out)@[j],
            forall|j: int| 0 <= j < i ==> out@[old(out)@.len() + j] == be_word(x)[j],
        decreases 32 - i,
    {
        if i < 24 {
            out.push(0u8);
        } else {
            let sh: u64 = (8 * (31 - i)) as u64;
            let masked: u64 = (x >> sh) & 0xff;
            proof {
                assert((x >> sh) & 0xff < 256) by (bit_vector);
            }
            out.push(masked as u8);
        }
        i += 1;
    }
    proof {
        assert(out@ =~= old(out)@ + be_word(x));
    }
}

/// Appends the bytes of a slice.
pub fn push_bytes(out: &mut Vec<u8>, data: &[u8])
    ensures
        final(out)@ == old(out)@ + data@,
{
    out.extend_from_slice(data);
}

/// Appends the tail encoding of a dynamic byte string.
#[verifier::rlimit(40)]
pub fn push_bytes_tail(out: &mut Vec<u8>, data: &[u8])
    ensures
        final(out)@ == old(out)@ + bytes_tail(data@),
{
    push_be_word(out, data.len() as u64);
    push_bytes(out, data);
    let pad = (32 - (data.len() % 32)) % 32;
    proof {
        lemma_pad_len(data@.len() as int);
        lemma_pad_gap(data@.len() as int);
    }
    push_zeros(out, pad);
    proof {
        assert(final(out)@ =~= old(out)@ + bytes_tail(data@));
    }
}

/// Reads the 64-bit integer in the word at `off`, refusing a word whose
/// upper 24 bytes are not zero.
pub fn read_u64_word(data: &[u8], off: usize) -> (r: Option<u64>)
    requires
        off + 32 <= data@.len(),
    ensures
        r == word_u64_at(data@, off as int),
{
    let n_total = data.len();
    let mut j: usize = 0;
    while j < 24
        invariant
            off + 32 <= data@.len(),
            data@.len() <= usize::MAX,
            j <= 24,
            forall|t: int| off <= t < off + j ==> data@[t] == 0,
        decreases 24 - j,
    {
        if *vstd::slice::slice_index_get(data, off + j) != 0 {
            return None;
        }
        j += 1;
    }
    let b0 = *vstd::slice::slice_index_get(data, off + 24) as u64;
    let b1 = *vstd::slice::slice_index_get(data, off + 25) as u64;
    let b2 = *vstd::slice::slice_index_get(data, off + 26) as u64;
    let b3 = *vstd::slice::slice_index_get(data, off + 27) as u64;
    let b4 = *vstd::slice::slice_index_get(data, off + 28) as u64;
    let b5 = *vstd::slice::slice_index_get(data, off + 29) as u64;
    let b6 = *vstd::slice::slice_index_get(data, off + 30) as u64;
    let b7 = *vstd::slice::slice_index_get(data, off + 31) as u64;
    let v = b0 * 0x100_0000_0000_0000 + b1 * 0x1_0000_0000_0000 + b2 * 0x100_0000_0000 + b3
        * 0x1_0000_0000 + b4 * 0x100_0000 + b5 * 0x1_0000 + b6 * 0x100 + b7;
    Some(v)
}

/// Copies the bytes at `off .. off + len` out of a slice.
pub fn read_bytes(data: &[u8], off: usize, len: usize) -> (r: Vec<u8>)
    requires
        off + len <= data@.len(),
    ensures
        r@ == data@.subrange(off as int, off as int + len as int),
{
    let n_total = data.len();
    let mut r: Vec<u8> = Vec::new();
    let mut i: usize = 0;
    while i < len
        invariant
            off + len <= data@.len(),
            data@.len() <= usize::MAX,
            i <= len,
            r@.len() == i,
            forall|j: int| 0 <= j < i ==> r@[j] == data@[off + j],
        decreases len - i,
    {
        r.push(*vstd::slice::slice_index_get(data, off + i));
        i += 1;
    }
    proof {
        assert(r@ =~= data@.subrange(off as int, off as int + len as int));
    }
    r
}

/// Whether the 32-byte word at `off` is an address word, and the address
/// it holds.
pub open spec fn addr_at(data: Seq<u8>, off: int) -> Option<Seq<u8>> {
    if forall|j: int| off <= j < off + 12 ==> data[j] == 0 {
        Some(data.subrange(off + 12, off + 32))
    } else {
        None
    }
}

/// Reads the 20-byte address in the word at `off`, refusing a word whose
/// upper 12 bytes are not zero.
pub fn read_address_word(data: &[u8], off: usize) -> (r: Option<Vec<u8>>)
    requires
        off + 32 <= data@.len(),
    ensures
        (r matches Some(v) ==> addr_at(data@, off as int) == Some(v@)),
        r is None <==> addr_at(data@, off as int) is None,
{
    let n_total = data.len();
    let mut j: usize = 0;
    while j < 12
        invariant
            off + 32 <= data@.len(),
            data@.len() <= usize::MAX,
            j <= 12,
            forall|t: int| off <= t < off + j ==> data@[t] == 0,
        decreases 12 - j,
    {
        if *vstd::slice::slice_index_get(data, off + j) != 0 {
            return None;
        }
        j += 1;
    }
    Some(read_bytes(data, off + 12, 20))
}

} // verus!
