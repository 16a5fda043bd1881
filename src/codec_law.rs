use vstd::prelude::*;
use crate::bank::{BitState, Dec, be_word, next_bit, bits, pow2, start, literals, copies, unit, run, unpack_spec, UnpackError};

verus! {

/// Bit `i` of `b`, false past its end.
pub open spec fn bit_at(b: Seq<bool>, i: int) -> bool {
    0 <= i < b.len() && b[i]
}

/// The number whose bit `i`, least significant first, is bit `a + i` of `b`, for `i < n`.
pub open spec fn lsb_val(b: Seq<bool>, a: int, n: nat) -> nat
    decreases n,
{
    if n == 0 {
        0
    } else {
        (if bit_at(b, a) { 1nat } else { 0nat }) + 2 * lsb_val(b, a + 1, (n - 1) as nat)
    }
}

/// Bits held by the first word: at most 31, under its end mark.
pub open spec fn first_len(b: Seq<bool>) -> nat {
    if b.len() < 31 { b.len() } else { 31 }
}

/// Words after the first, 32 bits each.
pub open spec fn extra_words(b: Seq<bool>) -> nat {
    if b.len() <= 31 { 0 } else { ((b.len() - 31 + 31) / 32) as nat }
}

/// Word `t` of the stream of bits `b`.
pub open spec fn word(b: Seq<bool>, t: nat) -> u32 {
    if t == 0 {
        (pow2(first_len(b)) + lsb_val(b, 0, first_len(b))) as u32
    } else {
        lsb_val(b, 31 + 32 * (t - 1), 32) as u32
    }
}

/// The checksum of words `0..=t`.
pub open spec fn xor_words(b: Seq<bool>, t: nat) -> u32
    decreases t,
{
    if t == 0 { word(b, 0) } else { xor_words(b, (t - 1) as nat) ^ word(b, t) }
}

/// The four bytes of a word, high byte first.
pub open spec fn word_bytes(w: u32) -> Seq<u8> {
    seq![(w >> 24u32) as u8, (w >> 16u32) as u8, (w >> 8u32) as u8, w as u8]
}

/// Words `t` down to `0`, in the order they stand in the stream.
pub open spec fn words_bytes(b: Seq<bool>, t: nat) -> Seq<u8>
    decreases t,
{
    if t == 0 {
        word_bytes(word(b, 0))
    } else {
        word_bytes(word(b, t)) + words_bytes(b, (t - 1) as nat)
    }
}

/// The packed stream whose bits are `b` and whose output is `size` bytes long.
pub open spec fn pack(b: Seq<bool>, size: u32) -> Seq<u8> {
    let t = extra_words(b);
    words_bytes(b, t) + word_bytes(xor_words(b, t)) + word_bytes(size)
}

/// The bit reader once `j` bits of `b` were read.
pub open spec fn reader(b: Seq<bool>, j: int) -> BitState {
    let x = xor_words(b, extra_words(b));
    let big_t = extra_words(b);
    if j <= first_len(b) {
        let m = (first_len(b) - j) as nat;
        BitState { pos: 4 * big_t, chk: (pow2(m) + lsb_val(b, j, m)) as u32, crc: x ^ xor_words(b, 0) }
    } else {
        let t = ((j - 32) / 32 + 1) as nat;
        let r = (j - 32) % 32 + 1;
        let m = (32 - r) as nat;
        BitState { pos: (4 * (big_t - t)) as nat, chk: (pow2(m) + lsb_val(b, j, m)) as u32, crc: x ^ xor_words(b, t) }
    }
}

proof fn lemma_lsb_bound(b: Seq<bool>, a: int, n: nat)
    ensures
        lsb_val(b, a, n) < pow2(n),
    decreases n,
{
    if n > 0 {
        lemma_lsb_bound(b, a + 1, (n - 1) as nat);
    }
}

proof fn lemma_words_bytes_len(b: Seq<bool>, t: nat)
    ensures
        words_bytes(b, t).len() == 4 * (t + 1),
    decreases t,
{
    if t > 0 {
        lemma_words_bytes_len(b, (t - 1) as nat);
    }
}

/// Word `u` stands at bytes `4 * (t - u)` to `4 * (t - u) + 4`.
proof fn lemma_words_bytes_at(b: Seq<bool>, t: nat, u: nat, i: int)
    requires
        u <= t,
        0 <= i < 4,
    ensures
        words_bytes(b, t)[4 * (t - u) + i] == word_bytes(word(b, u))[i],
    decreases t,
{
    lemma_words_bytes_len(b, t);
    if t > 0 {
        lemma_words_bytes_len(b, (t - 1) as nat);
        if u < t {
            lemma_words_bytes_at(b, (t - 1) as nat, u, i);
        }
    }
}

proof fn lemma_word_bytes_be(w: u32)
    ensures
        ((word_bytes(w)[0] as u32) << 24u32) | ((word_bytes(w)[1] as u32) << 16u32) | ((word_bytes(w)[2] as u32)
            << 8u32) | (word_bytes(w)[3] as u32) == w,
{
    let b0 = (w >> 24u32) as u8;
    let b1 = (w >> 16u32) as u8;
    let b2 = (w >> 8u32) as u8;
    let b3 = w as u8;
    assert(((b0 as u32) << 24u32) | ((b1 as u32) << 16u32) | ((b2 as u32) << 8u32) | (b3 as u32) == w) by (bit_vector)
        requires
            b0 == (w >> 24u32) as u8,
            b1 == (w >> 16u32) as u8,
            b2 == (w >> 8u32) as u8,
            b3 == w as u8,
    ;
}

/// The packed stream holds word `u` where the reader looks for it.
proof fn lemma_pack_word(b: Seq<bool>, size: u32, u: nat)
    requires
        u <= extra_words(b),
    ensures
        be_word(pack(b, size), 4 * (extra_words(b) - u) + 4) == word(b, u),
        pack(b, size).len() == 4 * extra_words(b) + 12,
{
    let t = extra_words(b);
    let p = pack(b, size);
    lemma_words_bytes_len(b, t);
    let o = 4 * (t - u);
    lemma_words_bytes_at(b, t, u, 0);
    lemma_words_bytes_at(b, t, u, 1);
    lemma_words_bytes_at(b, t, u, 2);
    lemma_words_bytes_at(b, t, u, 3);
    assert(p[o] == words_bytes(b, t)[o]);
    assert(p[o + 1] == words_bytes(b, t)[o + 1]);
    assert(p[o + 2] == words_bytes(b, t)[o + 2]);
    assert(p[o + 3] == words_bytes(b, t)[o + 3]);
    lemma_word_bytes_be(word(b, u));
}

proof fn lemma_pow2_31()
    ensures
        pow2(31) == 0x8000_0000,
{
    reveal_with_fuel(pow2, 32);
}

proof fn lemma_pow2_le_31(m: nat)
    requires
        m <= 31,
    ensures
        pow2(m) <= 0x8000_0000,
    decreases 31 - m,
{
    if m < 31 {
        lemma_pow2_le_31(m + 1);
    } else {
        lemma_pow2_31();
    }
}

/// Reading from a register that holds `m` more bits under its end mark.
proof fn lemma_mid(b: Seq<bool>, j: int, m: nat)
    requires
        1 <= m <= 31,
    ensures
        ({
            let c = (pow2(m) + lsb_val(b, j, m)) as u32;
            &&& (c & 1 == 1) == bit_at(b, j)
            &&& c >> 1u32 == (pow2((m - 1) as nat) + lsb_val(b, j + 1, (m - 1) as nat)) as u32
            &&& c >> 1u32 != 0
        }),
{
    lemma_lsb_bound(b, j, m);
    lemma_lsb_bound(b, j + 1, (m - 1) as nat);
    lemma_pow2_le_31(m);
    let v1 = lsb_val(b, j + 1, (m - 1) as nat);
    let bit: nat = if bit_at(b, j) { 1 } else { 0 };
    let h = pow2((m - 1) as nat);
    assert(pow2(m) == 2 * h);
    let n = 2 * h + bit + 2 * v1;
    assert(n < 0x1_0000_0000);
    let c = n as u32;
    assert(c as nat == n);
    assert(c & 1 == c % 2) by (bit_vector);
    assert(c >> 1u32 == c / 2) by (bit_vector);
    assert(c % 2 == bit) by (nonlinear_arith)
        requires
            c as nat == 2 * h + bit + 2 * v1,
            bit <= 1,
    ;
    assert(c / 2 == h + v1) by (nonlinear_arith)
        requires
            c as nat == 2 * h + bit + 2 * v1,
            bit <= 1,
    ;
    assert(h >= 1) by {
        lemma_pow2_pos((m - 1) as nat);
    }
}

proof fn lemma_pow2_pos(m: nat)
    ensures
        pow2(m) > 0,
    decreases m,
{
    if m > 0 {
        lemma_pow2_pos((m - 1) as nat);
    }
}

/// Loading word `w` into the register.
proof fn lemma_refill(b: Seq<bool>, j: int, w: u32)
    requires
        w as nat == lsb_val(b, j, 32),
    ensures
        (w & 1 == 1) == bit_at(b, j),
        (w >> 1u32) | 0x8000_0000u32 == (pow2(31) + lsb_val(b, j + 1, 31)) as u32,
{
    lemma_lsb_bound(b, j + 1, 31);
    lemma_pow2_31();
    let v1 = lsb_val(b, j + 1, 31);
    let bit: nat = if bit_at(b, j) { 1 } else { 0 };
    assert(w & 1 == w % 2) by (bit_vector);
    assert(w >> 1u32 == w / 2) by (bit_vector);
    assert(w % 2 == bit && w / 2 == v1) by (nonlinear_arith)
        requires
            w as nat == bit + 2 * v1,
            bit <= 1,
    ;
    let h = w >> 1u32;
    assert(h < 0x8000_0000);
    assert((h | 0x8000_0000u32) == h + 0x8000_0000u32) by (bit_vector)
        requires
            h < 0x8000_0000u32,
    ;
}

proof fn lemma_pow2_32()
    ensures
        pow2(32) == 0x1_0000_0000,
{
    lemma_pow2_31();
}

/// Word `u` after the first as a number.
proof fn lemma_word_val(b: Seq<bool>, u: nat)
    requires
        u >= 1,
    ensures
        word(b, u) as nat == lsb_val(b, 31 + 32 * (u - 1), 32),
{
    lemma_lsb_bound(b, 31 + 32 * (u - 1), 32);
    lemma_pow2_32();
}

proof fn lemma_xor_assoc(x: u32, a: u32, w: u32)
    ensures
        (x ^ a) ^ w == x ^ (a ^ w),
{
    assert((x ^ a) ^ w == x ^ (a ^ w)) by (bit_vector);
}

/// Reading a bit from the packed stream gives the next bit of `b`.
pub proof fn lemma_reader_step(b: Seq<bool>, size: u32, j: int)
    requires
        0 <= j < b.len(),
    ensures
        next_bit(pack(b, size), reader(b, j)) == Some((reader(b, j + 1), b[j])),
{
    let p = pack(b, size);
    let big_t = extra_words(b);
    let x = xor_words(b, big_t);
    let k0 = first_len(b);
    lemma_pack_word(b, size, 0);
    if j < k0 {
        let m = (k0 - j) as nat;
        lemma_mid(b, j, m);
    } else if j == k0 {
        assert(b.len() > 31);
        assert(big_t >= 1) by {
            assert(b.len() >= 32);
        }
        let c = reader(b, j).chk;
        assert(pow2(0) == 1);
        assert(c == 1);
        assert((1u32 >> 1u32) == 0) by (bit_vector);
        lemma_pack_word(b, size, 1);
        let w = word(b, 1);
        lemma_word_val(b, 1);
        lemma_refill(b, 31, w);
        assert(be_word(p, 4 * big_t as int) == w);
        vstd::arithmetic::div_mod::lemma_fundamental_div_mod_converse(0, 32, 0, 0);
        assert(xor_words(b, 1) == xor_words(b, 0) ^ w);
        lemma_xor_assoc(x, xor_words(b, 0), w);
    } else {
        let q = (j - 32) / 32;
        let rr = (j - 32) % 32;
        vstd::arithmetic::div_mod::lemma_fundamental_div_mod(j - 32, 32);
        assert(0 <= rr < 32);
        let t = (q + 1) as nat;
        if rr < 31 {
            let m = (31 - rr) as nat;
            lemma_mid(b, j, m);
            vstd::arithmetic::div_mod::lemma_fundamental_div_mod_converse(j + 1 - 32, 32, q, rr + 1);
        } else {
            let c = reader(b, j).chk;
            assert(pow2(0) == 1);
            assert(c == 1);
            assert((1u32 >> 1u32) == 0) by (bit_vector);
            assert(j == 32 * t + 31);
            assert(b.len() >= 32 * (t + 1));
            assert(big_t >= t + 1) by {
                vstd::arithmetic::div_mod::lemma_fundamental_div_mod_converse(32 * (t + 1) as int, 32, (t + 1) as int, 0);
                vstd::arithmetic::div_mod::lemma_div_is_ordered(32 * (t + 1) as int, b.len() as int, 32);
            }
            lemma_pack_word(b, size, t + 1);
            let w = word(b, t + 1);
            lemma_word_val(b, t + 1);
            lemma_refill(b, j, w);
            vstd::arithmetic::div_mod::lemma_fundamental_div_mod_converse(j + 1 - 32, 32, q + 1, 0);
            assert(xor_words(b, t + 1) == xor_words(b, t) ^ w);
            lemma_xor_assoc(x, xor_words(b, t), w);
        }
    }
}

/// Bits `j..j + n` of `b` read as a number, the first one most significant.
pub open spec fn msb_val(b: Seq<bool>, j: int, n: nat) -> nat
    decreases n,
{
    if n == 0 {
        0
    } else {
        2 * msb_val(b, j, (n - 1) as nat) + if bit_at(b, j + n - 1) { 1nat } else { 0nat }
    }
}

/// Reading `n` bits from the packed stream gives the next `n` bits of `b`.
pub proof fn lemma_reader_bits(b: Seq<bool>, size: u32, j: int, n: nat)
    requires
        0 <= j,
        j + n <= b.len(),
    ensures
        bits(pack(b, size), reader(b, j), n) == Some((reader(b, j + n), msb_val(b, j, n))),
    decreases n,
{
    if n > 0 {
        lemma_reader_bits(b, size, j, (n - 1) as nat);
        lemma_reader_step(b, size, j + n - 1);
    }
}

/// The output buffer once the bytes `e` were produced, back to front, out of `size`.
pub open spec fn out_dec(bs: BitState, e: Seq<u8>, size: nat) -> Dec {
    Dec {
        bits: bs,
        buf: Seq::new(size, |i: int| if i >= size - e.len() { e[size - 1 - i] } else { 0u8 }),
        wpos: (size - e.len()) as nat,
    }
}

/// Decoding a packed stream starts at its first bit, with nothing produced.
pub proof fn lemma_start(b: Seq<bool>, size: u32)
    ensures
        start(pack(b, size)) == out_dec(reader(b, 0), Seq::empty(), size as nat),
{
    let p = pack(b, size);
    let big_t = extra_words(b);
    lemma_pack_word(b, size, 0);
    lemma_words_bytes_len(b, big_t);
    let n = p.len() as int;
    let o = 4 * big_t as int + 4;
    let crcw = xor_words(b, big_t);
    assert(p[o] == word_bytes(crcw)[0] && p[o + 1] == word_bytes(crcw)[1] && p[o + 2] == word_bytes(crcw)[2]
        && p[o + 3] == word_bytes(crcw)[3]);
    assert(p[o + 4] == word_bytes(size)[0] && p[o + 5] == word_bytes(size)[1] && p[o + 6] == word_bytes(size)[2]
        && p[o + 7] == word_bytes(size)[3]);
    lemma_word_bytes_be(crcw);
    lemma_word_bytes_be(size);
    assert(be_word(p, n) == size);
    assert(be_word(p, n - 4) == crcw);
    assert(start(p).buf =~= out_dec(reader(b, 0), Seq::empty(), size as nat).buf);
}

/// `v` in `w` bits, most significant first.
pub open spec fn field_bits(v: nat, w: nat) -> Seq<bool> {
    Seq::new(w, |i: int| (v / pow2((w - 1 - i) as nat)) % 2 == 1)
}

/// Reading depends only on the bits read.
proof fn lemma_msb_same(b: Seq<bool>, j: int, c: Seq<bool>, a: int, n: nat)
    requires
        forall|i: int| 0 <= i < n ==> #[trigger] bit_at(b, j + i) == bit_at(c, a + i),
    ensures
        msb_val(b, j, n) == msb_val(c, a, n),
    decreases n,
{
    if n > 0 {
        lemma_msb_same(b, j, c, a, (n - 1) as nat);
        assert(bit_at(b, j + (n - 1)) == bit_at(c, a + (n - 1)));
    }
}

/// The first `n` bits of a field are its value without its last `w - n` bits.
proof fn lemma_field_prefix(v: nat, w: nat, n: nat)
    requires
        n <= w,
        v < pow2(w),
    ensures
        msb_val(field_bits(v, w), 0, n) == v / pow2((w - n) as nat),
    decreases n,
{
    let f = field_bits(v, w);
    if n == 0 {
        lemma_pow2_pos(w);
        vstd::arithmetic::div_mod::lemma_basic_div(v as int, pow2(w) as int);
    } else {
        lemma_field_prefix(v, w, (n - 1) as nat);
        let a = (w - n) as nat;
        lemma_pow2_pos(a);
        assert(pow2(a + 1) == 2 * pow2(a));
        let y = v / pow2(a);
        vstd::arithmetic::div_mod::lemma_div_denominator(v as int, pow2(a) as int, 2);
        assert(v / pow2(a + 1) == y / 2) by {
            assert(pow2(a) * 2 == pow2(a + 1));
        }
        vstd::arithmetic::div_mod::lemma_fundamental_div_mod(y as int, 2);
        assert(bit_at(f, n - 1) == (y % 2 == 1));
        assert((w - (n - 1)) as nat == a + 1);
    }
}

/// Reading a whole field gives its value.
pub proof fn lemma_field(b: Seq<bool>, j: int, v: nat, w: nat)
    requires
        0 <= j,
        j + w <= b.len(),
        b.subrange(j, j + w) == field_bits(v, w),
        v < pow2(w),
    ensures
        msb_val(b, j, w) == v,
{
    let f = field_bits(v, w);
    assert forall|i: int| 0 <= i < w implies #[trigger] bit_at(b, j + i) == bit_at(f, 0 + i) by {
        assert(b.subrange(j, j + w)[i] == b[j + i]);
    }
    lemma_msb_same(b, j, f, 0, w);
    lemma_field_prefix(v, w, w);
    assert((w - w) as nat == 0);
    assert(pow2(0) == 1);
    assert(v / 1 == v);
}

/// Bytes, eight bits each.
pub open spec fn byte_bits(bs: Seq<u8>) -> Seq<bool>
    decreases bs.len(),
{
    if bs.len() == 0 {
        Seq::empty()
    } else {
        byte_bits(bs.drop_last()) + field_bits(bs.last() as nat, 8)
    }
}

proof fn lemma_byte_bits_len(bs: Seq<u8>)
    ensures
        byte_bits(bs).len() == 8 * bs.len(),
    decreases bs.len(),
{
    if bs.len() > 0 {
        lemma_byte_bits_len(bs.drop_last());
    }
}

/// A segment made of two parts holds each part.
proof fn lemma_split(b: Seq<bool>, j: int, s1: Seq<bool>, s2: Seq<bool>)
    requires
        0 <= j,
        j + s1.len() + s2.len() <= b.len(),
        b.subrange(j, j + s1.len() + s2.len()) == s1 + s2,
    ensures
        b.subrange(j, j + s1.len()) == s1,
        b.subrange(j + s1.len(), j + s1.len() + s2.len()) == s2,
{
    let whole = b.subrange(j, j + s1.len() + s2.len());
    assert forall|i: int| 0 <= i < s1.len() implies #[trigger] b.subrange(j, j + s1.len())[i] == s1[i] by {
        assert(whole[i] == (s1 + s2)[i]);
    }
    assert forall|i: int| 0 <= i < s2.len() implies #[trigger] b.subrange(j + s1.len(), j + s1.len() + s2.len())[i]
        == s2[i] by {
        assert(whole[s1.len() + i] == (s1 + s2)[s1.len() + i]);
    }
    assert(b.subrange(j, j + s1.len()) =~= s1);
    assert(b.subrange(j + s1.len(), j + s1.len() + s2.len()) =~= s2);
}

/// Writing the next byte in front of what was produced.
proof fn lemma_out_push(bs: BitState, e: Seq<u8>, size: nat, x: u8)
    requires
        e.len() < size,
    ensures
        out_dec(bs, e, size).buf.update(size - e.len() - 1, x) == out_dec(bs, e.push(x), size).buf,
{
    assert(out_dec(bs, e, size).buf.update(size - e.len() - 1, x) =~= out_dec(bs, e.push(x), size).buf);
}

/// A run of literal bytes reads them and produces them in order.
pub proof fn lemma_literals(b: Seq<bool>, size: u32, j: int, e: Seq<u8>, bs: Seq<u8>, k: nat)
    requires
        0 <= j,
        k <= bs.len(),
        j + 8 * k <= b.len(),
        b.subrange(j, j + 8 * k) == byte_bits(bs.subrange(0, k as int)),
        e.len() + k <= size,
    ensures
        literals(pack(b, size), out_dec(reader(b, j), e, size as nat), k) == Some(
            out_dec(reader(b, j + 8 * k), e + bs.subrange(0, k as int), size as nat),
        ),
    decreases k,
{
    if k == 0 {
        assert(e + bs.subrange(0, 0) =~= e);
    } else {
        let pre = bs.subrange(0, k - 1);
        assert(bs.subrange(0, k as int).drop_last() =~= pre);
        lemma_byte_bits_len(pre);
        let x = bs[k - 1];
        assert(bs.subrange(0, k as int).last() == x);
        lemma_split(b, j, byte_bits(pre), field_bits(x as nat, 8));
        lemma_literals(b, size, j, e, bs, (k - 1) as nat);
        let j2 = j + 8 * (k - 1);
        reveal_with_fuel(pow2, 9);
        lemma_field(b, j2, x as nat, 8);
        lemma_reader_bits(b, size, j2, 8);
        lemma_out_push(reader(b, j2), e + pre, size as nat, x);
        assert(e + bs.subrange(0, k as int) =~= (e + pre).push(x));
        assert(j2 + 8 == j + 8 * k);
    }
}

/// `k` more bytes, each a repeat of the byte `off` places before it.
pub open spec fn copy_emit(e: Seq<u8>, off: nat, k: nat) -> Seq<u8>
    decreases k,
{
    if k == 0 {
        e
    } else {
        let e1 = copy_emit(e, off, (k - 1) as nat);
        e1.push(e1[e1.len() - off])
    }
}

/// A back-reference produces repeats of earlier bytes.
pub proof fn lemma_copies(bs: BitState, e: Seq<u8>, size: nat, off: nat, k: nat)
    requires
        1 <= off <= e.len(),
        e.len() + k <= size,
    ensures
        copies(out_dec(bs, e, size), off, k) == out_dec(bs, copy_emit(e, off, k), size),
        copy_emit(e, off, k).len() == e.len() + k,
    decreases k,
{
    if k > 0 {
        lemma_copies(bs, e, size, off, (k - 1) as nat);
        let e1 = copy_emit(e, off, (k - 1) as nat);
        let d1 = out_dec(bs, e1, size);
        let src = d1.wpos + off - 1;
        assert(src >= size - e1.len());
        assert(d1.buf[src] == e1[e1.len() - off]);
        lemma_out_push(bs, e1, size, e1[e1.len() - off]);
    }
}

/// One unit of a packed stream, as a hand encoder writes it.
pub enum Unit {
    /// Literal bytes, in the order they are produced.
    Lit(Seq<u8>),
    /// `count` bytes copied from `off` bytes back.
    Copy(nat, nat),
    /// Two, three or four bytes copied from `off` bytes back, with a shorter offset field.
    Near(nat, nat),
}

/// The offset width of a short back-reference of `count` bytes.
pub open spec fn near_width(count: nat) -> nat {
    if count == 2 { 8 } else if count == 3 { 9 } else { 10 }
}

/// The bits of a unit: a short or a long literal run, or a back-reference with an
/// 8-, 9-, 10- or 12-bit offset.
pub open spec fn unit_bits(u: Unit) -> Seq<bool> {
    match u {
        Unit::Lit(bs) => if bs.len() <= 8 {
            seq![false, false] + field_bits((bs.len() - 1) as nat, 3) + byte_bits(bs)
        } else {
            seq![true] + field_bits(3, 2) + field_bits((bs.len() - 9) as nat, 8) + byte_bits(bs)
        },
        Unit::Copy(count, off) => seq![true] + field_bits(2, 2) + field_bits((count - 1) as nat, 8) + field_bits(
            off,
            12,
        ),
        Unit::Near(count, off) => if count == 2 {
            seq![false, true] + field_bits(off, 8)
        } else {
            seq![true] + field_bits((count - 3) as nat, 2) + field_bits(off, near_width(count))
        },
    }
}

/// A unit that can follow the bytes `e`: a literal run holds 1 to 264 bytes; a
/// back-reference copies 1 to 256 bytes (2 to 4 in the short forms) from no further
/// back than its offset field holds, and than what was produced.
pub open spec fn unit_ok(u: Unit, e: Seq<u8>) -> bool {
    match u {
        Unit::Lit(bs) => 1 <= bs.len() <= 264,
        Unit::Copy(count, off) => 1 <= count <= 256 && 1 <= off < 4096 && off <= e.len(),
        Unit::Near(count, off) => 2 <= count <= 4 && 1 <= off < pow2(near_width(count)) && off <= e.len(),
    }
}

/// The bytes produced once the unit follows `e`.
pub open spec fn emit(u: Unit, e: Seq<u8>) -> Seq<u8> {
    match u {
        Unit::Lit(bs) => e + bs,
        Unit::Copy(count, off) => copy_emit(e, off, count),
        Unit::Near(count, off) => copy_emit(e, off, count),
    }
}

proof fn lemma_copy_emit_len(e: Seq<u8>, off: nat, k: nat)
    ensures
        copy_emit(e, off, k).len() == e.len() + k,
    decreases k,
{
    if k > 0 {
        lemma_copy_emit_len(e, off, (k - 1) as nat);
    }
}

proof fn lemma_emit_len(u: Unit, e: Seq<u8>)
    requires
        unit_ok(u, e),
    ensures
        emit(u, e).len() > e.len(),
{
    match u {
        Unit::Lit(bs) => {},
        Unit::Copy(count, off) => {
            lemma_copy_emit_len(e, off, count);
        },
        Unit::Near(count, off) => {
            lemma_copy_emit_len(e, off, count);
        },
    }
}

proof fn lemma_pow2_small()
    ensures
        pow2(2) == 4,
        pow2(3) == 8,
        pow2(8) == 256,
        pow2(12) == 4096,
{
    reveal_with_fuel(pow2, 13);
}

#[verifier::rlimit(40)]
proof fn lemma_short_lit(b: Seq<bool>, size: u32, j: int, e: Seq<u8>, bs: Seq<u8>)
    requires
        0 <= j,
        1 <= bs.len() <= 8,
        j + unit_bits(Unit::Lit(bs)).len() <= b.len(),
        b.subrange(j, j + unit_bits(Unit::Lit(bs)).len()) == unit_bits(Unit::Lit(bs)),
        e.len() + bs.len() <= size,
    ensures
        unit(pack(b, size), out_dec(reader(b, j), e, size as nat)) == Some(
            out_dec(reader(b, j + unit_bits(Unit::Lit(bs)).len()), e + bs, size as nat),
        ),
{
    lemma_pow2_small();
    lemma_byte_bits_len(bs);
    assert(bs.subrange(0, bs.len() as int) =~= bs);
    let s0 = seq![false, false];
    let s1 = field_bits((bs.len() - 1) as nat, 3);
    let s2 = byte_bits(bs);
    lemma_split(b, j, s0 + s1, s2);
    lemma_split(b, j, s0, s1);
    assert(b[j] == b.subrange(j, j + 2)[0]);
    assert(b[j + 1] == b.subrange(j, j + 2)[1]);
    lemma_reader_step(b, size, j);
    lemma_reader_step(b, size, j + 1);
    lemma_field(b, j + 2, (bs.len() - 1) as nat, 3);
    lemma_reader_bits(b, size, j + 2, 3);
    lemma_literals(b, size, j + 5, e, bs, bs.len());
}

#[verifier::rlimit(40)]
proof fn lemma_long_lit(b: Seq<bool>, size: u32, j: int, e: Seq<u8>, bs: Seq<u8>)
    requires
        0 <= j,
        9 <= bs.len() <= 264,
        j + unit_bits(Unit::Lit(bs)).len() <= b.len(),
        b.subrange(j, j + unit_bits(Unit::Lit(bs)).len()) == unit_bits(Unit::Lit(bs)),
        e.len() + bs.len() <= size,
    ensures
        unit(pack(b, size), out_dec(reader(b, j), e, size as nat)) == Some(
            out_dec(reader(b, j + unit_bits(Unit::Lit(bs)).len()), e + bs, size as nat),
        ),
{
    lemma_pow2_small();
    lemma_byte_bits_len(bs);
    assert(bs.subrange(0, bs.len() as int) =~= bs);
    let s0 = seq![true];
    let s1 = field_bits(3, 2);
    let s2 = field_bits((bs.len() - 9) as nat, 8);
    let s3 = byte_bits(bs);
    lemma_split(b, j, s0 + s1 + s2, s3);
    lemma_split(b, j, s0 + s1, s2);
    lemma_split(b, j, s0, s1);
    assert(b[j] == b.subrange(j, j + 1)[0]);
    lemma_reader_step(b, size, j);
    lemma_field(b, j + 1, 3, 2);
    lemma_reader_bits(b, size, j + 1, 2);
    lemma_field(b, j + 3, (bs.len() - 9) as nat, 8);
    lemma_reader_bits(b, size, j + 3, 8);
    lemma_literals(b, size, j + 11, e, bs, bs.len());
}

#[verifier::rlimit(40)]
proof fn lemma_copy_unit(b: Seq<bool>, size: u32, j: int, e: Seq<u8>, count: nat, off: nat)
    requires
        0 <= j,
        unit_ok(Unit::Copy(count, off), e),
        j + unit_bits(Unit::Copy(count, off)).len() <= b.len(),
        b.subrange(j, j + unit_bits(Unit::Copy(count, off)).len()) == unit_bits(Unit::Copy(count, off)),
        e.len() + count <= size,
    ensures
        unit(pack(b, size), out_dec(reader(b, j), e, size as nat)) == Some(
            out_dec(reader(b, j + unit_bits(Unit::Copy(count, off)).len()), copy_emit(e, off, count), size as nat),
        ),
{
    lemma_pow2_small();
    let s0 = seq![true];
    let s1 = field_bits(2, 2);
    let s2 = field_bits((count - 1) as nat, 8);
    let s3 = field_bits(off, 12);
    lemma_split(b, j, s0 + s1 + s2, s3);
    lemma_split(b, j, s0 + s1, s2);
    lemma_split(b, j, s0, s1);
    assert(b[j] == b.subrange(j, j + 1)[0]);
    lemma_reader_step(b, size, j);
    lemma_field(b, j + 1, 2, 2);
    lemma_reader_bits(b, size, j + 1, 2);
    lemma_field(b, j + 3, (count - 1) as nat, 8);
    lemma_reader_bits(b, size, j + 3, 8);
    lemma_field(b, j + 11, off, 12);
    lemma_reader_bits(b, size, j + 11, 12);
    lemma_copy_emit_len(e, off, count);
    lemma_copies(reader(b, j + 23), e, size as nat, off, count);
}

#[verifier::rlimit(40)]
proof fn lemma_copy2_unit(b: Seq<bool>, size: u32, j: int, e: Seq<u8>, off: nat)
    requires
        0 <= j,
        unit_ok(Unit::Near(2, off), e),
        j + unit_bits(Unit::Near(2, off)).len() <= b.len(),
        b.subrange(j, j + unit_bits(Unit::Near(2, off)).len()) == unit_bits(Unit::Near(2, off)),
        e.len() + 2 <= size,
    ensures
        unit(pack(b, size), out_dec(reader(b, j), e, size as nat)) == Some(
            out_dec(reader(b, j + unit_bits(Unit::Near(2, off)).len()), copy_emit(e, off, 2), size as nat),
        ),
{
    lemma_pow2_small();
    let s0 = seq![false, true];
    let s1 = field_bits(off, 8);
    lemma_split(b, j, s0, s1);
    assert(b[j] == b.subrange(j, j + 2)[0]);
    assert(b[j + 1] == b.subrange(j, j + 2)[1]);
    lemma_reader_step(b, size, j);
    lemma_reader_step(b, size, j + 1);
    lemma_field(b, j + 2, off, 8);
    lemma_reader_bits(b, size, j + 2, 8);
    lemma_copy_emit_len(e, off, 2);
    lemma_copies(reader(b, j + 10), e, size as nat, off, 2);
}

#[verifier::rlimit(40)]
proof fn lemma_near_unit(b: Seq<bool>, size: u32, j: int, e: Seq<u8>, count: nat, off: nat)
    requires
        0 <= j,
        3 <= count <= 4,
        unit_ok(Unit::Near(count, off), e),
        j + unit_bits(Unit::Near(count, off)).len() <= b.len(),
        b.subrange(j, j + unit_bits(Unit::Near(count, off)).len()) == unit_bits(Unit::Near(count, off)),
        e.len() + count <= size,
    ensures
        unit(pack(b, size), out_dec(reader(b, j), e, size as nat)) == Some(
            out_dec(reader(b, j + unit_bits(Unit::Near(count, off)).len()), copy_emit(e, off, count), size as nat),
        ),
{
    lemma_pow2_small();
    let w = near_width(count);
    let c = (count - 3) as nat;
    let s0 = seq![true];
    let s1 = field_bits(c, 2);
    let s2 = field_bits(off, w);
    lemma_split(b, j, s0 + s1, s2);
    lemma_split(b, j, s0, s1);
    assert(b[j] == b.subrange(j, j + 1)[0]);
    lemma_reader_step(b, size, j);
    lemma_field(b, j + 1, c, 2);
    lemma_reader_bits(b, size, j + 1, 2);
    lemma_field(b, j + 3, off, w);
    lemma_reader_bits(b, size, j + 3, w);
    assert(c + 9 == w && c + 2 + 1 == count);
    lemma_copy_emit_len(e, off, count);
    lemma_copies(reader(b, j + 3 + w), e, size as nat, off, count);
}

/// Decoding a unit from its bits produces its bytes.
pub proof fn lemma_unit(b: Seq<bool>, size: u32, j: int, e: Seq<u8>, u: Unit)
    requires
        0 <= j,
        j + unit_bits(u).len() <= b.len(),
        b.subrange(j, j + unit_bits(u).len()) == unit_bits(u),
        unit_ok(u, e),
        emit(u, e).len() <= size,
    ensures
        unit(pack(b, size), out_dec(reader(b, j), e, size as nat)) == Some(
            out_dec(reader(b, j + unit_bits(u).len()), emit(u, e), size as nat),
        ),
{
    match u {
        Unit::Lit(bs) => {
            if bs.len() <= 8 {
                lemma_short_lit(b, size, j, e, bs);
            } else {
                lemma_long_lit(b, size, j, e, bs);
            }
        },
        Unit::Copy(count, off) => {
            lemma_copy_emit_len(e, off, count);
            lemma_copy_unit(b, size, j, e, count, off);
        },
        Unit::Near(count, off) => {
            lemma_copy_emit_len(e, off, count);
            if count == 2 {
                lemma_copy2_unit(b, size, j, e, off);
            } else {
                lemma_near_unit(b, size, j, e, count, off);
            }
        },
    }
}

/// The bits of a sequence of units, first unit first.
pub open spec fn units_bits(us: Seq<Unit>) -> Seq<bool>
    decreases us.len(),
{
    if us.len() == 0 {
        Seq::empty()
    } else {
        units_bits(us.drop_last()) + unit_bits(us.last())
    }
}

/// The bytes a sequence of units produces, in the order they are produced.
pub open spec fn units_emit(us: Seq<Unit>) -> Seq<u8>
    decreases us.len(),
{
    if us.len() == 0 {
        Seq::empty()
    } else {
        emit(us.last(), units_emit(us.drop_last()))
    }
}

/// Each unit can follow those before it.
pub open spec fn units_ok(us: Seq<Unit>) -> bool
    decreases us.len(),
{
    if us.len() == 0 {
        true
    } else {
        units_ok(us.drop_last()) && unit_ok(us.last(), units_emit(us.drop_last()))
    }
}

/// What the first `m` units are to the whole sequence.
proof fn lemma_units_prefix(us: Seq<Unit>, m: int)
    requires
        0 <= m <= us.len(),
    ensures
        units_bits(us.subrange(0, m)).len() <= units_bits(us).len(),
        units_bits(us).subrange(0, units_bits(us.subrange(0, m)).len() as int) == units_bits(us.subrange(0, m)),
        units_ok(us) ==> units_ok(us.subrange(0, m)),
        units_ok(us) ==> units_emit(us.subrange(0, m)).len() <= units_emit(us).len(),
    decreases us.len(),
{
    if m == us.len() {
        assert(us.subrange(0, m) =~= us);
        assert(units_bits(us).subrange(0, units_bits(us).len() as int) =~= units_bits(us));
    } else {
        let pre = us.drop_last();
        assert(pre.subrange(0, m) =~= us.subrange(0, m));
        lemma_units_prefix(pre, m);
        let a = units_bits(pre);
        let whole = units_bits(us);
        let k = units_bits(us.subrange(0, m)).len() as int;
        assert(whole.subrange(0, k) =~= a.subrange(0, k));
        if units_ok(us) {
            lemma_emit_len(us.last(), units_emit(pre));
        }
    }
}

/// Decoding from the start of unit `i` produces the bytes of all units.
proof fn lemma_run_units(us: Seq<Unit>, size: u32, i: int)
    requires
        units_ok(us),
        units_emit(us).len() == size,
        0 <= i <= us.len(),
    ensures
        run(
            pack(units_bits(us), size),
            out_dec(
                reader(units_bits(us), units_bits(us.subrange(0, i)).len() as int),
                units_emit(us.subrange(0, i)),
                size as nat,
            ),
        ) == Some(out_dec(reader(units_bits(us), units_bits(us).len() as int), units_emit(us), size as nat)),
    decreases us.len() - i,
{
    let b = units_bits(us);
    if i == us.len() {
        assert(us.subrange(0, i) =~= us);
    } else {
        let pre = us.subrange(0, i);
        let next = us.subrange(0, i + 1);
        assert(next.drop_last() =~= pre);
        assert(next.last() == us[i]);
        lemma_units_prefix(us, i + 1);
        lemma_units_prefix(us, i);
        let e = units_emit(pre);
        let u = us[i];
        assert(unit_ok(u, e));
        lemma_emit_len(u, e);
        let pi = units_bits(pre).len() as int;
        lemma_split(b, 0, units_bits(pre), unit_bits(u));
        lemma_unit(b, size, pi, e, u);
        lemma_run_units(us, size, i + 1);
        assert(pi + unit_bits(u).len() == units_bits(next).len());
    }
}

/// Once every bit was read, every word was folded into the checksum.
proof fn lemma_final_crc(b: Seq<bool>)
    ensures
        reader(b, b.len() as int).crc == 0,
{
    let x = xor_words(b, extra_words(b));
    assert(x ^ x == 0) by (bit_vector);
    if b.len() > 31 {
        let n = b.len() as int;
        vstd::arithmetic::div_mod::lemma_fundamental_div_mod(n, 32);
        vstd::arithmetic::div_mod::lemma_fundamental_div_mod_converse(n - 32, 32, n / 32 - 1, n % 32);
        assert((n - 31 + 31) / 32 == n / 32);
    }
}

/// A stream written by hand from literal runs and back-references of every form,
/// each within what the format allows, unpacks to exactly the bytes those units produce
/// (produced back to front, so the last one produced comes first), and its
/// checksum comes out zero.
pub proof fn hand_encoded_stream_round_trips(us: Seq<Unit>, size: u32)
    requires
        units_ok(us),
        units_emit(us).len() == size,
    ensures
        unpack_spec(pack(units_bits(us), size)) == Ok::<Seq<u8>, UnpackError>(
            Seq::new(size as nat, |i: int| units_emit(us)[size - 1 - i]),
        ),
{
    let b = units_bits(us);
    let p = pack(b, size);
    lemma_pack_word(b, size, 0);
    lemma_start(b, size);
    assert(us.subrange(0, 0) =~= Seq::<Unit>::empty());
    lemma_run_units(us, size, 0);
    lemma_final_crc(b);
    let d = out_dec(reader(b, b.len() as int), units_emit(us), size as nat);
    assert(d.buf =~= Seq::new(size as nat, |i: int| units_emit(us)[size - 1 - i]));
}

} // verus!
