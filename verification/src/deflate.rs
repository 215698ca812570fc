//! DEFLATE compression with the fixed Huffman codes of RFC 1951: an LZ77
//! encoder over a sliding window, and the decoder that reads its output
//! back, against which the encoder is proved.

use vstd::prelude::*;

verus! {

/// Two to the power `n`.
pub open spec fn pow2(n: nat) -> nat
    decreases n,
{
    if n == 0 {
        1
    } else {
        2 * pow2((n - 1) as nat)
    }
}

/// The low `n` bits of `v`, least significant first.
pub open spec fn lsb_bits(v: nat, n: nat) -> Seq<bool>
    decreases n,
{
    if n == 0 {
        Seq::empty()
    } else {
        seq![v % 2 == 1] + lsb_bits(v / 2, (n - 1) as nat)
    }
}

/// The low `n` bits of `v`, most significant first.
pub open spec fn msb_bits(v: nat, n: nat) -> Seq<bool>
    decreases n,
{
    if n == 0 {
        Seq::empty()
    } else {
        msb_bits(v / 2, (n - 1) as nat).push(v % 2 == 1)
    }
}

/// The number whose bits, least significant first, are the first `n` of `b`.
pub open spec fn read_lsb(b: Seq<bool>, n: nat) -> nat
    decreases n,
{
    if n == 0 {
        0
    } else {
        (if b[0] {
            1nat
        } else {
            0nat
        }) + 2 * read_lsb(b.skip(1), (n - 1) as nat)
    }
}

/// The number whose bits, most significant first, are the first `n` of `b`.
pub open spec fn read_msb(b: Seq<bool>, n: nat) -> nat
    decreases n,
{
    if n == 0 {
        0
    } else {
        2 * read_msb(b, (n - 1) as nat) + (if b[n - 1] {
            1nat
        } else {
            0nat
        })
    }
}

proof fn lemma_pow2_pos(n: nat)
    ensures
        pow2(n) >= 1,
    decreases n,
{
    if n > 0 {
        lemma_pow2_pos((n - 1) as nat);
    }
}

/// Writing `n` bits least significant first and reading them back.
pub proof fn lemma_lsb_roundtrip(v: nat, n: nat, rest: Seq<bool>)
    requires
        v < pow2(n),
    ensures
        lsb_bits(v, n).len() == n,
        read_lsb(lsb_bits(v, n) + rest, n) == v,
        (lsb_bits(v, n) + rest).skip(n as int) == rest,
    decreases n,
{
    if n == 0 {
        assert(lsb_bits(v, n) + rest =~= rest);
    } else {
        let p = pow2((n - 1) as nat);
        assert(v / 2 < p) by (nonlinear_arith)
            requires
                v < 2 * p,
        ;
        lemma_lsb_roundtrip(v / 2, (n - 1) as nat, rest);
        let b = lsb_bits(v, n) + rest;
        assert(b.skip(1) =~= lsb_bits(v / 2, (n - 1) as nat) + rest);
        assert(b.skip(n as int) =~= b.skip(1).skip((n - 1) as int));
    }
}

/// The bits of a number read back give it again.
pub proof fn lemma_lsb_of_read(s: Seq<bool>, n: nat)
    requires
        s.len() == n,
    ensures
        lsb_bits(read_lsb(s, n), n) == s,
        read_lsb(s, n) < pow2(n),
    decreases n,
{
    if n > 0 {
        lemma_lsb_of_read(s.skip(1), (n - 1) as nat);
        let r = read_lsb(s.skip(1), (n - 1) as nat);
        let v = read_lsb(s, n);
        assert(v % 2 == (if s[0] {
            1int
        } else {
            0int
        }) && v / 2 == r) by (nonlinear_arith)
            requires
                v == (if s[0] {
                    1int
                } else {
                    0int
                }) + 2 * r,
                r >= 0,
        ;
        assert(lsb_bits(v, n) =~= s);
    } else {
        assert(lsb_bits(read_lsb(s, n), n) =~= s);
    }
}

/// Reading most-significant-first bits looks only at the first `k`.
pub proof fn lemma_read_msb_prefix(a: Seq<bool>, r: Seq<bool>, k: nat)
    requires
        k <= a.len(),
    ensures
        read_msb(a + r, k) == read_msb(a, k),
    decreases k,
{
    if k > 0 {
        lemma_read_msb_prefix(a, r, (k - 1) as nat);
        assert((a + r)[k - 1] == a[k - 1]);
    }
}

/// The first `k` of `n` most-significant-first bits of `v` read as
/// `v / 2^(n-k)`.
pub proof fn lemma_msb_read(v: nat, n: nat, k: nat)
    requires
        v < pow2(n),
        k <= n,
    ensures
        msb_bits(v, n).len() == n,
        read_msb(msb_bits(v, n), k) == v / pow2((n - k) as nat),
    decreases n,
{
    lemma_pow2_pos(n);
    if n == 0 {
    } else {
        let p = pow2((n - 1) as nat);
        assert(v / 2 < p) by (nonlinear_arith)
            requires
                v < 2 * p,
        ;
        let a = msb_bits(v / 2, (n - 1) as nat);
        if k == n {
            lemma_msb_read(v / 2, (n - 1) as nat, (n - 1) as nat);
            lemma_read_msb_prefix(a, seq![v % 2 == 1], (n - 1) as nat);
            assert(a + seq![v % 2 == 1] =~= msb_bits(v, n));
            assert(pow2(0) == 1);
            assert(msb_bits(v, n) == a.push(v % 2 == 1));
            assert(a.push(v % 2 == 1) =~= a + seq![v % 2 == 1]);
            assert(msb_bits(v, n) == a + seq![v % 2 == 1]);
            assert(read_msb(a, (n - 1) as nat) == (v / 2) / pow2(0));
            assert((v / 2) / 1 == v / 2) by (nonlinear_arith);
            assert(read_msb(a + seq![v % 2 == 1], (n - 1) as nat) == read_msb(a, (n - 1) as nat));
            assert(read_msb(msb_bits(v, n), (n - 1) as nat) == v / 2);
            assert(msb_bits(v, n)[n - 1] == (v % 2 == 1));
            assert(v == 2 * (v / 2) + v % 2);
            assert(v / pow2(0) == v);
        } else {
            lemma_msb_read(v / 2, (n - 1) as nat, k);
            lemma_read_msb_prefix(a, seq![v % 2 == 1], k);
            assert(a + seq![v % 2 == 1] =~= msb_bits(v, n));
            lemma_pow2_pos((n - 1 - k) as nat);
            vstd::arithmetic::div_mod::lemma_div_denominator(v as int, 2, pow2((n - 1 - k) as nat) as int);
            assert(pow2((n - k) as nat) == 2 * pow2((n - 1 - k) as nat));
        }
    }
}

/// Most-significant-first bits of `v`, followed by `rest`: reading `k` of
/// them gives `v / 2^(n-k)`, and skipping `n` leaves `rest`.
pub proof fn lemma_msb_roundtrip(v: nat, n: nat, k: nat, rest: Seq<bool>)
    requires
        v < pow2(n),
        k <= n,
    ensures
        msb_bits(v, n).len() == n,
        read_msb(msb_bits(v, n) + rest, k) == v / pow2((n - k) as nat),
        (msb_bits(v, n) + rest).skip(n as int) == rest,
{
    lemma_msb_read(v, n, k);
    lemma_read_msb_prefix(msb_bits(v, n), rest, k);
    assert((msb_bits(v, n) + rest).skip(n as int) =~= rest);
}

/// Base lengths of the length symbols 257 to 285.
pub open spec fn len_base_table() -> Seq<u16> {
    seq![3u16, 4, 5, 6, 7, 8, 9, 10, 11, 13, 15, 17, 19, 23, 27, 31, 35, 43, 51, 59, 67, 83, 99, 115, 131, 163, 195, 227, 258]
}

/// Extra bits of the length symbols 257 to 285.
pub open spec fn len_extra_table() -> Seq<u8> {
    seq![0u8, 0, 0, 0, 0, 0, 0, 0, 1, 1, 1, 1, 2, 2, 2, 2, 3, 3, 3, 3, 4, 4, 4, 4, 5, 5, 5, 5, 0]
}

/// Base distances of the distance symbols 0 to 29.
pub open spec fn dist_base_table() -> Seq<u16> {
    seq![1u16, 2, 3, 4, 5, 7, 9, 13, 17, 25, 33, 49, 65, 97, 129, 193, 257, 385, 513, 769, 1025, 1537, 2049, 3073, 4097, 6145, 8193, 12289, 16385, 24577]
}

/// Extra bits of the distance symbols 0 to 29.
pub open spec fn dist_extra_table() -> Seq<u8> {
    seq![0u8, 0, 0, 0, 1, 1, 2, 2, 3, 3, 4, 4, 5, 5, 6, 6, 7, 7, 8, 8, 9, 9, 10, 10, 11, 11, 12, 12, 13, 13]
}

/// The base length of length symbol `257 + i`.
pub open spec fn len_base(i: int) -> nat {
    len_base_table()[i] as nat
}

/// The extra bits of length symbol `257 + i`.
pub open spec fn len_extra(i: int) -> nat {
    len_extra_table()[i] as nat
}

/// The base distance of distance symbol `i`.
pub open spec fn dist_base(i: int) -> nat {
    dist_base_table()[i] as nat
}

/// The extra bits of distance symbol `i`.
pub open spec fn dist_extra(i: int) -> nat {
    dist_extra_table()[i] as nat
}

/// The length table rises, and each length symbol with its extra bits
/// reaches up to the next base.
proof fn lemma_len_table(i: int)
    requires
        0 <= i < 29,
    ensures
        len_base_table().len() == 29,
        len_extra_table().len() == 29,
        3 <= len_base(i) <= 258,
        len_extra(i) <= 5,
        len_base(0) == 3,
        len_base(28) == 258,
        len_extra(28) == 0,
        i < 28 ==> len_base(i) < len_base(i + 1) <= len_base(i) + pow2(len_extra(i)),
{
    reveal_with_fuel(pow2, 7);
    if i == 0 {
    } else if i == 1 {
    } else if i == 2 {
    } else if i == 3 {
    } else if i == 4 {
    } else if i == 5 {
    } else if i == 6 {
    } else if i == 7 {
    } else if i == 8 {
    } else if i == 9 {
    } else if i == 10 {
    } else if i == 11 {
    } else if i == 12 {
    } else if i == 13 {
    } else if i == 14 {
    } else if i == 15 {
    } else if i == 16 {
    } else if i == 17 {
    } else if i == 18 {
    } else if i == 19 {
    } else if i == 20 {
    } else if i == 21 {
    } else if i == 22 {
    } else if i == 23 {
    } else if i == 24 {
    } else if i == 25 {
    } else if i == 26 {
    } else if i == 27 {
    } else if i == 28 {
    }
}

/// The distance table rises, and each distance symbol with its extra bits
/// reaches exactly up to the next base; the last reaches 32768.
proof fn lemma_dist_table(i: int)
    requires
        0 <= i < 30,
    ensures
        dist_base_table().len() == 30,
        dist_extra_table().len() == 30,
        1 <= dist_base(i) <= 24577,
        dist_extra(i) <= 13,
        dist_base(0) == 1,
        i < 29 ==> dist_base(i + 1) == dist_base(i) + pow2(dist_extra(i)),
        i == 29 ==> dist_base(i) + pow2(dist_extra(i)) == 32769,
{
    reveal_with_fuel(pow2, 15);
    if i == 0 {
    } else if i == 1 {
    } else if i == 2 {
    } else if i == 3 {
    } else if i == 4 {
    } else if i == 5 {
    } else if i == 6 {
    } else if i == 7 {
    } else if i == 8 {
    } else if i == 9 {
    } else if i == 10 {
    } else if i == 11 {
    } else if i == 12 {
    } else if i == 13 {
    } else if i == 14 {
    } else if i == 15 {
    } else if i == 16 {
    } else if i == 17 {
    } else if i == 18 {
    } else if i == 19 {
    } else if i == 20 {
    } else if i == 21 {
    } else if i == 22 {
    } else if i == 23 {
    } else if i == 24 {
    } else if i == 25 {
    } else if i == 26 {
    } else if i == 27 {
    } else if i == 28 {
    } else if i == 29 {
    }
}

/// The length symbol index (0 to 28) whose range holds length `l`: the
/// highest one whose base does not exceed `l`, searching down from `i`.
pub open spec fn len_index_from(l: int, i: int) -> int
    decreases i,
{
    if i <= 0 {
        0
    } else if len_base(i) <= l {
        i
    } else {
        len_index_from(l, i - 1)
    }
}

/// The length symbol index of length `l`.
pub open spec fn len_index(l: int) -> int {
    len_index_from(l, 28)
}

/// The distance symbol of distance `d`, searching down from `i`.
pub open spec fn dist_index_from(d: int, i: int) -> int
    decreases i,
{
    if i <= 0 {
        0
    } else if dist_base(i) <= d {
        i
    } else {
        dist_index_from(d, i - 1)
    }
}

/// The distance symbol of distance `d`.
pub open spec fn dist_index(d: int) -> int {
    dist_index_from(d, 29)
}

proof fn lemma_len_index_from(l: int, i: int)
    requires
        0 <= i <= 28,
    ensures
        0 <= len_index_from(l, i) <= i,
        len_index_from(l, i) == 0 || len_base(len_index_from(l, i)) <= l,
        len_index_from(l, i) < i ==> len_base(len_index_from(l, i) + 1) > l,
    decreases i,
{
    if i > 0 && len_base(i) > l {
        lemma_len_index_from(l, i - 1);
    }
}

/// A length from 3 to 258 is its symbol's base plus extra bits that fit.
proof fn lemma_len_index(l: int)
    requires
        3 <= l <= 258,
    ensures
        0 <= len_index(l) < 29,
        len_base(len_index(l)) <= l,
        l - len_base(len_index(l)) < pow2(len_extra(len_index(l))),
{
    lemma_len_index_from(l, 28);
    let j = len_index(l);
    lemma_len_table(j);
    if j == 28 {
        assert(pow2(0) == 1);
    }
}

proof fn lemma_dist_index_from(d: int, i: int)
    requires
        0 <= i <= 29,
    ensures
        0 <= dist_index_from(d, i) <= i,
        dist_index_from(d, i) == 0 || dist_base(dist_index_from(d, i)) <= d,
        dist_index_from(d, i) < i ==> dist_base(dist_index_from(d, i) + 1) > d,
    decreases i,
{
    if i > 0 && dist_base(i) > d {
        lemma_dist_index_from(d, i - 1);
    }
}

/// A distance from 1 to 32768 is its symbol's base plus extra bits that fit.
proof fn lemma_dist_index(d: int)
    requires
        1 <= d <= 32768,
    ensures
        0 <= dist_index(d) < 30,
        dist_base(dist_index(d)) <= d,
        d - dist_base(dist_index(d)) < pow2(dist_extra(dist_index(d))),
{
    lemma_dist_index_from(d, 29);
    let j = dist_index(d);
    lemma_dist_table(j);
}

/// The fixed Huffman code of literal/length symbol `s` (0 to 287).
pub open spec fn sym_code(s: nat) -> nat {
    if s <= 143 {
        s + 48
    } else if s <= 255 {
        s + 256
    } else if s <= 279 {
        (s - 256) as nat
    } else {
        (s - 88) as nat
    }
}

/// The length in bits of the fixed Huffman code of symbol `s`.
pub open spec fn sym_len(s: nat) -> nat {
    if s <= 143 {
        8
    } else if s <= 255 {
        9
    } else if s <= 279 {
        7
    } else {
        8
    }
}

/// The bits of symbol `s`, most significant first.
pub open spec fn sym_bits(s: nat) -> Seq<bool> {
    msb_bits(sym_code(s), sym_len(s))
}

/// Reads one literal/length symbol of the fixed code: the symbol and the
/// number of bits it took.
pub open spec fn read_symbol(b: Seq<bool>) -> Option<(nat, nat)> {
    if b.len() >= 7 && read_msb(b, 7) <= 23 {
        Some(((256 + read_msb(b, 7)) as nat, 7))
    } else if b.len() >= 8 && 48 <= read_msb(b, 8) <= 191 {
        Some(((read_msb(b, 8) - 48) as nat, 8))
    } else if b.len() >= 8 && 192 <= read_msb(b, 8) <= 199 {
        Some(((read_msb(b, 8) + 88) as nat, 8))
    } else if b.len() >= 9 && 400 <= read_msb(b, 9) <= 511 {
        Some(((read_msb(b, 9) - 256) as nat, 9))
    } else {
        None
    }
}

/// The fixed code is prefix-free: reading a symbol's bits gives it back.
pub proof fn lemma_read_symbol(s: nat, rest: Seq<bool>)
    requires
        s <= 287,
    ensures
        read_symbol(sym_bits(s) + rest) == Some((s, sym_len(s))),
        (sym_bits(s) + rest).skip(sym_len(s) as int) == rest,
{
    lemma_pow2_values();
    let c = sym_code(s);
    let n = sym_len(s);
    assert(c < pow2(n));
    lemma_msb_roundtrip(c, n, n, rest);
    lemma_msb_roundtrip(c, n, 7, rest);
    lemma_div1(c);
    if n == 7 {
        assert(read_msb(sym_bits(s) + rest, 7) == c);
    } else if n == 8 {
        lemma_msb_roundtrip(c, n, 8, rest);
        assert(read_msb(sym_bits(s) + rest, 7) == c / 2);
        assert(read_msb(sym_bits(s) + rest, 8) == c);
    } else {
        lemma_msb_roundtrip(c, n, 8, rest);
        assert(read_msb(sym_bits(s) + rest, 7) == c / 4);
        assert(read_msb(sym_bits(s) + rest, 8) == c / 2);
        assert(read_msb(sym_bits(s) + rest, 9) == c);
    }
}

/// Division by one.
pub proof fn lemma_div1(x: nat)
    ensures
        x / 1 == x,
{
    assert(x / 1 == x) by (nonlinear_arith);
}

/// The powers of two that the codes use.
pub proof fn lemma_pow2_values()
    ensures
        pow2(0) == 1,
        pow2(1) == 2,
        pow2(2) == 4,
        pow2(5) == 32,
        pow2(7) == 128,
        pow2(8) == 256,
        pow2(9) == 512,
{
    reveal_with_fuel(pow2, 10);
}

/// Powers of two grow with the exponent.
pub proof fn lemma_pow2_le(a: nat, b: nat)
    requires
        a <= b,
    ensures
        pow2(a) <= pow2(b),
    decreases b,
{
    if a < b {
        lemma_pow2_le(a, (b - 1) as nat);
        lemma_pow2_pos((b - 1) as nat);
    }
}

/// One step of LZ77: a literal byte, or a copy of `len` bytes from `dist`
/// bytes back.
#[derive(Debug, Clone, Copy, PartialEq, Eq, Structural)]
pub enum Token {
    /// A literal byte
    Literal(u8),
    /// A copy: length, distance
    Copy(u16, u16),
}

/// The bits of a token: a literal's symbol; or the length symbol, its
/// extra bits, the distance symbol (five bits) and its extra bits.
pub open spec fn token_bits(t: Token) -> Seq<bool> {
    match t {
        Token::Literal(b) => sym_bits(b as nat),
        Token::Copy(len, dist) => {
            let li = len_index(len as int);
            let di = dist_index(dist as int);
            sym_bits((257 + li) as nat) + lsb_bits((len - len_base(li)) as nat, len_extra(li))
                + msb_bits(di as nat, 5) + lsb_bits((dist - dist_base(di)) as nat, dist_extra(di))
        },
    }
}

/// The bits of a run of tokens.
pub open spec fn tokens_bits(ts: Seq<Token>) -> Seq<bool>
    decreases ts.len(),
{
    if ts.len() == 0 {
        Seq::empty()
    } else {
        token_bits(ts[0]) + tokens_bits(ts.skip(1))
    }
}

/// `out` with `len` bytes appended, each the byte `dist` back.
pub open spec fn copy_back(out: Seq<u8>, len: nat, dist: nat) -> Seq<u8>
    decreases len,
{
    if len == 0 {
        out
    } else {
        let o = copy_back(out, (len - 1) as nat, dist);
        o.push(o[o.len() - dist])
    }
}

/// `out` after one token.
pub open spec fn apply_token(out: Seq<u8>, t: Token) -> Seq<u8> {
    match t {
        Token::Literal(b) => out.push(b),
        Token::Copy(len, dist) => copy_back(out, len as nat, dist as nat),
    }
}

/// The bytes that a run of tokens stands for.
pub open spec fn expand(ts: Seq<Token>) -> Seq<u8>
    decreases ts.len(),
{
    if ts.len() == 0 {
        Seq::empty()
    } else {
        apply_token(expand(ts.drop_last()), ts.last())
    }
}

/// A token that can follow the bytes `out`: a copy has a length from 3 to
/// 258 and reaches no further back than `out` and 32768 bytes.
pub open spec fn token_ok(out: Seq<u8>, t: Token) -> bool {
    match t {
        Token::Literal(_) => true,
        Token::Copy(len, dist) => 3 <= len <= 258 && 1 <= dist <= 32768 && dist <= out.len(),
    }
}

/// Every token of the run can follow what the tokens before it stand for.
pub open spec fn valid_tokens(ts: Seq<Token>) -> bool {
    forall|k: int| 0 <= k < ts.len() ==> token_ok(expand(ts.take(k)), #[trigger] ts[k])
}

/// Decodes the symbols of a fixed-Huffman block after the bytes `out`,
/// up to the end-of-block symbol; `None` for anything else.
pub open spec fn inflate_codes(b: Seq<bool>, out: Seq<u8>) -> Option<Seq<u8>>
    decreases b.len(),
{
    match read_symbol(b) {
        None => None,
        Some((s, n)) => {
            if n > b.len() {
                None
            } else {
                let r = b.skip(n as int);
                if s < 256 {
                    inflate_codes(r, out.push(s as u8))
                } else if s == 256 {
                    Some(out)
                } else if s <= 285 {
                    let li = s - 257;
                    let le = len_extra(li);
                    if r.len() < le + 5 {
                        None
                    } else {
                        let len = len_base(li) + read_lsb(r, le);
                        let r2 = r.skip(le as int);
                        let di = read_msb(r2, 5);
                        if di > 29 {
                            None
                        } else {
                            let de = dist_extra(di as int);
                            let r3 = r2.skip(5);
                            if r3.len() < de {
                                None
                            } else {
                                let dist = dist_base(di as int) + read_lsb(r3, de);
                                if dist > out.len() {
                                    None
                                } else {
                                    inflate_codes(r3.skip(de as int), copy_back(out, len, dist))
                                }
                            }
                        }
                    }
                } else {
                    None
                }
            }
        },
    }
}

/// Decodes one final fixed-Huffman block (`BFINAL` 1, `BTYPE` 01): the
/// bytes it stands for, or `None`.
pub open spec fn inflate_fixed(b: Seq<bool>) -> Option<Seq<u8>> {
    if b.len() >= 3 && b[0] && b[1] && !b[2] {
        inflate_codes(b.skip(3), Seq::empty())
    } else {
        None
    }
}

/// The bits of one final fixed-Huffman block of the tokens.
pub open spec fn block_bits(ts: Seq<Token>) -> Seq<bool> {
    seq![true, true, false] + tokens_bits(ts) + sym_bits(256)
}

/// Decoding one token's bits after `out` continues after `out` and the
/// token's bytes.
proof fn lemma_decode_token(t: Token, out: Seq<u8>, rest: Seq<bool>)
    requires
        token_ok(out, t),
    ensures
        inflate_codes(token_bits(t) + rest, out) == inflate_codes(rest, apply_token(out, t)),
{
    match t {
        Token::Literal(byte) => {
            lemma_read_symbol(byte as nat, rest);
        },
        Token::Copy(len, dist) => {
            lemma_decode_copy(len, dist, out, rest);
        },
    }
}

#[verifier::spinoff_prover]
#[verifier::rlimit(60)]
proof fn lemma_decode_copy(len: u16, dist: u16, out: Seq<u8>, rest: Seq<bool>)
    requires
        token_ok(out, Token::Copy(len, dist)),
    ensures
        inflate_codes(token_bits(Token::Copy(len, dist)) + rest, out) == inflate_codes(
            rest,
            copy_back(out, len as nat, dist as nat),
        ),
{
    let t = Token::Copy(len, dist);
    let li = len_index(len as int);
    let di = dist_index(dist as int);
    lemma_len_index(len as int);
    lemma_dist_index(dist as int);
    lemma_len_table(li);
    lemma_dist_table(di);
    lemma_pow2_values();
    let lv = (len - len_base(li)) as nat;
    let dv = (dist - dist_base(di)) as nat;
    let e1 = lsb_bits(lv, len_extra(li));
    let e2 = msb_bits(di as nat, 5);
    let e3 = lsb_bits(dv, dist_extra(di));
    let r3 = e3 + rest;
    let r2 = e2 + r3;
    let r = e1 + r2;
    let s = (257 + li) as nat;
    assert(token_bits(t) + rest =~= sym_bits(s) + r);
    lemma_read_symbol(s, r);
    lemma_lsb_roundtrip(lv, len_extra(li), r2);
    lemma_msb_roundtrip(di as nat, 5, 5, r3);
    lemma_div1(di as nat);
    lemma_lsb_roundtrip(dv, dist_extra(di), rest);
    assert(read_symbol(sym_bits(s) + r) == Some((s, sym_len(s))));
    assert(sym_len(s) == 7 || sym_len(s) == 8);
    assert((sym_bits(s) + r).skip(sym_len(s) as int) == r);
    assert(r.skip(len_extra(li) as int) == r2);
    assert(read_msb(r2, 5) == di);
    assert(r2.skip(5) == r3);
    assert(r3.skip(dist_extra(di) as int) == rest);
    assert(len_base(li) + read_lsb(r, len_extra(li)) == len);
    assert(dist_base(di) + read_lsb(r3, dist_extra(di)) == dist);
}

/// Decoding the bits of the tokens from the `k`-th on, after what the first
/// `k` stand for, and then the end-of-block symbol, gives all the bytes.
#[verifier::spinoff_prover]
#[verifier::rlimit(60)]
proof fn lemma_decode_from(ts: Seq<Token>, k: int, rest: Seq<bool>)
    requires
        valid_tokens(ts),
        0 <= k <= ts.len(),
    ensures
        inflate_codes(tokens_bits(ts.skip(k)) + sym_bits(256) + rest, expand(ts.take(k))) == Some(
            expand(ts),
        ),
    decreases ts.len() - k,
{
    if k == ts.len() {
        assert(ts.skip(k) =~= Seq::<Token>::empty());
        assert(ts.take(k) =~= ts);
        assert(tokens_bits(ts.skip(k)) + sym_bits(256) + rest =~= sym_bits(256) + rest);
        lemma_read_symbol(256, rest);
    } else {
        let t = ts[k];
        assert(token_ok(expand(ts.take(k)), t));
        let tail = tokens_bits(ts.skip(k + 1)) + sym_bits(256) + rest;
        assert(ts.skip(k).skip(1) =~= ts.skip(k + 1));
        assert(ts.skip(k)[0] == t);
        assert(tokens_bits(ts.skip(k)) + sym_bits(256) + rest =~= token_bits(t) + tail);
        lemma_decode_token(t, expand(ts.take(k)), tail);
        assert(ts.take(k + 1).drop_last() =~= ts.take(k));
        assert(ts.take(k + 1).last() == t);
        lemma_decode_from(ts, k + 1, rest);
    }
}

/// A block of valid tokens, followed by any bits, decodes to the bytes the
/// tokens stand for.
pub proof fn law_block_roundtrip(ts: Seq<Token>, pad: Seq<bool>)
    requires
        valid_tokens(ts),
    ensures
        inflate_fixed(block_bits(ts) + pad) == Some(expand(ts)),
{
    let b = block_bits(ts) + pad;
    assert(b.skip(3) =~= tokens_bits(ts.skip(0)) + sym_bits(256) + pad) by {
        assert(ts.skip(0) =~= ts);
    }
    assert(ts.take(0) =~= Seq::<Token>::empty());
    lemma_decode_from(ts, 0, pad);
}

/// The bits of a run of tokens grow token by token.
proof fn lemma_tokens_bits_push(ts: Seq<Token>, t: Token)
    ensures
        tokens_bits(ts.push(t)) == tokens_bits(ts) + token_bits(t),
    decreases ts.len(),
{
    if ts.len() == 0 {
        assert(ts.push(t).skip(1) =~= Seq::<Token>::empty());
        assert(ts.push(t)[0] == t);
        assert(tokens_bits(ts.push(t).skip(1)) == Seq::<bool>::empty());
        assert(tokens_bits(ts) == Seq::<bool>::empty());
        assert(tokens_bits(ts.push(t)) =~= tokens_bits(ts) + token_bits(t));
    } else {
        assert(ts.push(t).skip(1) =~= ts.skip(1).push(t));
        lemma_tokens_bits_push(ts.skip(1), t);
        assert(tokens_bits(ts.push(t)) =~= tokens_bits(ts) + token_bits(t));
    }
}

/// The byte at `i + k` equals the one `dist` bytes before it.
pub open spec fn repeats(data: Seq<u8>, i: int, dist: int, k: int) -> bool {
    data[i + k] == data[i + k - dist]
}

/// Copying `len` bytes from `dist` back reproduces the data where the data
/// repeats itself at that distance.
proof fn lemma_copy_back(data: Seq<u8>, i: int, len: nat, dist: nat)
    requires
        1 <= dist <= i,
        i + len <= data.len(),
        forall|k: int| 0 <= k < len ==> #[trigger] repeats(data, i, dist as int, k),
    ensures
        copy_back(data.take(i), len, dist) == data.take(i + len),
    decreases len,
{
    if len > 0 {
        lemma_copy_back(data, i, (len - 1) as nat, dist);
        let o = data.take(i + len - 1);
        assert(o[o.len() - dist] == data[i + len - 1 - dist]);
        assert(repeats(data, i, dist as int, len - 1));
        assert(o.push(data[i + len - 1]) =~= data.take(i + len));
    } else {
        assert(data.take(i + len) =~= data.take(i));
    }
}

/// The bits of the bytes, each least significant bit first.
pub open spec fn bytes_bits(bytes: Seq<u8>) -> Seq<bool>
    decreases bytes.len(),
{
    if bytes.len() == 0 {
        Seq::empty()
    } else {
        lsb_bits(bytes[0] as nat, 8) + bytes_bits(bytes.skip(1))
    }
}

proof fn lemma_bytes_bits_push(bytes: Seq<u8>, x: u8)
    ensures
        bytes_bits(bytes.push(x)) == bytes_bits(bytes) + lsb_bits(x as nat, 8),
    decreases bytes.len(),
{
    if bytes.len() == 0 {
        assert(bytes.push(x).skip(1) =~= Seq::<u8>::empty());
        assert(bytes.push(x)[0] == x);
        assert(bytes_bits(bytes.push(x).skip(1)) == Seq::<bool>::empty());
        assert(bytes_bits(bytes) == Seq::<bool>::empty());
        assert(bytes_bits(bytes.push(x)) =~= bytes_bits(bytes) + lsb_bits(x as nat, 8));
    } else {
        assert(bytes.push(x).skip(1) =~= bytes.skip(1).push(x));
        lemma_bytes_bits_push(bytes.skip(1), x);
        assert(bytes_bits(bytes.push(x)) =~= bytes_bits(bytes) + lsb_bits(x as nat, 8));
    }
}

/// Appends the low `n` bits of `v`, least significant first.
fn push_lsb(bits: &mut Vec<bool>, v: u32, n: u32)
    ensures
        final(bits)@ == old(bits)@ + lsb_bits(v as nat, n as nat),
    decreases n,
{
    if n > 0 {
        bits.push(v % 2 == 1);
        push_lsb(bits, v / 2, n - 1);
        assert(bits@ =~= old(bits)@ + lsb_bits(v as nat, n as nat));
    } else {
        assert(bits@ =~= old(bits)@ + lsb_bits(v as nat, n as nat));
    }
}

/// Appends the low `n` bits of `v`, most significant first.
fn push_msb(bits: &mut Vec<bool>, v: u32, n: u32)
    ensures
        final(bits)@ == old(bits)@ + msb_bits(v as nat, n as nat),
    decreases n,
{
    if n > 0 {
        push_msb(bits, v / 2, n - 1);
        bits.push(v % 2 == 1);
        assert(bits@ =~= old(bits)@ + msb_bits(v as nat, n as nat));
    } else {
        assert(bits@ =~= old(bits)@ + msb_bits(v as nat, n as nat));
    }
}

/// Appends the fixed Huffman code of symbol `s`.
fn push_symbol(bits: &mut Vec<bool>, s: u32)
    requires
        s <= 287,
    ensures
        final(bits)@ == old(bits)@ + sym_bits(s as nat),
{
    if s <= 143 {
        push_msb(bits, s + 48, 8);
    } else if s <= 255 {
        push_msb(bits, s + 256, 9);
    } else if s <= 279 {
        push_msb(bits, s - 256, 7);
    } else {
        push_msb(bits, s - 88, 8);
    }
}

/// The length symbol index of `len`, with its base and extra bits.
fn len_symbol(len: u16) -> (r: (usize, u16, u8))
    requires
        3 <= len <= 258,
    ensures
        r.0 == len_index(len as int),
        r.1 == len_base(r.0 as int),
        r.2 == len_extra(r.0 as int),
{
    let bases: Vec<u16> = vec![3u16, 4, 5, 6, 7, 8, 9, 10, 11, 13, 15, 17, 19, 23, 27, 31, 35, 43, 51, 59, 67, 83, 99, 115, 131, 163, 195, 227, 258];
    let extras: Vec<u8> = vec![0u8, 0, 0, 0, 0, 0, 0, 0, 1, 1, 1, 1, 2, 2, 2, 2, 3, 3, 3, 3, 4, 4, 4, 4, 5, 5, 5, 5, 0];
    assert(bases@ =~= len_base_table());
    assert(extras@ =~= len_extra_table());
    let mut i: usize = 28;
    while i > 0 && bases[i] > len
        invariant
            i <= 28,
            bases@ == len_base_table(),
            len_index(len as int) == len_index_from(len as int, i as int),
        decreases i,
    {
        i = i - 1;
    }
    (i, bases[i], extras[i])
}

/// The distance symbol of `dist`, with its base and extra bits.
fn dist_symbol(dist: u16) -> (r: (usize, u16, u8))
    requires
        1 <= dist,
    ensures
        r.0 == dist_index(dist as int),
        r.1 == dist_base(r.0 as int),
        r.2 == dist_extra(r.0 as int),
{
    let bases: Vec<u16> = vec![1u16, 2, 3, 4, 5, 7, 9, 13, 17, 25, 33, 49, 65, 97, 129, 193, 257, 385, 513, 769, 1025, 1537, 2049, 3073, 4097, 6145, 8193, 12289, 16385, 24577];
    let extras: Vec<u8> = vec![0u8, 0, 0, 0, 1, 1, 2, 2, 3, 3, 4, 4, 5, 5, 6, 6, 7, 7, 8, 8, 9, 9, 10, 10, 11, 11, 12, 12, 13, 13];
    assert(bases@ =~= dist_base_table());
    assert(extras@ =~= dist_extra_table());
    let mut i: usize = 29;
    while i > 0 && bases[i] > dist
        invariant
            i <= 29,
            bases@ == dist_base_table(),
            dist_index(dist as int) == dist_index_from(dist as int, i as int),
        decreases i,
    {
        i = i - 1;
    }
    (i, bases[i], extras[i])
}

/// Appends the bits of a token.
fn push_token(bits: &mut Vec<bool>, t: Token)
    requires
        t matches Token::Copy(len, dist) ==> 3 <= len <= 258 && 1 <= dist <= 32768,
    ensures
        final(bits)@ == old(bits)@ + token_bits(t),
{
    match t {
        Token::Literal(b) => {
            push_symbol(bits, b as u32);
        },
        Token::Copy(len, dist) => {
            let (li, lb, le) = len_symbol(len);
            let (di, db, de) = dist_symbol(dist);
            proof {
                lemma_len_index(len as int);
                lemma_dist_index(dist as int);
            }
            push_symbol(bits, 257 + li as u32);
            push_lsb(bits, (len - lb) as u32, le as u32);
            push_msb(bits, di as u32, 5);
            push_lsb(bits, (dist - db) as u32, de as u32);
            assert(bits@ =~= old(bits)@ + token_bits(t));
        },
    }
}

/// The farthest a match may reach back.
pub const WINDOW: usize = 256;

/// How far, counting on from `m` and up to 258, the data at `i` repeats
/// the data `d` bytes before it.
pub open spec fn run_from(data: Seq<u8>, i: int, d: int, m: int) -> int
    decreases 258 - m,
{
    if 0 <= m < 258 && i + m < data.len() && data[i + m] == data[i + m - d] {
        run_from(data, i, d, m + 1)
    } else {
        m
    }
}

/// How far (up to 258 bytes) the data at `i` repeats the data `d` bytes
/// before it.
pub open spec fn match_len(data: Seq<u8>, i: int, d: int) -> int {
    run_from(data, i, d, 0)
}

/// The longest match at `i` over the distances from `d` to `i` and
/// `WINDOW`, given the best length `bl` and distance `bd` over the shorter
/// ones; of equal lengths the shortest distance wins.
pub open spec fn best_from(data: Seq<u8>, i: int, d: int, bl: int, bd: int) -> (int, int)
    decreases i + 1 - d,
{
    if 1 <= d <= i && d <= WINDOW {
        let m = match_len(data, i, d);
        if m > bl {
            best_from(data, i, d + 1, m, d)
        } else {
            best_from(data, i, d + 1, bl, bd)
        }
    } else {
        (bl, bd)
    }
}

/// The length and distance of the longest match at `i`: length 0 when
/// there is none.
pub open spec fn best_match(data: Seq<u8>, i: int) -> (int, int) {
    best_from(data, i, 1, 0, 0)
}

/// The tokens of the greedy parse of the data from `i` on: at each place
/// the longest match when it is at least 3 bytes long, else the literal.
pub open spec fn greedy_tokens(data: Seq<u8>, i: int) -> Seq<Token>
    decreases data.len() - i,
{
    if 0 <= i < data.len() {
        let (l, d) = best_match(data, i);
        if l >= 3 && i + l <= data.len() {
            seq![Token::Copy(l as u16, d as u16)] + greedy_tokens(data, i + l)
        } else {
            seq![Token::Literal(data[i])] + greedy_tokens(data, i + 1)
        }
    } else {
        Seq::empty()
    }
}

/// The tokens that `deflate` writes for the data.
pub open spec fn deflate_tokens(data: Seq<u8>) -> Seq<Token> {
    greedy_tokens(data, 0)
}

/// The longest length (at most 258) over which the data at `i` repeats the
/// data some distance back (at most `WINDOW`, and not before the start),
/// with that distance; length 0 when nothing repeats.
fn longest_match(data: &[u8], i: usize) -> (r: (u16, u16))
    requires
        i < data@.len(),
    ensures
        r.0 <= 258,
        i + r.0 <= data@.len(),
        r.0 > 0 ==> 1 <= r.1 <= i && r.1 <= 32768,
        forall|k: int| 0 <= k < r.0 ==> #[trigger] repeats(data@, i as int, r.1 as int, k),
        best_match(data@, i as int) == (r.0 as int, r.1 as int),
{
    let n = data.len();
    let mut best_len: usize = 0;
    let mut best_dist: usize = 0;
    let mut d: usize = 1;
    while d <= i && d <= WINDOW
        invariant
            i < n == data@.len(),
            1 <= d,
            best_len <= 258,
            i + best_len <= n,
            best_len > 0 ==> 1 <= best_dist <= i && best_dist <= WINDOW,
            best_len == 0 ==> best_dist == 0,
            forall|k: int| 0 <= k < best_len ==> #[trigger] repeats(data@, i as int, best_dist as int, k),
            best_from(data@, i as int, d as int, best_len as int, best_dist as int) == best_match(
                data@,
                i as int,
            ),
        decreases i + 1 - d,
    {
        let mut m: usize = 0;
        while m < 258 && i + m < n && data[i + m] == data[i + m - d]
            invariant
                i < n == data@.len(),
                1 <= d <= i,
                m <= 258,
                i + m <= n,
                forall|k: int| 0 <= k < m ==> #[trigger] repeats(data@, i as int, d as int, k),
                run_from(data@, i as int, d as int, m as int) == match_len(data@, i as int, d as int),
            decreases 258 - m,
        {
            assert(repeats(data@, i as int, d as int, m as int));
            m = m + 1;
        }
        if m > best_len {
            best_len = m;
            best_dist = d;
        }
        d = d + 1;
    }
    (best_len as u16, best_dist as u16)
}

/// `n` zero bits.
pub open spec fn zeros(n: nat) -> Seq<bool> {
    Seq::new(n, |k: int| false)
}

/// Packs bits into bytes, least significant bit first, the last byte
/// filled up with zero bits.
fn pack_bits(bits: &Vec<bool>) -> (r: Vec<u8>)
    ensures
        exists|pad: nat| pad < 8 && bytes_bits(r@) == bits@ + #[trigger] zeros(pad),
{
    let len = bits.len();
    let pad: usize = (8 - len % 8) % 8;
    let ghost padded = bits@ + zeros(pad as nat);
    let mut out: Vec<u8> = Vec::new();
    let mut p: usize = 0;
    assert(padded.take(0) =~= Seq::<bool>::empty());
    proof {
        lemma_pow2_values();
    }
    while p < len
        invariant
            p <= len == bits@.len(),
            p % 8 == 0,
            pad == (8 - len % 8) % 8,
            padded == bits@ + zeros(pad as nat),
            bytes_bits(out@) == padded.take(p as int),
        decreases len - p,
    {
        let left = len - p;
        assert(p + 8 <= len + pad) by (nonlinear_arith)
            requires
                p % 8 == 0,
                p < len,
                pad == (8 - len % 8) % 8,
        ;
        let ghost chunk = padded.subrange(p as int, p + 8);
        let mut val: u32 = 0;
        let mut k: usize = 8;
        assert(chunk.skip(8) =~= Seq::<bool>::empty());
        proof {
            lemma_pow2_values();
        }
        while k > 0
            invariant
                k <= 8,
                p < len == bits@.len(),
                left == len - p,
                p + 8 <= len + pad,
                padded == bits@ + zeros(pad as nat),
                chunk == padded.subrange(p as int, p + 8),
                val == read_lsb(chunk.skip(k as int), (8 - k) as nat),
                val < pow2((8 - k) as nat),
                pow2(8) == 256,
            decreases k,
        {
            let bit = if k - 1 < left {
                bits[p + k - 1]
            } else {
                false
            };
            assert(bit == chunk[k - 1]);
            proof {
                assert(chunk.skip(k - 1).skip(1) =~= chunk.skip(k as int));
                assert(chunk.skip(k - 1)[0] == chunk[k - 1]);
                lemma_pow2_le((8 - k) as nat, 7);
                reveal_with_fuel(pow2, 8);
                assert(pow2((9 - k) as nat) == 2 * pow2((8 - k) as nat));
            }
            val = 2 * val + (if bit {
                1u32
            } else {
                0u32
            });
            k = k - 1;
        }
        proof {
            assert(chunk.skip(0) =~= chunk);
            lemma_lsb_of_read(chunk, 8);
            lemma_bytes_bits_push(out@, val as u8);
        }
        out.push(val as u8);
        assert(padded.take(p + 8) =~= padded.take(p as int) + chunk);
        if left <= 8 {
            assert(p + 8 == len + pad) by (nonlinear_arith)
                requires
                    p % 8 == 0,
                    p < len,
                    len - p <= 8,
                    pad == (8 - len % 8) % 8,
            ;
            assert(padded.take(p + 8) =~= padded);
            assert(pad < 8);
            return out;
        }
        p = p + 8;
    }
    assert(len == 0 || p == len);
    assert(pad == 0) by (nonlinear_arith)
        requires
            p == len,
            p % 8 == 0,
            pad == (8 - len % 8) % 8,
    ;
    assert(padded.take(p as int) =~= padded);
    out
}

/// One step of the encoder keeps the tokens valid and standing for the
/// data read so far.
#[verifier::spinoff_prover]
proof fn lemma_deflate_step(data: Seq<u8>, i: int, ts: Seq<Token>, t: Token, step: int)
    requires
        0 <= i < data.len(),
        valid_tokens(ts),
        expand(ts) == data.take(i),
        match t {
            Token::Literal(b) => b == data[i] && step == 1,
            Token::Copy(len, dist) => step == len && 3 <= len <= 258 && 1 <= dist <= i && dist
                <= 32768 && i + len <= data.len() && forall|k: int|
                0 <= k < len ==> #[trigger] repeats(data, i, dist as int, k),
        },
    ensures
        valid_tokens(ts.push(t)),
        expand(ts.push(t)) == data.take(i + step),
{
    let nts = ts.push(t);
    assert(nts.drop_last() =~= ts);
    match t {
        Token::Copy(len, dist) => {
            lemma_copy_back(data, i, len as nat, dist as nat);
        },
        Token::Literal(b) => {
            assert(data.take(i).push(data[i]) =~= data.take(i + 1));
        },
    }
    assert forall|k: int| 0 <= k < nts.len() implies token_ok(
        expand(nts.take(k)),
        #[trigger] nts[k],
    ) by {
        if k < ts.len() {
            assert(nts.take(k) =~= ts.take(k));
            assert(nts[k] == ts[k]);
        } else {
            assert(nts.take(k) =~= ts);
        }
    }
}

/// Every byte of the data is the same.
pub open spec fn one_byte_run(data: Seq<u8>) -> bool {
    forall|k: int| 0 <= k < data.len() ==> #[trigger] data[k] == data[0]
}

/// The smaller of two integers.
pub open spec fn min_int(a: int, b: int) -> int {
    if a <= b {
        a
    } else {
        b
    }
}

/// Bit strings of `n` bits have length `n`.
proof fn lemma_bits_len(v: nat, n: nat)
    ensures
        lsb_bits(v, n).len() == n,
        msb_bits(v, n).len() == n,
    decreases n,
{
    if n > 0 {
        lemma_bits_len(v / 2, (n - 1) as nat);
    }
}

/// Each byte is eight bits.
proof fn lemma_bytes_bits_len(bytes: Seq<u8>)
    ensures
        bytes_bits(bytes).len() == 8 * bytes.len(),
    decreases bytes.len(),
{
    if bytes.len() > 0 {
        lemma_bits_len(bytes[0] as nat, 8);
        lemma_bytes_bits_len(bytes.skip(1));
    }
}

/// A literal takes at most 9 bits.
proof fn lemma_literal_bits(b: u8)
    ensures
        token_bits(Token::Literal(b)).len() <= 9,
{
    lemma_bits_len(sym_code(b as nat), sym_len(b as nat));
}

/// A copy from one byte back takes at most 18 bits.
proof fn lemma_copy1_bits(len: u16)
    requires
        3 <= len <= 258,
    ensures
        token_bits(Token::Copy(len, 1)).len() <= 18,
{
    lemma_len_index(len as int);
    let li = len_index(len as int);
    lemma_len_table(li);
    lemma_dist_index_from(1, 29);
    let di = dist_index(1);
    if di > 0 {
        lemma_dist_table(di - 1);
        lemma_pow2_pos(dist_extra(di - 1));
    }
    assert(di == 0);
    lemma_dist_table(0);
    lemma_bits_len(sym_code((257 + li) as nat), sym_len((257 + li) as nat));
    lemma_bits_len((len - len_base(li)) as nat, len_extra(li));
    lemma_bits_len(di as nat, 5);
    lemma_bits_len((1 - dist_base(di)) as nat, dist_extra(di));
}

/// The bits of a token followed by more tokens.
proof fn lemma_tokens_bits_cons(t: Token, g: Seq<Token>)
    ensures
        tokens_bits(seq![t] + g) == token_bits(t) + tokens_bits(g),
{
    let s = seq![t] + g;
    assert(s[0] == t);
    assert(s.skip(1) =~= g);
}

/// In a run of one byte, the data at `i` repeats itself at any distance
/// up to `i`, as far as the data or the 258 bytes reach.
proof fn lemma_run_const(data: Seq<u8>, i: int, d: int, m: int)
    requires
        one_byte_run(data),
        1 <= d <= i,
        0 <= m <= 258,
        i + m <= data.len(),
    ensures
        run_from(data, i, d, m) == min_int(258, data.len() - i),
    decreases 258 - m,
{
    if m < 258 && i + m < data.len() {
        assert(data[i + m] == data[0]);
        assert(data[i + m - d] == data[0]);
        lemma_run_const(data, i, d, m + 1);
    }
}

/// In a run of one byte, no longer distance beats the match at distance 1.
proof fn lemma_best_const(data: Seq<u8>, i: int, d: int)
    requires
        one_byte_run(data),
        1 <= i < data.len(),
        2 <= d,
    ensures
        best_from(data, i, d, min_int(258, data.len() - i), 1) == (min_int(258, data.len() - i), 1int),
    decreases i + 1 - d,
{
    if d <= i && d <= WINDOW {
        lemma_run_const(data, i, d, 0);
        lemma_best_const(data, i, d + 1);
    }
}

/// In a run of one byte, the longest match after the first byte is at
/// distance 1 and reaches as far as it may.
proof fn lemma_best_match_const(data: Seq<u8>, i: int)
    requires
        one_byte_run(data),
        1 <= i < data.len(),
    ensures
        best_match(data, i) == (min_int(258, data.len() - i), 1int),
{
    lemma_run_const(data, i, 1, 0);
    lemma_best_const(data, i, 2);
}

/// In a run of one byte, the tokens after the first byte take at most 18
/// bits for each 258 bytes begun, and 9 bits a byte for under 3 bytes.
proof fn lemma_greedy_const_bits(data: Seq<u8>, i: int)
    requires
        one_byte_run(data),
        1 <= i <= data.len(),
    ensures
        tokens_bits(greedy_tokens(data, i)).len() <= 18 * ((data.len() - i + 257) / 258),
        data.len() - i < 3 ==> tokens_bits(greedy_tokens(data, i)).len() <= 9 * (data.len() - i),
    decreases data.len() - i,
{
    let n = data.len();
    if i < n {
        lemma_best_match_const(data, i);
        let m = min_int(258, n - i);
        if m >= 3 {
            let t = Token::Copy(m as u16, 1u16);
            assert(greedy_tokens(data, i) == seq![t] + greedy_tokens(data, i + m));
            lemma_tokens_bits_cons(t, greedy_tokens(data, i + m));
            lemma_copy1_bits(m as u16);
            lemma_greedy_const_bits(data, i + m);
            if i + m == n {
                assert(tokens_bits(greedy_tokens(data, i + m)).len() == 0);
            } else {
                assert(m == 258);
                assert((n - i + 257) / 258 == (n - (i + m) + 257) / 258 + 1);
            }
        } else {
            let t = Token::Literal(data[i]);
            assert(greedy_tokens(data, i) == seq![t] + greedy_tokens(data, i + 1));
            lemma_tokens_bits_cons(t, greedy_tokens(data, i + 1));
            lemma_literal_bits(data[i]);
            lemma_greedy_const_bits(data, i + 1);
        }
    } else {
        assert(greedy_tokens(data, i) == Seq::<Token>::empty());
    }
}

/// A run of one byte takes a literal and then at most 18 bits for each
/// 258 bytes begun: the block's bits number at most
/// `19 + 18 * ((n + 256) / 258)` for `n` bytes.
pub proof fn law_run_bits(data: Seq<u8>)
    requires
        one_byte_run(data),
    ensures
        block_bits(deflate_tokens(data)).len() <= 19 + 18 * ((data.len() + 256) / 258),
{
    lemma_bits_len(sym_code(256), sym_len(256));
    if data.len() > 0 {
        let t = Token::Literal(data[0]);
        assert(best_match(data, 0) == (0int, 0int));
        assert(deflate_tokens(data) == seq![t] + greedy_tokens(data, 1));
        lemma_tokens_bits_cons(t, greedy_tokens(data, 1));
        lemma_literal_bits(data[0]);
        lemma_greedy_const_bits(data, 1);
    } else {
        assert(deflate_tokens(data) == Seq::<Token>::empty());
    }
}

/// Compresses `data` into one final DEFLATE block of the fixed Huffman
/// codes: the greedy parse that takes, at each place, the longest repeat
/// (3 to 258 bytes, at most `WINDOW` bytes back, the nearest of equal
/// length) or else a literal. The bits are packed least significant first
/// and the last byte is filled with zero bits. Read back, the block gives
/// the data again; a run of one byte value takes at most 18 bits for each
/// 258 bytes begun, and a few bytes more.
pub fn deflate(data: &[u8]) -> (r: Vec<u8>)
    ensures
        inflate_fixed(bytes_bits(r@)) == Some(data@),
        exists|pad: nat|
            pad < 8 && bytes_bits(r@) == block_bits(deflate_tokens(data@)) + #[trigger] zeros(pad),
        one_byte_run(data@) ==> 8 * r@.len() <= 26 + 18 * ((data@.len() + 256) / 258),
{
    let mut bits: Vec<bool> = Vec::new();
    bits.push(true);
    bits.push(true);
    bits.push(false);
    let ghost mut ts: Seq<Token> = Seq::empty();
    let n = data.len();
    let mut i: usize = 0;
    assert(data@.take(0) =~= Seq::<u8>::empty());
    assert(bits@ =~= seq![true, true, false] + tokens_bits(ts));
    while i < n
        invariant
            i <= n == data@.len(),
            valid_tokens(ts),
            expand(ts) == data@.take(i as int),
            bits@ == seq![true, true, false] + tokens_bits(ts),
            ts + greedy_tokens(data@, i as int) == deflate_tokens(data@),
        decreases n - i,
    {
        let (len, dist) = longest_match(data, i);
        let t = if len >= 3 {
            Token::Copy(len, dist)
        } else {
            Token::Literal(data[i])
        };
        let step: usize = if len >= 3 {
            len as usize
        } else {
            1
        };
        push_token(&mut bits, t);
        proof {
            assert(ts.push(t) + greedy_tokens(data@, i + step) =~= ts + greedy_tokens(data@, i as int));
            lemma_deflate_step(data@, i as int, ts, t, step as int);
            lemma_tokens_bits_push(ts, t);
            ts = ts.push(t);
        }
        assert(bits@ =~= seq![true, true, false] + tokens_bits(ts));
        i = i + step;
    }
    push_symbol(&mut bits, 256);
    assert(bits@ =~= block_bits(ts));
    let r = pack_bits(&bits);
    proof {
        let pad = choose|pad: nat| pad < 8 && bytes_bits(r@) == bits@ + #[trigger] zeros(pad);
        law_block_roundtrip(ts, zeros(pad));
        assert(data@.take(n as int) =~= data@);
        assert(ts + greedy_tokens(data@, n as int) =~= ts);
        lemma_bytes_bits_len(r@);
        if one_byte_run(data@) {
            law_run_bits(data@);
        }
    }
    r
}

} // verus!
