//! Standard Base64 (RFC 4648, section 4, with `=` padding) of a C string.

use vstd::prelude::*;
use base64::Engine;

verus! {

/// The byte for the 6-bit value `v` in the standard alphabet
/// `A-Z`, `a-z`, `0-9`, `+`, `/`.
pub open spec fn b64_symbol(v: int) -> u8 {
    if v < 26 {
        (65 + v) as u8
    } else if v < 52 {
        (71 + v) as u8
    } else if v < 62 {
        (v - 4) as u8
    } else if v == 62 {
        43u8
    } else {
        47u8
    }
}

/// The padding byte `=`.
pub open spec fn b64_pad() -> u8 {
    61u8
}

/// A byte that may appear in standard padded Base64 text.
pub open spec fn is_b64_byte(c: u8) -> bool {
    ||| 65 <= c <= 90
    ||| 97 <= c <= 122
    ||| 48 <= c <= 57
    ||| c == 43
    ||| c == 47
    ||| c == 61
}

/// The four output bytes of one group of one to three input bytes.
pub open spec fn encode_group(g: Seq<u8>) -> Seq<u8>
    recommends
        1 <= g.len() <= 3,
{
    let b1: int = if g.len() > 1 { g[1] as int } else { 0 };
    let b2: int = if g.len() > 2 { g[2] as int } else { 0 };
    let n: int = (g[0] as int) * 65536 + b1 * 256 + b2;
    seq![
        b64_symbol(n / 262144),
        b64_symbol((n / 4096) % 64),
        if g.len() > 1 { b64_symbol((n / 64) % 64) } else { b64_pad() },
        if g.len() > 2 { b64_symbol(n % 64) } else { b64_pad() },
    ]
}

/// Standard padded Base64 of `s`: each group of three bytes becomes four
/// symbols, and a final short group is padded with `=`.
pub open spec fn base64_encode(s: Seq<u8>) -> Seq<u8>
    decreases s.len(),
{
    if s.len() == 0 {
        seq![]
    } else if s.len() <= 3 {
        encode_group(s)
    } else {
        encode_group(s.take(3)) + base64_encode(s.skip(3))
    }
}

/// Length of the padded encoding of `n` bytes.
pub open spec fn encoded_len(n: nat) -> nat {
    4 * ((n + 2) / 3)
}

/// The bytes of `s` before its first NUL byte (all of `s` when it holds none):
/// what a C string reader sees of a buffer.
pub open spec fn until_nul(s: Seq<u8>) -> Seq<u8>
    decreases s.len(),
{
    if s.len() == 0 || s[0] == 0 {
        seq![]
    } else {
        seq![s[0]] + until_nul(s.drop_first())
    }
}

/// Calls `Engine::encode` of `base64::engine::general_purpose::STANDARD`
/// (`BASE64_STANDARD`): the standard alphabet of RFC 4648 with padding.
/// Trusted to return exactly `base64_encode` of the input, as bytes.
/// The crate panics when the output length overflows `usize`; that input is
/// excluded.
#[verifier::external_body]
fn standard_engine_encode(data: &[u8]) -> (res: Vec<u8>)
    requires
        encoded_len(data@.len()) <= usize::MAX,
    ensures
        res@ == base64_encode(data@),
{
    base64::engine::general_purpose::STANDARD.encode(data).into_bytes()
}

proof fn lemma_until_nul_take(s: Seq<u8>, i: int)
    requires
        0 <= i <= s.len(),
        forall|j: int| 0 <= j < i ==> s[j] != 0,
        i == s.len() || s[i] == 0,
    ensures
        until_nul(s) == s.take(i),
    decreases s.len(),
{
    if s.len() == 0 || s[0] == 0 {
        assert(s.take(i) =~= seq![]);
    } else {
        let t = s.drop_first();
        assert forall|j: int| 0 <= j < i - 1 implies t[j] != 0 by {
            assert(t[j] == s[j + 1]);
        }
        lemma_until_nul_take(t, i - 1);
        assert(s.take(i) =~= seq![s[0]] + t.take(i - 1));
    }
}

/// Base64-encodes the C string held in `data`: the bytes before the first NUL
/// (all of them when there is none) are encoded with the standard padded
/// alphabet. The result never holds a NUL byte, so it is itself a valid
/// C string with the same contents.
pub fn standard_b64encode(data: &[u8]) -> (res: Vec<u8>)
    requires
        data@.len() <= isize::MAX,
    ensures
        res@ == base64_encode(until_nul(data@)),
        res@.len() == encoded_len(until_nul(data@).len()),
        forall|k: int| 0 <= k < res@.len() ==> res@[k] != 0u8,
{
    let mut text: Vec<u8> = Vec::new();
    let mut i: usize = 0;
    while i < data.len() && data[i] != 0
        invariant
            i <= data@.len(),
            text@ == data@.take(i as int),
            forall|j: int| 0 <= j < i ==> data@[j] != 0,
        decreases data@.len() - i,
    {
        text.push(data[i]);
        i = i + 1;
        assert(text@ =~= data@.take(i as int));
    }
    proof {
        lemma_until_nul_take(data@, i as int);
        assert(encoded_len(text@.len()) <= usize::MAX);
    }
    let res = standard_engine_encode(text.as_slice());
    proof {
        lemma_encoded_len(text@);
        lemma_encoded_bytes(text@);
    }
    res
}

/// The padded encoding of `n` bytes is `4 * ceil(n / 3)` bytes long.
pub proof fn lemma_encoded_len(s: Seq<u8>)
    ensures
        base64_encode(s).len() == encoded_len(s.len()),
    decreases s.len(),
{
    if s.len() > 3 {
        lemma_encoded_len(s.skip(3));
    }
}

/// Every byte of an encoding is a symbol of the standard alphabet or `=`;
/// in particular none is NUL.
pub proof fn lemma_encoded_bytes(s: Seq<u8>)
    ensures
        forall|k: int| 0 <= k < base64_encode(s).len() ==> is_b64_byte(#[trigger] base64_encode(s)[k]),
        forall|k: int| 0 <= k < base64_encode(s).len() ==> #[trigger] base64_encode(s)[k] != 0u8,
    decreases s.len(),
{
    if s.len() == 0 {
    } else if s.len() <= 3 {
        lemma_group_bytes(s);
    } else {
        lemma_group_bytes(s.take(3));
        lemma_encoded_bytes(s.skip(3));
        let e = base64_encode(s);
        let g = encode_group(s.take(3));
        let r = base64_encode(s.skip(3));
        assert forall|k: int| 0 <= k < e.len() implies is_b64_byte(#[trigger] e[k]) by {
            if k < 4 {
                assert(e[k] == g[k]);
            } else {
                assert(e[k] == r[k - 4]);
            }
        }
    }
}

proof fn lemma_symbol(v: int)
    requires
        0 <= v < 64,
    ensures
        is_b64_byte(b64_symbol(v)),
        b64_symbol(v) != b64_pad(),
{
}

proof fn lemma_group_bytes(g: Seq<u8>)
    requires
        1 <= g.len() <= 3,
    ensures
        encode_group(g).len() == 4,
        forall|k: int| 0 <= k < 4 ==> is_b64_byte(#[trigger] encode_group(g)[k]),
{
    let b1: int = if g.len() > 1 { g[1] as int } else { 0 };
    let b2: int = if g.len() > 2 { g[2] as int } else { 0 };
    let n: int = (g[0] as int) * 65536 + b1 * 256 + b2;
    assert(0 <= n < 16777216);
    assert(0 <= n / 262144 < 64);
    lemma_symbol(n / 262144);
    lemma_symbol((n / 4096) % 64);
    lemma_symbol((n / 64) % 64);
    lemma_symbol(n % 64);
}

/// Encoding is compatible with concatenation at a group boundary: when the
/// length of `a` is a multiple of three, `a + b` encodes to the encoding of `a`
/// followed by that of `b`.
pub proof fn lemma_encode_concat(a: Seq<u8>, b: Seq<u8>)
    requires
        a.len() % 3 == 0,
    ensures
        base64_encode(a + b) == base64_encode(a) + base64_encode(b),
    decreases a.len(),
{
    if a.len() == 0 {
        assert(a + b =~= b);
        assert(base64_encode(a) =~= seq![]);
        assert(base64_encode(a) + base64_encode(b) =~= base64_encode(b));
    } else {
        let ab = a + b;
        assert(ab.take(3) =~= a.take(3));
        assert(ab.skip(3) =~= a.skip(3) + b);
        lemma_encode_concat(a.skip(3), b);
        if a.len() == 3 {
            assert(a.skip(3) =~= seq![]);
            assert(a.skip(3) + b =~= b);
            assert(a.take(3) =~= a);
            if b.len() == 0 {
                assert(ab =~= a);
                assert(base64_encode(b) =~= seq![]);
                assert(base64_encode(a) + base64_encode(b) =~= base64_encode(a));
            } else {
                assert(base64_encode(a) =~= encode_group(a));
            }
        } else {
            assert(base64_encode(a) == encode_group(a.take(3)) + base64_encode(a.skip(3)));
        }
        assert(base64_encode(ab) =~= base64_encode(a) + base64_encode(b));
    }
}

/// Encoding the bytes up to the first NUL changes nothing for input that holds
/// no NUL.
pub proof fn lemma_until_nul_identity(s: Seq<u8>)
    requires
        forall|k: int| 0 <= k < s.len() ==> s[k] != 0u8,
    ensures
        until_nul(s) == s,
{
    lemma_until_nul_take(s, s.len() as int);
    assert(s.take(s.len() as int) =~= s);
}

proof fn lemma_symbol_injective(u: int, v: int)
    requires
        0 <= u < 64,
        0 <= v < 64,
        b64_symbol(u) == b64_symbol(v),
    ensures
        u == v,
{
}

proof fn lemma_sixtets(n: int)
    requires
        0 <= n < 16777216,
    ensures
        n == 262144 * (n / 262144) + 4096 * ((n / 4096) % 64) + 64 * ((n / 64) % 64) + n % 64,
{
    assert(n == 262144 * (n / 262144) + 4096 * ((n / 4096) % 64) + 64 * ((n / 64) % 64) + n % 64)
        by (nonlinear_arith)
        requires
            0 <= n < 16777216,
    ;
}

proof fn lemma_group_value(g: Seq<u8>, n: int)
    requires
        1 <= g.len() <= 3,
        n == (g[0] as int) * 65536 + (if g.len() > 1 { g[1] as int } else { 0 }) * 256 + (if g.len()
            > 2 { g[2] as int } else { 0 }),
    ensures
        0 <= n < 16777216,
        g.len() == 1 ==> n % 4096 == 0,
        g.len() == 2 ==> n % 64 == 0,
        g[0] as int == n / 65536,
        g.len() > 1 ==> g[1] as int == (n / 256) % 256,
        g.len() > 2 ==> g[2] as int == n % 256,
{
    let b0 = g[0] as int;
    let b1: int = if g.len() > 1 { g[1] as int } else { 0 };
    let b2: int = if g.len() > 2 { g[2] as int } else { 0 };
    assert(0 <= b0 < 256 && 0 <= b1 < 256 && 0 <= b2 < 256);
    assert(b0 == n / 65536 && b1 == (n / 256) % 256 && b2 == n % 256) by (nonlinear_arith)
        requires
            0 <= b0 < 256,
            0 <= b1 < 256,
            0 <= b2 < 256,
            n == b0 * 65536 + b1 * 256 + b2,
    ;
    if g.len() == 1 {
        assert(n % 4096 == 0) by (nonlinear_arith)
            requires
                n == b0 * 65536,
        ;
    }
    if g.len() == 2 {
        assert(n % 64 == 0) by (nonlinear_arith)
            requires
                n == b0 * 65536 + b1 * 256,
        ;
    }
}

proof fn lemma_group_injective(g: Seq<u8>, h: Seq<u8>)
    requires
        1 <= g.len() <= 3,
        1 <= h.len() <= 3,
        encode_group(g) == encode_group(h),
    ensures
        g == h,
{
    let eg = encode_group(g);
    let eh = encode_group(h);
    lemma_group_bytes(g);
    lemma_group_bytes(h);
    let ng: int = (g[0] as int) * 65536 + (if g.len() > 1 { g[1] as int } else { 0 }) * 256 + (if g.len() > 2 {
        g[2] as int
    } else {
        0
    });
    let nh: int = (h[0] as int) * 65536 + (if h.len() > 1 { h[1] as int } else { 0 }) * 256 + (if h.len() > 2 {
        h[2] as int
    } else {
        0
    });
    lemma_group_value(g, ng);
    lemma_group_value(h, nh);
    lemma_sixtets(ng);
    lemma_sixtets(nh);
    assert(0 <= ng / 262144 < 64 && 0 <= nh / 262144 < 64);
    lemma_symbol(ng / 262144);
    lemma_symbol((ng / 4096) % 64);
    lemma_symbol((ng / 64) % 64);
    lemma_symbol(ng % 64);
    lemma_symbol(nh / 262144);
    lemma_symbol((nh / 4096) % 64);
    lemma_symbol((nh / 64) % 64);
    lemma_symbol(nh % 64);
    assert(eg[0] == eh[0] && eg[1] == eh[1] && eg[2] == eh[2] && eg[3] == eh[3]);
    assert(g.len() == h.len());
    lemma_symbol_injective(ng / 262144, nh / 262144);
    lemma_symbol_injective((ng / 4096) % 64, (nh / 4096) % 64);
    if g.len() > 1 {
        lemma_symbol_injective((ng / 64) % 64, (nh / 64) % 64);
    } else {
        assert((ng / 64) % 64 == 0 && (nh / 64) % 64 == 0) by (nonlinear_arith)
            requires
                ng % 4096 == 0,
                nh % 4096 == 0,
                0 <= ng,
                0 <= nh,
        ;
    }
    if g.len() > 2 {
        lemma_symbol_injective(ng % 64, nh % 64);
    } else {
        if g.len() == 1 {
            assert(ng % 64 == 0 && nh % 64 == 0) by (nonlinear_arith)
                requires
                    ng % 4096 == 0,
                    nh % 4096 == 0,
                    0 <= ng,
                    0 <= nh,
            ;
        }
    }
    assert(ng == nh);
    assert(g =~= h);
}

/// Encoding loses nothing: different byte strings have different encodings.
pub proof fn lemma_encode_injective(a: Seq<u8>, b: Seq<u8>)
    requires
        base64_encode(a) == base64_encode(b),
    ensures
        a == b,
    decreases a.len(),
{
    lemma_encoded_len(a);
    lemma_encoded_len(b);
    if a.len() == 0 || b.len() == 0 {
        assert(a.len() == 0 && b.len() == 0);
        assert(a =~= b);
    } else if a.len() <= 3 || b.len() <= 3 {
        assert(a.len() <= 3 && b.len() <= 3);
        lemma_group_injective(a, b);
    } else {
        let ea = base64_encode(a);
        let ga = encode_group(a.take(3));
        let gb = encode_group(b.take(3));
        let ra = base64_encode(a.skip(3));
        let rb = base64_encode(b.skip(3));
        lemma_group_bytes(a.take(3));
        lemma_group_bytes(b.take(3));
        assert(ga =~= ea.take(4));
        assert(gb =~= ea.take(4));
        assert(ra =~= ea.skip(4));
        assert(rb =~= ea.skip(4));
        lemma_group_injective(a.take(3), b.take(3));
        lemma_encode_injective(a.skip(3), b.skip(3));
        assert(a =~= a.take(3) + a.skip(3));
        assert(b =~= b.take(3) + b.skip(3));
    }
}

/// The bytes before the first NUL are a prefix of the input that holds no NUL
/// and ends at a NUL or at the end of the input.
pub proof fn lemma_until_nul_shape(s: Seq<u8>)
    ensures
        until_nul(s).len() <= s.len(),
        until_nul(s) == s.take(until_nul(s).len() as int),
        forall|k: int| 0 <= k < until_nul(s).len() ==> #[trigger] until_nul(s)[k] != 0u8,
        until_nul(s).len() == s.len() || s[until_nul(s).len() as int] == 0u8,
    decreases s.len(),
{
    if s.len() > 0 && s[0] != 0 {
        let t = s.drop_first();
        lemma_until_nul_shape(t);
        let u = until_nul(t);
        assert(until_nul(s) == seq![s[0]] + u);
        assert(seq![s[0]] + u =~= s.take(u.len() + 1int)) by {
            assert forall|k: int| 0 <= k < u.len() + 1 implies (seq![s[0]] + u)[k] == s[k] by {
                if k > 0 {
                    assert(u[k - 1] == t.take(u.len() as int)[k - 1]);
                }
            }
        }
        if u.len() < t.len() {
            assert(s[u.len() + 1int] == t[u.len() as int]);
        }
    } else {
        assert(s.take(0) =~= seq![]);
    }
}

/// The index of `c` in the standard alphabet
/// `ABCDEFGHIJKLMNOPQRSTUVWXYZabcdefghijklmnopqrstuvwxyz0123456789+/`.
pub open spec fn alphabet_index(c: u8) -> int {
    if 65 <= c <= 90 {
        c - 65
    } else if 97 <= c <= 122 {
        c - 71
    } else if 48 <= c <= 57 {
        c + 4
    } else if c == 43 {
        62
    } else {
        63
    }
}

/// Each group of three bytes becomes four symbols that carry, most
/// significant bits first, the six bits of each quarter of the group: the
/// top six bits of the first byte; its low two bits and the top four of the
/// second; the low four of the second and the top two of the third; the low
/// six of the third. A group of one or two bytes is read with zero bytes after
/// it and the symbols that carry no input bits are `=`.
pub proof fn lemma_group_bits(g: Seq<u8>)
    requires
        1 <= g.len() <= 3,
    ensures
        ({
            let e = encode_group(g);
            let b0 = g[0] as int;
            let b1: int = if g.len() > 1 { g[1] as int } else { 0 };
            let b2: int = if g.len() > 2 { g[2] as int } else { 0 };
            &&& e.len() == 4
            &&& e[0] != b64_pad() && alphabet_index(e[0]) == b0 / 4
            &&& e[1] != b64_pad() && alphabet_index(e[1]) == (b0 % 4) * 16 + b1 / 16
            &&& (g.len() > 1 ==> e[2] != b64_pad() && alphabet_index(e[2]) == (b1 % 16) * 4 + b2 / 64)
            &&& (g.len() == 1 ==> e[2] == b64_pad())
            &&& (g.len() > 2 ==> e[3] != b64_pad() && alphabet_index(e[3]) == b2 % 64)
            &&& (g.len() <= 2 ==> e[3] == b64_pad())
        }),
{
    let b0 = g[0] as int;
    let b1: int = if g.len() > 1 { g[1] as int } else { 0 };
    let b2: int = if g.len() > 2 { g[2] as int } else { 0 };
    let n: int = b0 * 65536 + b1 * 256 + b2;
    lemma_group_value(g, n);
    assert(n / 262144 == b0 / 4 && (n / 4096) % 64 == (b0 % 4) * 16 + b1 / 16 && (n / 64) % 64 == (b1 % 16) * 4
        + b2 / 64 && n % 64 == b2 % 64) by (nonlinear_arith)
        requires
            0 <= b0 < 256,
            0 <= b1 < 256,
            0 <= b2 < 256,
            n == b0 * 65536 + b1 * 256 + b2,
    ;
    lemma_symbol_index(n / 262144);
    lemma_symbol_index((n / 4096) % 64);
    lemma_symbol_index((n / 64) % 64);
    lemma_symbol_index(n % 64);
}

proof fn lemma_symbol_index(v: int)
    requires
        0 <= v < 64,
    ensures
        alphabet_index(b64_symbol(v)) == v,
        b64_symbol(v) != b64_pad(),
{
}

/// The standard alphabet, spelled out: `alphabet_index` gives the position of
/// each of its symbols in
/// `ABCDEFGHIJKLMNOPQRSTUVWXYZabcdefghijklmnopqrstuvwxyz0123456789+/`.
pub proof fn lemma_alphabet(k: int)
    requires
        0 <= k < 64,
    ensures
        alphabet_index(
            "ABCDEFGHIJKLMNOPQRSTUVWXYZabcdefghijklmnopqrstuvwxyz0123456789+/"@[k] as u8,
        ) == k,
        b64_symbol(k) == "ABCDEFGHIJKLMNOPQRSTUVWXYZabcdefghijklmnopqrstuvwxyz0123456789+/"@[k] as u8,
{
    reveal_strlit("ABCDEFGHIJKLMNOPQRSTUVWXYZabcdefghijklmnopqrstuvwxyz0123456789+/");
}

} // verus!
