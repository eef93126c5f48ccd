//! The MessagePack marker table: what bytes each token is written as, and how a
//! byte string is read back as a token.
use vstd::prelude::*;

verus! {

/// `256^n`.
pub open spec fn pow256(n: nat) -> int
    decreases n,
{
    if n == 0 {
        1
    } else {
        256 * pow256((n - 1) as nat)
    }
}

/// The `n` low bytes of `x`, most significant first.
pub open spec fn be_bytes(x: int, n: nat) -> Seq<u8>
    decreases n,
{
    if n == 0 {
        Seq::empty()
    } else {
        be_bytes(x / 256, (n - 1) as nat).push((x % 256) as u8)
    }
}

/// The unsigned integer whose big-endian bytes are `s`.
pub open spec fn be_value(s: Seq<u8>) -> int
    decreases s.len(),
{
    if s.len() == 0 {
        0
    } else {
        be_value(s.drop_last()) * 256 + s.last() as int
    }
}

/// The byte that holds `t` in two's complement.
pub open spec fn i8_byte(t: i8) -> u8 {
    if t < 0 {
        (t + 256) as u8
    } else {
        t as u8
    }
}

/// The `i8` whose two's-complement byte is `b`.
pub open spec fn byte_i8(b: u8) -> i8 {
    if b >= 128 {
        (b - 256) as i8
    } else {
        b as i8
    }
}

/// The signed integer that an `n`-byte two's-complement field holding `v` stands for.
pub open spec fn signed(v: int, n: nat) -> int {
    if v >= pow256(n) / 2 {
        v - pow256(n)
    } else {
        v
    }
}

/// One wire-level token, as a mathematical value. `Array` and `Pairs` (a map) carry only
/// the number of elements or entries that follow them.
pub enum TokenModel {
    Nil,
    Bool(bool),
    Int(int),
    F32(u32),
    F64(u64),
    Str(Seq<u8>),
    Bin(Seq<u8>),
    Array(nat),
    Pairs(nat),
    Ext(i8, Seq<u8>),
}

/// Lengths fit the 32-bit length fields and integers fit `-(2^63) ..= 2^64 - 1`.
pub open spec fn token_wf(t: TokenModel) -> bool {
    match t {
        TokenModel::Int(i) => -0x8000_0000_0000_0000 <= i <= 0xffff_ffff_ffff_ffff,
        TokenModel::Str(d) => d.len() <= u32::MAX,
        TokenModel::Bin(d) => d.len() <= u32::MAX,
        TokenModel::Array(n) => n <= u32::MAX,
        TokenModel::Pairs(n) => n <= u32::MAX,
        TokenModel::Ext(_, d) => d.len() <= u32::MAX,
        _ => true,
    }
}

/// The narrowest encoding of an integer.
pub open spec fn enc_int(i: int) -> Seq<u8> {
    if 0 <= i < 0x80 {
        seq![i as u8]
    } else if 0x80 <= i < 0x100 {
        seq![0xccu8, i as u8]
    } else if 0x100 <= i < 0x1_0000 {
        seq![0xcdu8] + be_bytes(i, 2)
    } else if 0x1_0000 <= i < 0x1_0000_0000 {
        seq![0xceu8] + be_bytes(i, 4)
    } else if i >= 0x1_0000_0000 {
        seq![0xcfu8] + be_bytes(i, 8)
    } else if -32 <= i {
        seq![(i + 0x100) as u8]
    } else if -0x80 <= i {
        seq![0xd0u8, (i + 0x100) as u8]
    } else if -0x8000 <= i {
        seq![0xd1u8] + be_bytes(i + 0x1_0000, 2)
    } else if -0x8000_0000 <= i {
        seq![0xd2u8] + be_bytes(i + 0x1_0000_0000, 4)
    } else {
        seq![0xd3u8] + be_bytes(i + 0x1_0000_0000_0000_0000, 8)
    }
}

/// The header of a string of `n` bytes.
pub open spec fn str_header(n: nat) -> Seq<u8> {
    if n < 32 {
        seq![(0xa0 + n) as u8]
    } else if n < 0x100 {
        seq![0xd9u8, n as u8]
    } else if n < 0x1_0000 {
        seq![0xdau8] + be_bytes(n as int, 2)
    } else {
        seq![0xdbu8] + be_bytes(n as int, 4)
    }
}

/// The header of a binary object of `n` bytes.
pub open spec fn bin_header(n: nat) -> Seq<u8> {
    if n < 0x100 {
        seq![0xc4u8, n as u8]
    } else if n < 0x1_0000 {
        seq![0xc5u8] + be_bytes(n as int, 2)
    } else {
        seq![0xc6u8] + be_bytes(n as int, 4)
    }
}

/// The header of an array of `n` elements.
pub open spec fn array_header(n: nat) -> Seq<u8> {
    if n < 16 {
        seq![(0x90 + n) as u8]
    } else if n < 0x1_0000 {
        seq![0xdcu8] + be_bytes(n as int, 2)
    } else {
        seq![0xddu8] + be_bytes(n as int, 4)
    }
}

/// The header of a map of `n` entries.
pub open spec fn map_header(n: nat) -> Seq<u8> {
    if n < 16 {
        seq![(0x80 + n) as u8]
    } else if n < 0x1_0000 {
        seq![0xdeu8] + be_bytes(n as int, 2)
    } else {
        seq![0xdfu8] + be_bytes(n as int, 4)
    }
}

/// The header of an extension object of type `tag` with `n` bytes of data,
/// the type byte included.
pub open spec fn ext_header(n: nat, tag: i8) -> Seq<u8> {
    if n == 1 {
        seq![0xd4u8, i8_byte(tag)]
    } else if n == 2 {
        seq![0xd5u8, i8_byte(tag)]
    } else if n == 4 {
        seq![0xd6u8, i8_byte(tag)]
    } else if n == 8 {
        seq![0xd7u8, i8_byte(tag)]
    } else if n == 16 {
        seq![0xd8u8, i8_byte(tag)]
    } else if n < 0x100 {
        seq![0xc7u8, n as u8, i8_byte(tag)]
    } else if n < 0x1_0000 {
        seq![0xc8u8] + be_bytes(n as int, 2) + seq![i8_byte(tag)]
    } else {
        seq![0xc9u8] + be_bytes(n as int, 4) + seq![i8_byte(tag)]
    }
}

/// The bytes a token is written as.
pub open spec fn enc_token(t: TokenModel) -> Seq<u8> {
    match t {
        TokenModel::Nil => seq![0xc0u8],
        TokenModel::Bool(b) => if b {
            seq![0xc3u8]
        } else {
            seq![0xc2u8]
        },
        TokenModel::Int(i) => enc_int(i),
        TokenModel::F32(bits) => seq![0xcau8] + be_bytes(bits as int, 4),
        TokenModel::F64(bits) => seq![0xcbu8] + be_bytes(bits as int, 8),
        TokenModel::Str(d) => str_header(d.len()) + d,
        TokenModel::Bin(d) => bin_header(d.len()) + d,
        TokenModel::Array(n) => array_header(n),
        TokenModel::Pairs(n) => map_header(n),
        TokenModel::Ext(tag, d) => ext_header(d.len(), tag) + d,
    }
}

/// The `n`-byte big-endian field of `s` at `at`, if `s` holds it.
pub open spec fn field(s: Seq<u8>, at: nat, n: nat) -> Option<int> {
    if at + n <= s.len() {
        Some(be_value(s.subrange(at as int, (at + n) as int)))
    } else {
        None
    }
}

/// The `len` bytes of `s` from `at`, if `s` holds them.
pub open spec fn chunk(s: Seq<u8>, at: nat, len: int) -> Option<Seq<u8>> {
    if 0 <= len && at + len <= s.len() {
        Some(s.subrange(at as int, at + len))
    } else {
        None
    }
}

/// An unsigned integer in the `n` bytes after the marker.
pub open spec fn read_uint(s: Seq<u8>, n: nat) -> Option<(TokenModel, nat)> {
    match field(s, 1, n) {
        Some(v) => Some((TokenModel::Int(v), 1 + n)),
        None => None,
    }
}

/// A signed integer in the `n` bytes after the marker.
pub open spec fn read_sint(s: Seq<u8>, n: nat) -> Option<(TokenModel, nat)> {
    match field(s, 1, n) {
        Some(v) => Some((TokenModel::Int(signed(v, n)), 1 + n)),
        None => None,
    }
}

/// A string (`bin` false) or binary object (`bin` true) whose length takes the
/// `n` bytes after the marker.
pub open spec fn read_blob(s: Seq<u8>, n: nat, bin: bool) -> Option<(TokenModel, nat)> {
    match field(s, 1, n) {
        Some(len) => match chunk(s, 1 + n, len) {
            Some(d) => Some(
                (if bin {
                    TokenModel::Bin(d)
                } else {
                    TokenModel::Str(d)
                }, (1 + n + len) as nat),
            ),
            None => None,
        },
        None => None,
    }
}

/// An extension object whose data length is given: the type byte follows the
/// marker at `at - 1`, and the data follows the type byte.
pub open spec fn read_ext_data(s: Seq<u8>, at: nat, len: int) -> Option<(TokenModel, nat)> {
    if at + 1 <= s.len() {
        match chunk(s, at + 1, len) {
            Some(d) => Some((TokenModel::Ext(byte_i8(s[at as int]), d), (at + 1 + len) as nat)),
            None => None,
        }
    } else {
        None
    }
}

/// An extension object whose length takes the `n` bytes after the marker.
pub open spec fn read_ext(s: Seq<u8>, n: nat) -> Option<(TokenModel, nat)> {
    match field(s, 1, n) {
        Some(len) => read_ext_data(s, 1 + n, len),
        None => None,
    }
}

/// An array (`map` false) or map (`map` true) header whose count takes the `n`
/// bytes after the marker.
pub open spec fn read_count(s: Seq<u8>, n: nat, map: bool) -> Option<(TokenModel, nat)> {
    match field(s, 1, n) {
        Some(c) => Some(
            (if map {
                TokenModel::Pairs(c as nat)
            } else {
                TokenModel::Array(c as nat)
            }, 1 + n),
        ),
        None => None,
    }
}

/// The token at the start of `s` and the number of bytes it takes, or `None`
/// when `s` is empty, starts with the reserved marker `0xc1`, or ends before the
/// token does.
#[verifier::opaque]
pub open spec fn parse_token(s: Seq<u8>) -> Option<(TokenModel, nat)> {
    if s.len() == 0 {
        None
    } else {
        let m = s[0];
        if m <= 0x7f {
            Some((TokenModel::Int(m as int), 1))
        } else if m <= 0x8f {
            Some((TokenModel::Pairs((m - 0x80) as nat), 1))
        } else if m <= 0x9f {
            Some((TokenModel::Array((m - 0x90) as nat), 1))
        } else if m <= 0xbf {
            match chunk(s, 1, m - 0xa0) {
                Some(d) => Some((TokenModel::Str(d), (1 + d.len()) as nat)),
                None => None,
            }
        } else if m == 0xc0 {
            Some((TokenModel::Nil, 1))
        } else if m == 0xc1 {
            None
        } else if m == 0xc2 {
            Some((TokenModel::Bool(false), 1))
        } else if m == 0xc3 {
            Some((TokenModel::Bool(true), 1))
        } else if m == 0xc4 {
            read_blob(s, 1, true)
        } else if m == 0xc5 {
            read_blob(s, 2, true)
        } else if m == 0xc6 {
            read_blob(s, 4, true)
        } else if m == 0xc7 {
            read_ext(s, 1)
        } else if m == 0xc8 {
            read_ext(s, 2)
        } else if m == 0xc9 {
            read_ext(s, 4)
        } else if m == 0xca {
            match field(s, 1, 4) {
                Some(v) => Some((TokenModel::F32(v as u32), 5)),
                None => None,
            }
        } else if m == 0xcb {
            match field(s, 1, 8) {
                Some(v) => Some((TokenModel::F64(v as u64), 9)),
                None => None,
            }
        } else if m == 0xcc {
            read_uint(s, 1)
        } else if m == 0xcd {
            read_uint(s, 2)
        } else if m == 0xce {
            read_uint(s, 4)
        } else if m == 0xcf {
            read_uint(s, 8)
        } else if m == 0xd0 {
            read_sint(s, 1)
        } else if m == 0xd1 {
            read_sint(s, 2)
        } else if m == 0xd2 {
            read_sint(s, 4)
        } else if m == 0xd3 {
            read_sint(s, 8)
        } else if m == 0xd4 {
            read_ext_data(s, 1, 1)
        } else if m == 0xd5 {
            read_ext_data(s, 1, 2)
        } else if m == 0xd6 {
            read_ext_data(s, 1, 4)
        } else if m == 0xd7 {
            read_ext_data(s, 1, 8)
        } else if m == 0xd8 {
            read_ext_data(s, 1, 16)
        } else if m == 0xd9 {
            read_blob(s, 1, false)
        } else if m == 0xda {
            read_blob(s, 2, false)
        } else if m == 0xdb {
            read_blob(s, 4, false)
        } else if m == 0xdc {
            read_count(s, 2, false)
        } else if m == 0xdd {
            read_count(s, 4, false)
        } else if m == 0xde {
            read_count(s, 2, true)
        } else if m == 0xdf {
            read_count(s, 4, true)
        } else {
            Some((TokenModel::Int(m - 0x100), 1))
        }
    }
}

pub proof fn lemma_pow256_values()
    ensures
        pow256(1) == 0x100,
        pow256(2) == 0x1_0000,
        pow256(4) == 0x1_0000_0000,
        pow256(8) == 0x1_0000_0000_0000_0000,
{
    reveal_with_fuel(pow256, 9);
}

/// `be_bytes` and `be_value` undo each other on integers that fit `n` bytes.
pub proof fn lemma_be_round_trip(x: int, n: nat)
    requires
        0 <= x < pow256(n),
    ensures
        be_bytes(x, n).len() == n,
        be_value(be_bytes(x, n)) == x,
    decreases n,
{
    if n > 0 {
        let p = pow256((n - 1) as nat);
        assert(0 <= x / 256 < p) by (nonlinear_arith)
            requires
                0 <= x < 256 * p,
        ;
        lemma_be_round_trip(x / 256, (n - 1) as nat);
        let b = be_bytes(x, n);
        assert(b.drop_last() =~= be_bytes(x / 256, (n - 1) as nat));
        assert(x == (x / 256) * 256 + x % 256) by (nonlinear_arith);
    }
}

/// One big-endian byte is the byte itself.
pub proof fn lemma_be_one(x: int)
    requires
        0 <= x < 256,
    ensures
        be_bytes(x, 1) == seq![x as u8],
{
    reveal_with_fuel(be_bytes, 2);
    assert(be_bytes(x, 1) =~= seq![x as u8]);
}

/// A big-endian field written after `pre` reads back as the integer written.
pub proof fn lemma_field_at(pre: Seq<u8>, x: int, n: nat, rest: Seq<u8>)
    requires
        0 <= x < pow256(n),
    ensures
        be_bytes(x, n).len() == n,
        field(pre + be_bytes(x, n) + rest, pre.len(), n) == Some(x),
{
    lemma_be_round_trip(x, n);
    let s = pre + be_bytes(x, n) + rest;
    assert(s.subrange(pre.len() as int, (pre.len() + n) as int) =~= be_bytes(x, n));
}

proof fn lemma_int_round_trip(i: int, rest: Seq<u8>)
    requires
        token_wf(TokenModel::Int(i)),
    ensures
        parse_token(enc_int(i) + rest) == Some((TokenModel::Int(i), enc_int(i).len())),
{
    reveal(parse_token);
    lemma_pow256_values();
    let e = enc_int(i);
    let s = e + rest;
    if 0 <= i < 0x80 {
    } else if 0x80 <= i < 0x100 {
        lemma_be_one(i);
        assert(e =~= seq![0xccu8] + be_bytes(i, 1));
        lemma_field_at(seq![0xccu8], i, 1, rest);
    } else if 0x100 <= i < 0x1_0000 {
        lemma_field_at(seq![0xcdu8], i, 2, rest);
    } else if 0x1_0000 <= i < 0x1_0000_0000 {
        lemma_field_at(seq![0xceu8], i, 4, rest);
    } else if i >= 0x1_0000_0000 {
        lemma_field_at(seq![0xcfu8], i, 8, rest);
    } else if -32 <= i {
    } else if -0x80 <= i {
        lemma_be_one(i + 0x100);
        assert(e =~= seq![0xd0u8] + be_bytes(i + 0x100, 1));
        lemma_field_at(seq![0xd0u8], i + 0x100, 1, rest);
    } else if -0x8000 <= i {
        lemma_field_at(seq![0xd1u8], i + 0x1_0000, 2, rest);
    } else if -0x8000_0000 <= i {
        lemma_field_at(seq![0xd2u8], i + 0x1_0000_0000, 4, rest);
    } else {
        lemma_field_at(seq![0xd3u8], i + 0x1_0000_0000_0000_0000, 8, rest);
    }
}

proof fn lemma_blob_round_trip(hdr: Seq<u8>, d: Seq<u8>, n: nat, rest: Seq<u8>)
    requires
        n > 0,
        hdr.len() == 1 + n,
        field(hdr + d + rest, 1, n) == Some(d.len() as int),
    ensures
        chunk(hdr + d + rest, 1 + n, d.len() as int) == Some(d),
{
    assert((hdr + d + rest).subrange(1 + n as int, 1 + n + d.len() as int) =~= d);
}

proof fn lemma_str_round_trip(d: Seq<u8>, bin: bool, rest: Seq<u8>)
    requires
        d.len() <= u32::MAX,
    ensures
        ({
            let t = if bin {
                TokenModel::Bin(d)
            } else {
                TokenModel::Str(d)
            };
            parse_token(enc_token(t) + rest) == Some((t, enc_token(t).len()))
        }),
{
    reveal(parse_token);
    lemma_pow256_values();
    let n = d.len();
    let t = if bin {
        TokenModel::Bin(d)
    } else {
        TokenModel::Str(d)
    };
    let h = if bin {
        bin_header(n)
    } else {
        str_header(n)
    };
    assert(enc_token(t) == h + d);
    if !bin && n < 32 {
        assert((h + d + rest).subrange(1, 1 + n as int) =~= d);
    } else {
        let k: nat = if n < 0x100 {
            1
        } else if n < 0x1_0000 {
            2
        } else {
            4
        };
        let m: u8 = if n < 0x100 {
            if bin {
                0xc4
            } else {
                0xd9
            }
        } else if n < 0x1_0000 {
            if bin {
                0xc5
            } else {
                0xda
            }
        } else {
            if bin {
                0xc6
            } else {
                0xdb
            }
        };
        if n < 0x100 {
            lemma_be_one(n as int);
        }
        assert(h =~= seq![m] + be_bytes(n as int, k));
        lemma_field_at(seq![m], n as int, k, d + rest);
        assert(h + d + rest =~= seq![m] + be_bytes(n as int, k) + (d + rest));
        lemma_blob_round_trip(h, d, k, rest);
    }
}

proof fn lemma_ext_round_trip(tag: i8, d: Seq<u8>, rest: Seq<u8>)
    requires
        d.len() <= u32::MAX,
    ensures
        parse_token(enc_token(TokenModel::Ext(tag, d)) + rest) == Some(
            (TokenModel::Ext(tag, d), enc_token(TokenModel::Ext(tag, d)).len()),
        ),
{
    reveal(parse_token);
    lemma_pow256_values();
    let n = d.len();
    let h = ext_header(n, tag);
    let s = h + d + rest;
    assert(enc_token(TokenModel::Ext(tag, d)) + rest =~= s);
    assert(s.subrange(h.len() as int, h.len() + n as int) =~= d);
    if n == 1 || n == 2 || n == 4 || n == 8 || n == 16 {
    } else if n < 0x100 {
        lemma_be_one(n as int);
        assert(h =~= seq![0xc7u8] + be_bytes(n as int, 1) + seq![i8_byte(tag)]);
        lemma_field_at(seq![0xc7u8], n as int, 1, seq![i8_byte(tag)] + d + rest);
        assert(s =~= seq![0xc7u8] + be_bytes(n as int, 1) + (seq![i8_byte(tag)] + d + rest));
    } else if n < 0x1_0000 {
        lemma_field_at(seq![0xc8u8], n as int, 2, seq![i8_byte(tag)] + d + rest);
        assert(s =~= seq![0xc8u8] + be_bytes(n as int, 2) + (seq![i8_byte(tag)] + d + rest));
    } else {
        lemma_field_at(seq![0xc9u8], n as int, 4, seq![i8_byte(tag)] + d + rest);
        assert(s =~= seq![0xc9u8] + be_bytes(n as int, 4) + (seq![i8_byte(tag)] + d + rest));
    }
}

proof fn lemma_count_round_trip(n: nat, map: bool, rest: Seq<u8>)
    requires
        n <= u32::MAX,
    ensures
        ({
            let t = if map {
                TokenModel::Pairs(n)
            } else {
                TokenModel::Array(n)
            };
            parse_token(enc_token(t) + rest) == Some((t, enc_token(t).len()))
        }),
{
    reveal(parse_token);
    lemma_pow256_values();
    if n < 16 {
    } else if n < 0x1_0000 {
        let m: u8 = if map {
            0xde
        } else {
            0xdc
        };
        lemma_field_at(seq![m], n as int, 2, rest);
    } else {
        let m: u8 = if map {
            0xdf
        } else {
            0xdd
        };
        lemma_field_at(seq![m], n as int, 4, rest);
    }
}

/// Reading a well-formed token back from its encoding, followed by anything,
/// gives the token and consumes exactly its encoding.
pub proof fn lemma_token_round_trip(t: TokenModel, rest: Seq<u8>)
    requires
        token_wf(t),
    ensures
        parse_token(enc_token(t) + rest) == Some((t, enc_token(t).len())),
{
    reveal(parse_token);
    lemma_pow256_values();
    match t {
        TokenModel::Int(i) => lemma_int_round_trip(i, rest),
        TokenModel::F32(b) => lemma_field_at(seq![0xcau8], b as int, 4, rest),
        TokenModel::F64(b) => lemma_field_at(seq![0xcbu8], b as int, 8, rest),
        TokenModel::Str(d) => lemma_str_round_trip(d, false, rest),
        TokenModel::Bin(d) => lemma_str_round_trip(d, true, rest),
        TokenModel::Array(n) => lemma_count_round_trip(n, false, rest),
        TokenModel::Pairs(n) => lemma_count_round_trip(n, true, rest),
        TokenModel::Ext(tag, d) => lemma_ext_round_trip(tag, d, rest),
        _ => {},
    }
}

/// A token read from `s` takes at least one byte and no more than `s` holds.
pub proof fn lemma_parse_token_len(s: Seq<u8>)
    ensures
        parse_token(s) matches Some((t, k)) ==> 1 <= k <= s.len(),
{
    reveal(parse_token);
}

} // verus!
