//! The writer: appends the encoding of each token to a byte buffer.
use vstd::prelude::*;

use crate::integer::Int;
use crate::wire::{
    array_header, be_bytes, bin_header, enc_int, enc_token, ext_header, map_header, str_header,
    TokenModel,
};

verus! {

/// Relies on rmp::encode::write_nil: it appends the nil marker `0xc0`.
#[verifier::external_body]
fn put_nil(w: &mut Vec<u8>)
    ensures
        final(w)@ == old(w)@ + seq![0xc0u8],
{
    rmp::encode::write_nil(w).unwrap()
}

/// Relies on rmp::encode::write_bool: it appends `0xc3` for true and `0xc2` for false.
#[verifier::external_body]
fn put_bool(w: &mut Vec<u8>, v: bool)
    ensures
        final(w)@ == old(w)@ + enc_token(TokenModel::Bool(v)),
{
    rmp::encode::write_bool(w, v).unwrap()
}

/// Relies on rmp::encode::write_sint: it appends the narrowest encoding of `v`
/// (positive or negative fixint, else the smallest int or uint marker that holds it).
#[verifier::external_body]
fn put_sint(w: &mut Vec<u8>, v: i64)
    ensures
        final(w)@ == old(w)@ + enc_int(v as int),
{
    rmp::encode::write_sint(w, v).unwrap();
}

/// Relies on rmp::encode::write_uint: it appends the narrowest encoding of `v`
/// (positive fixint, else the smallest uint marker that holds it).
#[verifier::external_body]
fn put_uint(w: &mut Vec<u8>, v: u64)
    ensures
        final(w)@ == old(w)@ + enc_int(v as int),
{
    rmp::encode::write_uint(w, v).unwrap();
}

/// Relies on rmp::encode::write_str_len: it appends the fixstr, str8, str16 or
/// str32 header for `len` bytes.
#[verifier::external_body]
fn put_str_len(w: &mut Vec<u8>, len: u32)
    ensures
        final(w)@ == old(w)@ + str_header(len as nat),
{
    rmp::encode::write_str_len(w, len).unwrap();
}

/// Relies on rmp::encode::write_bin_len: it appends the bin8, bin16 or bin32
/// header for `len` bytes.
#[verifier::external_body]
fn put_bin_len(w: &mut Vec<u8>, len: u32)
    ensures
        final(w)@ == old(w)@ + bin_header(len as nat),
{
    rmp::encode::write_bin_len(w, len).unwrap();
}

/// Relies on rmp::encode::write_array_len: it appends the fixarray, array16 or
/// array32 header for `len` elements.
#[verifier::external_body]
fn put_array_len(w: &mut Vec<u8>, len: u32)
    ensures
        final(w)@ == old(w)@ + array_header(len as nat),
{
    rmp::encode::write_array_len(w, len).unwrap();
}

/// Relies on rmp::encode::write_map_len: it appends the fixmap, map16 or map32
/// header for `len` entries.
#[verifier::external_body]
fn put_map_len(w: &mut Vec<u8>, len: u32)
    ensures
        final(w)@ == old(w)@ + map_header(len as nat),
{
    rmp::encode::write_map_len(w, len).unwrap();
}

/// Relies on rmp::encode::write_ext_meta: it appends the fixext or ext8/16/32
/// marker for `len` data bytes, the length field where there is one, then `tag`.
#[verifier::external_body]
fn put_ext_meta(w: &mut Vec<u8>, len: u32, tag: i8)
    ensures
        final(w)@ == old(w)@ + ext_header(len as nat, tag),
{
    rmp::encode::write_ext_meta(w, len, tag).unwrap();
}

/// Appends the `n` low bytes of `x`, most significant first.
fn put_be(w: &mut Vec<u8>, x: u64, n: usize)
    ensures
        final(w)@ == old(w)@ + be_bytes(x as int, n as nat),
    decreases n,
{
    if n > 0 {
        put_be(w, x / 256, n - 1);
        w.push((x % 256) as u8);
        assert(final(w)@ =~= old(w)@ + be_bytes(x as int, n as nat));
    } else {
        assert(final(w)@ =~= old(w)@ + be_bytes(x as int, n as nat));
    }
}

/// Appends `data` byte by byte.
fn put_bytes(w: &mut Vec<u8>, data: &[u8])
    ensures
        final(w)@ == old(w)@ + data@,
{
    let ghost start = w@;
    let mut i: usize = 0;
    while i < data.len()
        invariant
            i <= data@.len(),
            w@ == start + data@.subrange(0, i as int),
        decreases data@.len() - i,
    {
        w.push(data[i]);
        i = i + 1;
        assert(w@ =~= start + data@.subrange(0, i as int));
    }
    assert(data@.subrange(0, i as int) =~= data@);
}

/// Holds the bytes written so far.
pub struct Serializer {
    w: Vec<u8>,
}

impl View for Serializer {
    type V = Seq<u8>;

    closed spec fn view(&self) -> Seq<u8> {
        self.w@
    }
}

impl Serializer {
    /// A writer with nothing written yet.
    pub fn new() -> (r: Serializer)
        ensures
            r@ == Seq::<u8>::empty(),
    {
        Serializer { w: Vec::new() }
    }

    /// The bytes written.
    pub fn into_inner(self) -> (r: Vec<u8>)
        ensures
            r@ == self@,
    {
        self.w
    }

    /// Writes the nil object.
    pub fn serialize_nil(&mut self)
        ensures
            final(self)@ == old(self)@ + enc_token(TokenModel::Nil),
    {
        put_nil(&mut self.w);
    }

    /// Writes a boolean.
    pub fn serialize_bool(&mut self, v: bool)
        ensures
            final(self)@ == old(self)@ + enc_token(TokenModel::Bool(v)),
    {
        put_bool(&mut self.w, v);
    }

    /// Writes an integer in the narrowest form that holds it.
    pub fn serialize_int(&mut self, v: Int)
        ensures
            final(self)@ == old(self)@ + enc_token(TokenModel::Int(v@)),
    {
        match v.try_into_i64() {
            Ok(i) => put_sint(&mut self.w, i),
            Err(_) => {
                v.lemma_range();
                let u = v.try_into_u64();
                match u {
                    Ok(u) => put_uint(&mut self.w, u),
                    Err(_) => {},
                }
            },
        }
    }

    /// Writes a 32-bit float given by its bit pattern.
    pub fn serialize_f32(&mut self, bits: u32)
        ensures
            final(self)@ == old(self)@ + enc_token(TokenModel::F32(bits)),
    {
        self.w.push(0xca);
        put_be(&mut self.w, bits as u64, 4);
        assert(final(self)@ =~= old(self)@ + enc_token(TokenModel::F32(bits)));
    }

    /// Writes a 64-bit float given by its bit pattern.
    pub fn serialize_f64(&mut self, bits: u64)
        ensures
            final(self)@ == old(self)@ + enc_token(TokenModel::F64(bits)),
    {
        self.w.push(0xcb);
        put_be(&mut self.w, bits, 8);
        assert(final(self)@ =~= old(self)@ + enc_token(TokenModel::F64(bits)));
    }

    /// Writes a string object holding `v`.
    pub fn serialize_str(&mut self, v: &[u8])
        requires
            v@.len() <= u32::MAX,
        ensures
            final(self)@ == old(self)@ + enc_token(TokenModel::Str(v@)),
    {
        put_str_len(&mut self.w, v.len() as u32);
        put_bytes(&mut self.w, v);
        assert(final(self)@ =~= old(self)@ + enc_token(TokenModel::Str(v@)));
    }

    /// Writes a binary object holding `v`.
    pub fn serialize_bin(&mut self, v: &[u8])
        requires
            v@.len() <= u32::MAX,
        ensures
            final(self)@ == old(self)@ + enc_token(TokenModel::Bin(v@)),
    {
        put_bin_len(&mut self.w, v.len() as u32);
        put_bytes(&mut self.w, v);
        assert(final(self)@ =~= old(self)@ + enc_token(TokenModel::Bin(v@)));
    }

    /// Writes the header of an array of `len` elements; the caller writes them next.
    pub fn serialize_array(&mut self, len: u32)
        ensures
            final(self)@ == old(self)@ + enc_token(TokenModel::Array(len as nat)),
    {
        put_array_len(&mut self.w, len);
    }

    /// Writes the header of a map of `len` entries; the caller writes the keys and
    /// values next, alternating.
    pub fn serialize_map(&mut self, len: u32)
        ensures
            final(self)@ == old(self)@ + enc_token(TokenModel::Pairs(len as nat)),
    {
        put_map_len(&mut self.w, len);
    }

    /// Writes an extension object of type `tag`.
    pub fn serialize_ext(&mut self, tag: i8, data: &[u8])
        requires
            data@.len() <= u32::MAX,
        ensures
            final(self)@ == old(self)@ + enc_token(TokenModel::Ext(tag, data@)),
    {
        put_ext_meta(&mut self.w, data.len() as u32, tag);
        put_bytes(&mut self.w, data);
        assert(final(self)@ =~= old(self)@ + enc_token(TokenModel::Ext(tag, data@)));
    }
}

} // verus!
