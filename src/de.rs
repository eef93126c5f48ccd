//! The reader: turns the bytes after a cursor into tokens, one at a time.
use vstd::prelude::*;
use vstd::slice::{slice_subrange, slice_to_vec};

use crate::integer::Int;
use crate::wire::{
    be_value, byte_i8, chunk, field, lemma_parse_token_len, lemma_pow256_values, parse_token,
    pow256, read_blob, read_count, read_ext, read_ext_data, read_sint, read_uint, signed,
    TokenModel,
};

verus! {

/// One wire-level token. `Array` and `Pairs` (a map) are headers: the elements,
/// or the keys and values alternating, follow as further tokens.
#[derive(Debug, PartialEq, Eq)]
pub enum Token {
    Nil,
    Bool(bool),
    Int(Int),
    F32(u32),
    F64(u64),
    Str(Vec<u8>),
    Bin(Vec<u8>),
    Array(u32),
    Pairs(u32),
    Ext { tag: i8, data: Vec<u8> },
}

impl View for Token {
    type V = TokenModel;

    open spec fn view(&self) -> TokenModel {
        match self {
            Token::Nil => TokenModel::Nil,
            Token::Bool(b) => TokenModel::Bool(*b),
            Token::Int(i) => TokenModel::Int(i@),
            Token::F32(b) => TokenModel::F32(*b),
            Token::F64(b) => TokenModel::F64(*b),
            Token::Str(d) => TokenModel::Str(d@),
            Token::Bin(d) => TokenModel::Bin(d@),
            Token::Array(n) => TokenModel::Array(*n as nat),
            Token::Pairs(n) => TokenModel::Pairs(*n as nat),
            Token::Ext { tag, data } => TokenModel::Ext(*tag, data@),
        }
    }
}

/// The input is not MessagePack: it ends inside an object, or holds the reserved
/// marker `0xc1`.
#[derive(Clone, Copy, Debug, PartialEq, Eq, Structural)]
pub struct InvalidInputError;

/// The input is MessagePack but does not have the shape the reading type asks for.
#[derive(Clone, Copy, Debug, PartialEq, Eq, Structural)]
pub enum ValidationError {
    /// An object of another kind than the one expected.
    InvalidType,
    /// An array whose length differs from the number of fields.
    InvalidLength,
    /// A struct field whose tag occurs twice in one map.
    DuplicatedField,
    /// A required struct field whose tag does not occur in the map.
    MissingField,
    /// An enum tag that names no variant of the expected shape, or an untagged
    /// enum whose variants all fail.
    UnknownVariant,
    /// An integer outside the range of the target type.
    IntegerOutOfRange,
    /// A string object that is not UTF-8 where text is expected.
    InvalidUtf8,
}

/// Every way reading a typed value can fail.
#[derive(Clone, Copy, Debug, PartialEq, Eq, Structural)]
pub enum DeserializeError {
    InvalidInput(InvalidInputError),
    Validation(ValidationError),
}

impl From<InvalidInputError> for DeserializeError {
    fn from(e: InvalidInputError) -> (r: DeserializeError)
        ensures
            r == DeserializeError::InvalidInput(e),
    {
        DeserializeError::InvalidInput(e)
    }
}

impl vstd::std_specs::convert::FromSpecImpl<InvalidInputError> for DeserializeError {
    open spec fn obeys_from_spec() -> bool {
        true
    }

    open spec fn from_spec(e: InvalidInputError) -> DeserializeError {
        DeserializeError::InvalidInput(e)
    }
}

impl From<ValidationError> for DeserializeError {
    fn from(e: ValidationError) -> (r: DeserializeError)
        ensures
            r == DeserializeError::Validation(e),
    {
        DeserializeError::Validation(e)
    }
}

impl vstd::std_specs::convert::FromSpecImpl<ValidationError> for DeserializeError {
    open spec fn obeys_from_spec() -> bool {
        true
    }

    open spec fn from_spec(e: ValidationError) -> DeserializeError {
        DeserializeError::Validation(e)
    }
}

/// Whether a token and its length agree with what `parse_token` reads.
pub open spec fn agrees(r: Option<(Token, usize)>, s: Option<(TokenModel, nat)>) -> bool {
    match s {
        None => r is None,
        Some((t, k)) => match r {
            Some((x, j)) => x@ == t && j == k,
            None => false,
        },
    }
}

/// A cursor over a byte slice.
#[derive(Clone, Copy)]
pub struct Deserializer<'a> {
    pub input: &'a [u8],
    pub pos: usize,
}

/// `256^a <= 256^b` for `a <= b`.
proof fn lemma_pow256_mono(a: nat, b: nat)
    requires
        a <= b,
    ensures
        1 <= pow256(a) <= pow256(b),
    decreases b,
{
    if a < b {
        lemma_pow256_mono(a, (b - 1) as nat);
    }
    lemma_pow256_pos(b);
}

proof fn lemma_pow256_pos(n: nat)
    ensures
        pow256(n) >= 1,
    decreases n,
{
    if n > 0 {
        lemma_pow256_pos((n - 1) as nat);
    }
}

impl<'a> Deserializer<'a> {
    /// The cursor lies within the input.
    pub open spec fn wf(&self) -> bool {
        self.pos <= self.input@.len() <= usize::MAX
    }

    /// The bytes not read yet.
    pub open spec fn rest(&self) -> Seq<u8> {
        self.input@.subrange(self.pos as int, self.input@.len() as int)
    }

    /// A cursor at the start of `r`.
    pub fn new(r: &'a [u8]) -> (d: Deserializer<'a>)
        ensures
            d.wf(),
            d.input@ == r@,
            d.pos == 0,
            d.rest() == r@,
    {
        let n = r.len();
        assert(r@.len() == n);
        let d = Deserializer { input: r, pos: 0 };
        assert(d.rest() =~= r@);
        d
    }

    /// The number of bytes not read yet.
    pub fn remaining(&self) -> (r: usize)
        requires
            self.wf(),
        ensures
            r == self.rest().len(),
            self.input@.len() <= usize::MAX,
    {
        self.input.len() - self.pos
    }

    /// The `n`-byte big-endian field at `at` bytes past the cursor.
    fn field_at(&self, at: usize, n: usize) -> (r: Option<u64>)
        requires
            self.wf(),
            at <= 2,
            n <= 8,
        ensures
            match field(self.rest(), at as nat, n as nat) {
                None => r is None,
                Some(v) => r is Some && r->0 as int == v,
            },
            r is Some ==> r->0 < pow256(n as nat),
    {
        let ghost s = self.rest();
        if n > self.input.len() - self.pos || at > self.input.len() - self.pos - n {
            return None;
        }
        let total = self.input.len();
        let start = self.pos + at;
        let mut acc: u64 = 0;
        let mut i: usize = 0;
        proof {
            lemma_pow256_values();
            lemma_pow256_mono(n as nat, 8);
        }
        while i < n
            invariant
                self.wf(),
                start + n <= total,
                total == self.input@.len(),
                i <= n <= 8,
                pow256(n as nat) <= pow256(8),
                pow256(8) == 0x1_0000_0000_0000_0000,
                acc as int == be_value(self.input@.subrange(start as int, start + i)),
                acc < pow256(i as nat),
            decreases n - i,
        {
            let b = self.input[start + i];
            let ghost prev = self.input@.subrange(start as int, start + i);
            let ghost next = self.input@.subrange(start as int, start + i + 1);
            assert(next.drop_last() =~= prev);
            proof {
                lemma_pow256_mono((i + 1) as nat, n as nat);
                let p = pow256(i as nat);
                assert(acc * 256 + b < 256 * p) by (nonlinear_arith)
                    requires
                        acc < p,
                        b < 256,
                ;
            }
            acc = acc * 256 + b as u64;
            i = i + 1;
        }
        assert(s.subrange(at as int, at + n) =~= self.input@.subrange(start as int, start + n));
        Some(acc)
    }

    /// The `len` bytes at `at` bytes past the cursor, copied.
    fn chunk_at(&self, at: usize, len: u64) -> (r: Option<Vec<u8>>)
        requires
            self.wf(),
        ensures
            match chunk(self.rest(), at as nat, len as int) {
                None => r is None,
                Some(d) => r is Some && r->0@ == d,
            },
    {
        let avail = self.input.len() - self.pos;
        if at > avail || len > (avail - at) as u64 {
            return None;
        }
        let start = self.pos + at;
        let end = start + len as usize;
        let part = slice_subrange(self.input, start, end);
        let v = slice_to_vec(part);
        assert(self.rest().subrange(at as int, at + len) =~= self.input@.subrange(
            start as int,
            end as int,
        ));
        Some(v)
    }

    fn next_uint(&self, n: usize) -> (r: Option<(Token, usize)>)
        requires
            self.wf(),
            1 <= n <= 8,
        ensures
            agrees(r, read_uint(self.rest(), n as nat)),
    {
        match self.field_at(1, n) {
            Some(v) => Some((Token::Int(Int::from_u64(v)), 1 + n)),
            None => None,
        }
    }

    fn next_sint(&self, n: usize) -> (r: Option<(Token, usize)>)
        requires
            self.wf(),
            n == 1 || n == 2 || n == 4 || n == 8,
        ensures
            agrees(r, read_sint(self.rest(), n as nat)),
    {
        proof {
            lemma_pow256_values();
        }
        match self.field_at(1, n) {
            Some(v) => {
                let full: i128 = if n == 1 {
                    0x100
                } else if n == 2 {
                    0x1_0000
                } else if n == 4 {
                    0x1_0000_0000
                } else {
                    0x1_0000_0000_0000_0000
                };
                let x: i128 = if v as i128 >= full / 2 {
                    v as i128 - full
                } else {
                    v as i128
                };
                assert(x == signed(v as int, n as nat));
                Some((Token::Int(Int::from_i64(x as i64)), 1 + n))
            },
            None => None,
        }
    }

    fn next_blob(&self, n: usize, bin: bool) -> (r: Option<(Token, usize)>)
        requires
            self.wf(),
            n == 1 || n == 2 || n == 4,
        ensures
            agrees(r, read_blob(self.rest(), n as nat, bin)),
    {
        proof {
            lemma_pow256_values();
        }
        match self.field_at(1, n) {
            Some(len) => match self.chunk_at(1 + n, len) {
                Some(d) => {
                    let k = 1 + n + d.len();
                    if bin {
                        Some((Token::Bin(d), k))
                    } else {
                        Some((Token::Str(d), k))
                    }
                },
                None => None,
            },
            None => None,
        }
    }

    fn next_ext_data(&self, at: usize, len: u64) -> (r: Option<(Token, usize)>)
        requires
            self.wf(),
            at <= 5,
        ensures
            agrees(r, read_ext_data(self.rest(), at as nat, len as int)),
    {
        if at >= self.input.len() - self.pos {
            return None;
        }
        let b = self.input[self.pos + at];
        let tag: i8 = if b >= 128 {
            (b as i16 - 256) as i8
        } else {
            b as i8
        };
        assert(tag == byte_i8(self.rest()[at as int]));
        match self.chunk_at(at + 1, len) {
            Some(d) => {
                let k = at + 1 + d.len();
                Some((Token::Ext { tag, data: d }, k))
            },
            None => None,
        }
    }

    fn next_ext(&self, n: usize) -> (r: Option<(Token, usize)>)
        requires
            self.wf(),
            n == 1 || n == 2 || n == 4,
        ensures
            agrees(r, read_ext(self.rest(), n as nat)),
    {
        match self.field_at(1, n) {
            Some(len) => self.next_ext_data(1 + n, len),
            None => None,
        }
    }

    fn next_count(&self, n: usize, map: bool) -> (r: Option<(Token, usize)>)
        requires
            self.wf(),
            n == 2 || n == 4,
        ensures
            agrees(r, read_count(self.rest(), n as nat, map)),
    {
        proof {
            lemma_pow256_values();
        }
        match self.field_at(1, n) {
            Some(c) => {
                if map {
                    Some((Token::Pairs(c as u32), 1 + n))
                } else {
                    Some((Token::Array(c as u32), 1 + n))
                }
            },
            None => None,
        }
    }
}

impl<'a> Deserializer<'a> {
    /// The token after the cursor and its length in bytes, without moving the cursor.
    pub fn peek_token(&self) -> (r: Option<(Token, usize)>)
        requires
            self.wf(),
        ensures
            agrees(r, parse_token(self.rest())),
    {
        reveal(parse_token);
        if self.pos >= self.input.len() {
            return None;
        }
        let m = self.input[self.pos];
        if m <= 0x7f {
            Some((Token::Int(Int::from_u64(m as u64)), 1))
        } else if m <= 0x8f {
            Some((Token::Pairs((m - 0x80) as u32), 1))
        } else if m <= 0x9f {
            Some((Token::Array((m - 0x90) as u32), 1))
        } else if m <= 0xbf {
            match self.chunk_at(1, (m - 0xa0) as u64) {
                Some(d) => {
                    let k = 1 + d.len();
                    Some((Token::Str(d), k))
                },
                None => None,
            }
        } else if m == 0xc0 {
            Some((Token::Nil, 1))
        } else if m == 0xc1 {
            None
        } else if m == 0xc2 {
            Some((Token::Bool(false), 1))
        } else if m == 0xc3 {
            Some((Token::Bool(true), 1))
        } else if m == 0xc4 {
            self.next_blob(1, true)
        } else if m == 0xc5 {
            self.next_blob(2, true)
        } else if m == 0xc6 {
            self.next_blob(4, true)
        } else if m == 0xc7 {
            self.next_ext(1)
        } else if m == 0xc8 {
            self.next_ext(2)
        } else if m == 0xc9 {
            self.next_ext(4)
        } else if m == 0xca {
            proof {
                lemma_pow256_values();
            }
            match self.field_at(1, 4) {
                Some(v) => Some((Token::F32(v as u32), 5)),
                None => None,
            }
        } else if m == 0xcb {
            match self.field_at(1, 8) {
                Some(v) => Some((Token::F64(v), 9)),
                None => None,
            }
        } else if m == 0xcc {
            self.next_uint(1)
        } else if m == 0xcd {
            self.next_uint(2)
        } else if m == 0xce {
            self.next_uint(4)
        } else if m == 0xcf {
            self.next_uint(8)
        } else if m == 0xd0 {
            self.next_sint(1)
        } else if m == 0xd1 {
            self.next_sint(2)
        } else if m == 0xd2 {
            self.next_sint(4)
        } else if m == 0xd3 {
            self.next_sint(8)
        } else if m == 0xd4 {
            self.next_ext_data(1, 1)
        } else if m == 0xd5 {
            self.next_ext_data(1, 2)
        } else if m == 0xd6 {
            self.next_ext_data(1, 4)
        } else if m == 0xd7 {
            self.next_ext_data(1, 8)
        } else if m == 0xd8 {
            self.next_ext_data(1, 16)
        } else if m == 0xd9 {
            self.next_blob(1, false)
        } else if m == 0xda {
            self.next_blob(2, false)
        } else if m == 0xdb {
            self.next_blob(4, false)
        } else if m == 0xdc {
            self.next_count(2, false)
        } else if m == 0xdd {
            self.next_count(4, false)
        } else if m == 0xde {
            self.next_count(2, true)
        } else if m == 0xdf {
            self.next_count(4, true)
        } else {
            Some((Token::Int(Int::from_i64(m as i64 - 0x100)), 1))
        }
    }

    /// Reads the token after the cursor and moves past it. Fails, leaving the
    /// cursor where it was, when the input ends inside the token or the marker is
    /// the reserved `0xc1`.
    pub fn deserialize_token(&mut self) -> (r: Result<Token, InvalidInputError>)
        requires
            old(self).wf(),
        ensures
            final(self).wf(),
            final(self).input == old(self).input,
            final(self).pos >= old(self).pos,
            match parse_token(old(self).rest()) {
                None => r is Err && final(self).pos == old(self).pos,
                Some((t, k)) => r is Ok && r->Ok_0@ == t && final(self).pos == old(self).pos + k,
            },
    {
        proof {
            lemma_parse_token_len(self.rest());
        }
        match self.peek_token() {
            Some((t, k)) => {
                self.pos = self.pos + k;
                Ok(t)
            },
            None => Err(InvalidInputError),
        }
    }
}

} // verus!
