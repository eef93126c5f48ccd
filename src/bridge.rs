//! `Value` written as tokens and read back from them, and the reader that skips
//! one object of any shape.
use vstd::prelude::*;

use crate::de::{DeserializeError, Deserializer, InvalidInputError, Token};
use crate::ser::Serializer;
use crate::value::{
    enc_pairs, enc_value, enc_values, lemma_enc_pairs_push, lemma_enc_values_push,
    lemma_pair_views_index, lemma_pair_views_push, lemma_pairs_wf_index, lemma_values_wf_index,
    lemma_pairs_wf_all, lemma_values_wf_all, lemma_views_index, lemma_views_push, pair_views,
    parse_pairs, parse_value, parse_values, pairs_wf, value_wf, values_wf, views, Bin, Ext, Str,
    Value, ValueModel,
};
use crate::wire::{lemma_parse_token_len, parse_token, TokenModel};

verus! {

/// The number of objects a token opens beyond itself: the elements of an array,
/// the keys and values of a map, nothing for a scalar.
pub open spec fn children(t: TokenModel) -> nat {
    match t {
        TokenModel::Array(n) => n,
        TokenModel::Pairs(n) => 2 * n,
        _ => 0,
    }
}

/// The number of bytes that `count` objects take at the start of `s`, counted
/// token by token; `None` when `s` ends first or holds a reserved marker.
pub open spec fn skip_values(s: Seq<u8>, count: nat) -> Option<nat>
    decreases s.len(),
{
    if count == 0 {
        Some(0)
    } else {
        match parse_token(s) {
            None => None,
            Some((t, k)) => if k < 1 || k > s.len() {
                None
            } else {
                match skip_values(
                    s.subrange(k as int, s.len() as int),
                    (count - 1 + children(t)) as nat,
                ) {
                    Some(j) => Some(k + j),
                    None => None,
                }
            },
        }
    }
}

/// The number of bytes a reading took, if it succeeded.
pub open spec fn consumed<A>(o: Option<(A, nat)>) -> Option<nat> {
    match o {
        Some((_, k)) => Some(k),
        None => None,
    }
}

/// A value read from `s` takes at least one byte and no more than `s` holds.
pub proof fn lemma_parse_value_len(s: Seq<u8>)
    ensures
        parse_value(s) matches Some((m, k)) ==> 1 <= k <= s.len(),
    decreases s.len(), 0nat,
{
    lemma_parse_token_len(s);
    match parse_token(s) {
        None => {},
        Some((t, k)) => {
            if 1 <= k <= s.len() {
                let after = s.subrange(k as int, s.len() as int);
                match t {
                    TokenModel::Array(n) => lemma_parse_values_len(after, n),
                    TokenModel::Pairs(n) => lemma_parse_pairs_len(after, n),
                    _ => {},
                }
            }
        },
    }
}

/// Values read from `s` take no more than `s` holds.
pub proof fn lemma_parse_values_len(s: Seq<u8>, n: nat)
    ensures
        parse_values(s, n) matches Some((vs, k)) ==> k <= s.len(),
    decreases s.len(), 1nat, n,
{
    if n > 0 {
        lemma_parse_value_len(s);
        if let Some((v, k)) = parse_value(s) {
            if k <= s.len() {
                lemma_parse_values_len(s.subrange(k as int, s.len() as int), (n - 1) as nat);
            }
        }
    }
}

/// Pairs read from `s` take no more than `s` holds.
pub proof fn lemma_parse_pairs_len(s: Seq<u8>, n: nat)
    ensures
        parse_pairs(s, n) matches Some((ps, k)) ==> k <= s.len(),
    decreases s.len(), 1nat, n,
{
    if n > 0 {
        lemma_parse_value_len(s);
        if let Some((key, k)) = parse_value(s) {
            if k <= s.len() {
                let s1 = s.subrange(k as int, s.len() as int);
                lemma_parse_value_len(s1);
                if let Some((val, j)) = parse_value(s1) {
                    if j <= s1.len() {
                        lemma_parse_pairs_len(s1.subrange(j as int, s1.len() as int), (n - 1) as nat);
                    }
                }
            }
        }
    }
}

/// Reading `a + b` values takes as many bytes as reading `a` values and then
/// `b` more.
proof fn lemma_values_concat(s: Seq<u8>, a: nat, b: nat)
    ensures
        consumed(parse_values(s, a + b)) == match parse_values(s, a) {
            None => None,
            Some((_, j)) => match consumed(parse_values(s.subrange(j as int, s.len() as int), b)) {
                None => None,
                Some(l) => Some(j + l),
            },
        },
    decreases a,
{
    if a == 0 {
        assert(s.subrange(0, s.len() as int) =~= s);
    } else {
        match parse_value(s) {
            None => {},
            Some((v, k)) => {
                if k <= s.len() {
                    let s1 = s.subrange(k as int, s.len() as int);
                    lemma_parse_values_len(s1, (a - 1) as nat);
                    lemma_values_concat(s1, (a - 1) as nat, b);
                    assert((a + b - 1) as nat == (a - 1) as nat + b);
                    match parse_values(s1, (a - 1) as nat) {
                        None => {},
                        Some((_, j1)) => {
                            assert(s.subrange((k + j1) as int, s.len() as int) =~= s1.subrange(
                                j1 as int,
                                s1.len() as int,
                            ));
                        },
                    }
                }
            },
        }
    }
}

/// Reading `n` key-value pairs takes as many bytes as reading `2n` values.
proof fn lemma_pairs_as_values(s: Seq<u8>, n: nat)
    ensures
        consumed(parse_pairs(s, n)) == consumed(parse_values(s, 2 * n)),
    decreases n,
{
    reveal_with_fuel(parse_values, 3);
    if n > 0 {
        match parse_value(s) {
            None => {},
            Some((key, k)) => {
                if k <= s.len() {
                    let s1 = s.subrange(k as int, s.len() as int);
                    assert((2 * n - 1) as nat > 0);
                    match parse_value(s1) {
                        None => {},
                        Some((val, j)) => {
                            if j <= s1.len() {
                                let s2 = s1.subrange(j as int, s1.len() as int);
                                lemma_pairs_as_values(s2, (n - 1) as nat);
                                assert(((2 * n - 1) - 1) as nat == 2 * (n - 1) as nat);
                            }
                        },
                    }
                }
            },
        }
    }
}

/// Skipping `n` objects token by token takes exactly as many bytes as reading
/// `n` values.
pub proof fn lemma_skip_values(s: Seq<u8>, n: nat)
    ensures
        skip_values(s, n) == consumed(parse_values(s, n)),
    decreases s.len(),
{
    if n > 0 {
        lemma_parse_token_len(s);
        match parse_token(s) {
            None => {},
            Some((t, k)) => {
                let s1 = s.subrange(k as int, s.len() as int);
                let ch = children(t);
                lemma_skip_values(s1, (n - 1 + ch) as nat);
                lemma_values_concat(s1, ch, (n - 1) as nat);
                assert((n - 1 + ch) as nat == ch + (n - 1) as nat);
                match t {
                    TokenModel::Pairs(m) => {
                        lemma_pairs_as_values(s1, m);
                    },
                    TokenModel::Array(m) => {},
                    _ => {
                        assert(s1.subrange(0, s1.len() as int) =~= s1);
                    },
                }
                lemma_parse_value_len(s);
                lemma_parse_values_len(s1, ch);
                match parse_value(s) {
                    None => {},
                    Some((v, kv)) => {
                        assert(s.subrange(kv as int, s.len() as int) =~= s1.subrange(
                            (kv - k) as int,
                            s1.len() as int,
                        ));
                    },
                }
            },
        }
    }
}

/// The object that `deserialize_any` discards is exactly the value that
/// `deserialize_value` reads: it succeeds on the same inputs and takes the
/// same number of bytes.
pub proof fn lemma_skip_one_is_one_value(s: Seq<u8>)
    ensures
        skip_values(s, 1) == consumed(parse_value(s)),
{
    lemma_skip_values(s, 1);
    lemma_parse_value_len(s);
    match parse_value(s) {
        None => {},
        Some((v, k)) => {
            if k <= s.len() {
                assert(parse_values(s.subrange(k as int, s.len() as int), 0) == Some(
                    (Seq::<ValueModel>::empty(), 0nat),
                ));
            }
        },
    }
}

/// Whether `v` can be written: every length fits its 32-bit wire field.
pub(crate) fn encodable(v: &Value) -> (r: bool)
    ensures
        r == value_wf(v@),
    decreases v,
{
    match v {
        Value::Int(i) => {
            i.lemma_range();
            true
        },
        Value::Str(d) => d.0.len() as u64 <= 0xffff_ffff,
        Value::Bin(d) => d.0.len() as u64 <= 0xffff_ffff,
        Value::Ext(e) => e.data.len() as u64 <= 0xffff_ffff,
        Value::Array(items) => {
            proof {
                lemma_views_index(items@);
            }
            if items.len() as u64 > 0xffff_ffff {
                return false;
            }
            let mut i: usize = 0;
            while i < items.len()
                invariant
                    *v == Value::Array(*items),
                    v@ == ValueModel::Array(views(items@)),
                    i <= items@.len(),
                    views(items@).len() == items@.len(),
                    forall|j: int| 0 <= j < items@.len() ==> #[trigger] views(items@)[j] == items@[j]@,
                    forall|j: int| 0 <= j < i ==> #[trigger] value_wf(views(items@)[j]),
                decreases items@.len() - i,
            {
                assert(decreases_to!(*items => items[i as int]));
                assert(decreases_to!(*v => *items));
                if !encodable(&items[i]) {
                    proof {
                        if values_wf(views(items@)) {
                            lemma_values_wf_index(views(items@), i as int);
                        }
                    }
                    return false;
                }
                i = i + 1;
            }
            proof {
                lemma_values_wf_all(views(items@));
            }
            true
        },
        Value::Pairs(entries) => {
            proof {
                lemma_pair_views_index(entries@);
            }
            if entries.len() as u64 > 0xffff_ffff {
                return false;
            }
            let mut i: usize = 0;
            while i < entries.len()
                invariant
                    *v == Value::Pairs(*entries),
                    v@ == ValueModel::Pairs(pair_views(entries@)),
                    i <= entries@.len(),
                    pair_views(entries@).len() == entries@.len(),
                    forall|j: int|
                        0 <= j < entries@.len() ==> #[trigger] pair_views(entries@)[j] == (
                            entries@[j].0@,
                            entries@[j].1@,
                        ),
                    forall|j: int|
                        #![trigger pair_views(entries@)[j]]
                        0 <= j < i ==> value_wf(pair_views(entries@)[j].0) && value_wf(
                            pair_views(entries@)[j].1,
                        ),
                decreases entries@.len() - i,
            {
                assert(decreases_to!(*entries => entries[i as int]));
                assert(decreases_to!(*v => *entries));
                let entry = &entries[i];
                if !encodable(&entry.0) || !encodable(&entry.1) {
                    proof {
                        if pairs_wf(pair_views(entries@)) {
                            lemma_pairs_wf_index(pair_views(entries@), i as int);
                        }
                    }
                    return false;
                }
                i = i + 1;
            }
            proof {
                let ps = pair_views(entries@);
                lemma_pairs_wf_all(ps);
            }
            true
        },
        _ => true,
    }
}

impl Serializer {
    /// Writes a value: its head token, then its elements, or its keys and values
    /// alternating, in order, duplicates included.
    pub fn serialize_value(&mut self, v: &Value)
        requires
            value_wf(v@),
        ensures
            final(self)@ == old(self)@ + enc_value(v@),
        decreases v,
    {
        match v {
            Value::Nil => self.serialize_nil(),
            Value::Bool(b) => self.serialize_bool(*b),
            Value::Int(i) => self.serialize_int(*i),
            Value::F32(b) => self.serialize_f32(*b),
            Value::F64(b) => self.serialize_f64(*b),
            Value::Str(s) => self.serialize_str(s.0.as_slice()),
            Value::Bin(b) => self.serialize_bin(b.0.as_slice()),
            Value::Ext(e) => self.serialize_ext(e.tag, e.data.as_slice()),
            Value::Array(items) => {
                let ghost ms = views(items@);
                proof {
                    lemma_views_index(items@);
                }
                self.serialize_array(items.len() as u32);
                let ghost start = self@;
                let mut i: usize = 0;
                while i < items.len()
                    invariant
                        *v == Value::Array(*items),
                        v@ == ValueModel::Array(ms),
                        value_wf(v@),
                        ms.len() == items@.len(),
                        forall|j: int| 0 <= j < items@.len() ==> #[trigger] ms[j] == items@[j]@,
                        i <= items@.len(),
                        self@ == start + enc_values(ms.take(i as int)),
                    decreases items@.len() - i,
                {
                    proof {
                        lemma_values_wf_index(ms, i as int);
                        lemma_enc_values_push(ms.take(i as int), ms[i as int]);
                        assert(ms.take(i as int).push(ms[i as int]) =~= ms.take(i + 1));
                    }
                    assert(decreases_to!(*items => items[i as int]));
                    assert(decreases_to!(*v => *items));
                    self.serialize_value(&items[i]);
                    i = i + 1;
                }
                assert(ms.take(i as int) =~= ms);
            },
            Value::Pairs(entries) => {
                let ghost ps = pair_views(entries@);
                proof {
                    lemma_pair_views_index(entries@);
                }
                self.serialize_map(entries.len() as u32);
                let ghost start = self@;
                let mut i: usize = 0;
                while i < entries.len()
                    invariant
                        *v == Value::Pairs(*entries),
                        v@ == ValueModel::Pairs(ps),
                        value_wf(v@),
                        ps.len() == entries@.len(),
                        forall|j: int|
                            0 <= j < entries@.len() ==> #[trigger] ps[j] == (
                                entries@[j].0@,
                                entries@[j].1@,
                            ),
                        i <= entries@.len(),
                        self@ == start + enc_pairs(ps.take(i as int)),
                    decreases entries@.len() - i,
                {
                    proof {
                        lemma_pairs_wf_index(ps, i as int);
                        lemma_enc_pairs_push(ps.take(i as int), ps[i as int]);
                        assert(ps.take(i as int).push(ps[i as int]) =~= ps.take(i + 1));
                    }
                    let entry = &entries[i];
                    assert(decreases_to!(*entries => entries[i as int]));
                    assert(decreases_to!(*v => *entries));
                    self.serialize_value(&entry.0);
                    self.serialize_value(&entry.1);
                    i = i + 1;
                }
                assert(ps.take(i as int) =~= ps);
            },
        }
    }
}

impl<'a> Deserializer<'a> {
    /// Reads one value, pulling exactly as many objects as each header declares and
    /// keeping map entries in order, duplicate keys included. Fails with
    /// `InvalidInput` exactly when the bytes after the cursor do not start with a
    /// complete value.
    pub fn deserialize_value(&mut self) -> (r: Result<Value, DeserializeError>)
        requires
            old(self).wf(),
        ensures
            final(self).wf(),
            final(self).input == old(self).input,
            final(self).pos >= old(self).pos,
            match parse_value(old(self).rest()) {
                None => r == Err::<Value, DeserializeError>(
                    DeserializeError::InvalidInput(InvalidInputError),
                ),
                Some((m, k)) => r is Ok && r->Ok_0@ == m && final(self).pos == old(self).pos + k,
            },
        decreases old(self).rest().len(), 0nat,
    {
        let ghost s0 = self.rest();
        let ghost p0 = self.pos;
        proof {
            lemma_parse_token_len(s0);
        }
        let t = match self.deserialize_token() {
            Ok(t) => t,
            Err(e) => {
                return Err(DeserializeError::InvalidInput(e));
            },
        };
        let ghost k = (self.pos - p0) as nat;
        assert(self.rest() =~= s0.subrange(k as int, s0.len() as int));
        match t {
            Token::Nil => Ok(Value::Nil),
            Token::Bool(b) => Ok(Value::Bool(b)),
            Token::Int(i) => Ok(Value::Int(i)),
            Token::F32(b) => Ok(Value::F32(b)),
            Token::F64(b) => Ok(Value::F64(b)),
            Token::Str(d) => Ok(Value::Str(Str(d))),
            Token::Bin(d) => Ok(Value::Bin(Bin(d))),
            Token::Ext { tag, data } => Ok(Value::Ext(Ext { tag, data })),
            Token::Array(n) => {
                let items = self.deserialize_items(n)?;
                Ok(Value::Array(items))
            },
            Token::Pairs(n) => {
                let entries = self.deserialize_entries(n)?;
                Ok(Value::Pairs(entries))
            },
        }
    }

    /// Reads `n` values one after another.
    fn deserialize_items(&mut self, n: u32) -> (r: Result<Vec<Value>, DeserializeError>)
        requires
            old(self).wf(),
        ensures
            final(self).wf(),
            final(self).input == old(self).input,
            final(self).pos >= old(self).pos,
            match parse_values(old(self).rest(), n as nat) {
                None => r == Err::<Vec<Value>, DeserializeError>(
                    DeserializeError::InvalidInput(InvalidInputError),
                ),
                Some((ms, j)) => r is Ok && views(r->Ok_0@) == ms && final(self).pos == old(
                    self,
                ).pos + j,
            },
        decreases old(self).rest().len(), 1nat,
    {
        let ghost s0 = self.rest();
        let ghost p0 = self.pos;
        let mut items: Vec<Value> = Vec::new();
        let mut i: u32 = 0;
        while i < n
            invariant
                self.wf(),
                self.input == old(self).input,
                p0 == old(self).pos,
                s0 == old(self).rest(),
                self.pos >= p0,
                self.rest() == s0.subrange((self.pos - p0) as int, s0.len() as int),
                i <= n,
                parse_values(s0, n as nat) == match parse_values(self.rest(), (n - i) as nat) {
                    None => None,
                    Some((vs, j)) => Some((views(items@) + vs, (self.pos - p0 + j) as nat)),
                },
            decreases n - i,
        {
            let ghost cur = self.rest();
            let ghost pc = self.pos;
            let v = self.deserialize_value()?;
            proof {
                lemma_views_push(items@, v);
                let kk = (self.pos - pc) as nat;
                assert(self.rest() =~= cur.subrange(kk as int, cur.len() as int));
                assert(self.rest() =~= s0.subrange((self.pos - p0) as int, s0.len() as int));
                let tail = parse_values(self.rest(), (n - i - 1) as nat);
                if let Some((vs, j)) = tail {
                    assert(views(items@) + (seq![v@] + vs) =~= views(items@).push(v@) + vs);
                }
            }
            items.push(v);
            i = i + 1;
        }
        assert(views(items@) + Seq::<ValueModel>::empty() =~= views(items@));
        Ok(items)
    }

    /// Reads `n` key-value pairs, each key followed by its value.
    fn deserialize_entries(&mut self, n: u32) -> (r: Result<Vec<(Value, Value)>, DeserializeError>)
        requires
            old(self).wf(),
        ensures
            final(self).wf(),
            final(self).input == old(self).input,
            final(self).pos >= old(self).pos,
            match parse_pairs(old(self).rest(), n as nat) {
                None => r == Err::<Vec<(Value, Value)>, DeserializeError>(
                    DeserializeError::InvalidInput(InvalidInputError),
                ),
                Some((ps, j)) => r is Ok && pair_views(r->Ok_0@) == ps && final(self).pos == old(
                    self,
                ).pos + j,
            },
        decreases old(self).rest().len(), 1nat,
    {
        let ghost s0 = self.rest();
        let ghost p0 = self.pos;
        let mut entries: Vec<(Value, Value)> = Vec::new();
        let mut i: u32 = 0;
        while i < n
            invariant
                self.wf(),
                self.input == old(self).input,
                p0 == old(self).pos,
                s0 == old(self).rest(),
                self.pos >= p0,
                self.rest() == s0.subrange((self.pos - p0) as int, s0.len() as int),
                i <= n,
                parse_pairs(s0, n as nat) == match parse_pairs(self.rest(), (n - i) as nat) {
                    None => None,
                    Some((ps, j)) => Some((pair_views(entries@) + ps, (self.pos - p0 + j) as nat)),
                },
            decreases n - i,
        {
            let ghost cur = self.rest();
            let ghost pc = self.pos;
            let key = self.deserialize_value()?;
            let ghost cur1 = self.rest();
            let ghost pc1 = self.pos;
            assert(cur1 =~= cur.subrange((pc1 - pc) as int, cur.len() as int));
            let val = self.deserialize_value()?;
            proof {
                lemma_pair_views_push(entries@, (key, val));
                assert(self.rest() =~= cur1.subrange((self.pos - pc1) as int, cur1.len() as int));
                assert(self.rest() =~= s0.subrange((self.pos - p0) as int, s0.len() as int));
                let tail = parse_pairs(self.rest(), (n - i - 1) as nat);
                if let Some((ps, j)) = tail {
                    assert(pair_views(entries@) + (seq![(key@, val@)] + ps) =~= pair_views(
                        entries@,
                    ).push((key@, val@)) + ps);
                }
            }
            entries.push((key, val));
            i = i + 1;
        }
        assert(pair_views(entries@) + Seq::<(ValueModel, ValueModel)>::empty() =~= pair_views(
            entries@,
        ));
        Ok(entries)
    }

    /// Reads one object of any shape and discards it: a pending count starts at
    /// one, each token takes one from it and adds the objects it opens, until none
    /// is pending.
    pub fn deserialize_any(&mut self) -> (r: Result<(), DeserializeError>)
        requires
            old(self).wf(),
        ensures
            final(self).wf(),
            final(self).input == old(self).input,
            final(self).pos >= old(self).pos,
            match skip_values(old(self).rest(), 1) {
                None => r == Err::<(), DeserializeError>(
                    DeserializeError::InvalidInput(InvalidInputError),
                ),
                Some(k) => r is Ok && final(self).pos == old(self).pos + k,
            },
            match parse_value(old(self).rest()) {
                None => r is Err,
                Some((m, k)) => r is Ok && final(self).pos == old(self).pos + k,
            },
    {
        let ghost s0 = self.rest();
        let ghost p0 = self.pos;
        proof {
            lemma_skip_one_is_one_value(s0);
        }
        let mut count: u128 = 1;
        while count > 0
            invariant
                self.wf(),
                self.input == old(self).input,
                s0 == old(self).rest(),
                self.pos >= p0,
                p0 == old(self).pos,
                self.rest() == s0.subrange((self.pos - p0) as int, s0.len() as int),
                count <= 1 + (self.pos - p0) * 0x2_0000_0000,
                skip_values(s0, 1) == consumed(parse_value(s0)),
                self.pos <= usize::MAX,
                skip_values(s0, 1) == match skip_values(self.rest(), count as nat) {
                    None => None,
                    Some(j) => Some((self.pos - p0 + j) as nat),
                },
            decreases self.input@.len() - self.pos,
        {
            let ghost cur = self.rest();
            let ghost pc = self.pos;
            proof {
                lemma_parse_token_len(cur);
            }
            let t = match self.deserialize_token() {
                Ok(t) => t,
                Err(e) => {
                    return Err(DeserializeError::InvalidInput(e));
                },
            };
            proof {
                let kk = (self.pos - pc) as nat;
                assert(self.rest() =~= cur.subrange(kk as int, cur.len() as int));
                assert(self.rest() =~= s0.subrange((self.pos - p0) as int, s0.len() as int));
            }
            count = count - 1;
            match t {
                Token::Array(n) => {
                    count = count + n as u128;
                },
                Token::Pairs(n) => {
                    count = count + 2 * (n as u128);
                },
                _ => {},
            }
        }
        Ok(())
    }
}

} // verus!
