//! An integer that spans the union of the `i64` and `u64` domains.
use vstd::prelude::*;

verus! {

/// The smallest value an `Int` can hold, `-(2^63)`.
pub open spec fn int_min() -> int {
    -0x8000_0000_0000_0000
}

/// The largest value an `Int` can hold, `2^64 - 1`.
pub open spec fn int_max() -> int {
    0xffff_ffff_ffff_ffff
}

/// Whether `i` can be held by an `Int`.
pub open spec fn int_in_range(i: int) -> bool {
    int_min() <= i <= int_max()
}

/// The `i64` holding `i`, if there is one.
pub open spec fn to_i64(i: int) -> Option<i64> {
    if i64::MIN <= i <= i64::MAX {
        Some(i as i64)
    } else {
        None
    }
}

/// The `u64` holding `i`, if there is one.
pub open spec fn to_u64(i: int) -> Option<u64> {
    if 0 <= i <= u64::MAX {
        Some(i as u64)
    } else {
        None
    }
}

/// Integer ranging from `-(2^63)` to `(2^64)-1`.
///
/// When `sign` is false, `value` is the integer itself; when `sign` is true,
/// `value` is its two's-complement image, so bit 63 of `value` is set.
#[derive(Clone, Copy, Debug, PartialEq, Eq)]
pub struct Int {
    sign: bool,
    value: u64,
}

impl View for Int {
    type V = int;

    closed spec fn view(&self) -> int {
        if self.sign {
            self.value - 0x1_0000_0000_0000_0000
        } else {
            self.value as int
        }
    }
}

/// Error returned when an `Int` does not fit in the requested native type.
#[derive(Clone, Copy, Debug, PartialEq, Eq)]
pub struct TryFromIntError;

proof fn lemma_not_u64(v: u64)
    ensures
        !v == 0xffff_ffff_ffff_ffff - v,
{
    assert(!v == 0xffff_ffff_ffff_ffffu64 - v) by (bit_vector);
}

impl Int {
    #[verifier::type_invariant]
    closed spec fn inv(self) -> bool {
        self.sign ==> self.value >= 0x8000_0000_0000_0000
    }

    /// Every `Int` lies in `-(2^63) ..= 2^64 - 1`.
    pub fn lemma_range(&self)
        ensures
            int_in_range(self@),
    {
        proof {
            use_type_invariant(self);
        }
    }

    /// The integer `v`.
    pub fn from_u64(v: u64) -> (r: Int)
        ensures
            r@ == v as int,
    {
        Int { sign: false, value: v }
    }

    /// The integer `v`.
    pub fn from_i64(v: i64) -> (r: Int)
        ensures
            r@ == v as int,
    {
        if v >= 0 {
            Int { sign: false, value: v as u64 }
        } else {
            let m: u64 = (-(v + 1)) as u64;
            proof {
                lemma_not_u64(m);
            }
            Int { sign: true, value: !m }
        }
    }

    /// Whether the integer is below zero.
    pub fn is_negative(&self) -> (r: bool)
        ensures
            r == (self@ < 0),
    {
        proof {
            use_type_invariant(self);
        }
        self.sign
    }

    /// The integer as a `u64`, or an error when it is negative.
    pub fn try_into_u64(self) -> (r: Result<u64, TryFromIntError>)
        ensures
            r is Ok <==> to_u64(self@) is Some,
            r is Ok ==> Some(r->Ok_0) == to_u64(self@),
            r is Ok ==> r->Ok_0 as int == self@,
    {
        proof {
            use_type_invariant(&self);
        }
        if self.sign {
            Err(TryFromIntError)
        } else {
            Ok(self.value)
        }
    }

    /// The integer as a `u8`, or an error when it lies outside `u8`'s range.
    pub fn try_into_u8(self) -> (r: Result<u8, TryFromIntError>)
        ensures
            r is Ok <==> 0 <= self@ <= u8::MAX,
            r is Ok ==> r->Ok_0 as int == self@,
    {
        match self.try_into_u64() {
            Ok(v) => {
                if 0 as u64 <= v && v <= u8::MAX as u64 {
                    Ok(v as u8)
                } else {
                    Err(TryFromIntError)
                }
            },
            Err(e) => Err(e),
        }
    }

    /// The integer as a `u16`, or an error when it lies outside `u16`'s range.
    pub fn try_into_u16(self) -> (r: Result<u16, TryFromIntError>)
        ensures
            r is Ok <==> 0 <= self@ <= u16::MAX,
            r is Ok ==> r->Ok_0 as int == self@,
    {
        match self.try_into_u64() {
            Ok(v) => {
                if 0 as u64 <= v && v <= u16::MAX as u64 {
                    Ok(v as u16)
                } else {
                    Err(TryFromIntError)
                }
            },
            Err(e) => Err(e),
        }
    }

    /// The integer as a `u32`, or an error when it lies outside `u32`'s range.
    pub fn try_into_u32(self) -> (r: Result<u32, TryFromIntError>)
        ensures
            r is Ok <==> 0 <= self@ <= u32::MAX,
            r is Ok ==> r->Ok_0 as int == self@,
    {
        match self.try_into_u64() {
            Ok(v) => {
                if 0 as u64 <= v && v <= u32::MAX as u64 {
                    Ok(v as u32)
                } else {
                    Err(TryFromIntError)
                }
            },
            Err(e) => Err(e),
        }
    }

    /// The integer as a `usize`, or an error when it lies outside `usize`'s range.
    pub fn try_into_usize(self) -> (r: Result<usize, TryFromIntError>)
        ensures
            r is Ok <==> 0 <= self@ <= usize::MAX,
            r is Ok ==> r->Ok_0 as int == self@,
    {
        match self.try_into_u64() {
            Ok(v) => {
                if 0 as u64 <= v && v <= usize::MAX as u64 {
                    Ok(v as usize)
                } else {
                    Err(TryFromIntError)
                }
            },
            Err(e) => Err(e),
        }
    }

    /// The integer as a `i8`, or an error when it lies outside `i8`'s range.
    pub fn try_into_i8(self) -> (r: Result<i8, TryFromIntError>)
        ensures
            r is Ok <==> i8::MIN <= self@ <= i8::MAX,
            r is Ok ==> r->Ok_0 as int == self@,
    {
        match self.try_into_i64() {
            Ok(v) => {
                if i8::MIN as i64 <= v && v <= i8::MAX as i64 {
                    Ok(v as i8)
                } else {
                    Err(TryFromIntError)
                }
            },
            Err(e) => Err(e),
        }
    }

    /// The integer as a `i16`, or an error when it lies outside `i16`'s range.
    pub fn try_into_i16(self) -> (r: Result<i16, TryFromIntError>)
        ensures
            r is Ok <==> i16::MIN <= self@ <= i16::MAX,
            r is Ok ==> r->Ok_0 as int == self@,
    {
        match self.try_into_i64() {
            Ok(v) => {
                if i16::MIN as i64 <= v && v <= i16::MAX as i64 {
                    Ok(v as i16)
                } else {
                    Err(TryFromIntError)
                }
            },
            Err(e) => Err(e),
        }
    }

    /// The integer as a `i32`, or an error when it lies outside `i32`'s range.
    pub fn try_into_i32(self) -> (r: Result<i32, TryFromIntError>)
        ensures
            r is Ok <==> i32::MIN <= self@ <= i32::MAX,
            r is Ok ==> r->Ok_0 as int == self@,
    {
        match self.try_into_i64() {
            Ok(v) => {
                if i32::MIN as i64 <= v && v <= i32::MAX as i64 {
                    Ok(v as i32)
                } else {
                    Err(TryFromIntError)
                }
            },
            Err(e) => Err(e),
        }
    }

    /// The integer as a `isize`, or an error when it lies outside `isize`'s range.
    pub fn try_into_isize(self) -> (r: Result<isize, TryFromIntError>)
        ensures
            r is Ok <==> isize::MIN <= self@ <= isize::MAX,
            r is Ok ==> r->Ok_0 as int == self@,
    {
        match self.try_into_i64() {
            Ok(v) => {
                if isize::MIN as i64 <= v && v <= isize::MAX as i64 {
                    Ok(v as isize)
                } else {
                    Err(TryFromIntError)
                }
            },
            Err(e) => Err(e),
        }
    }

    /// The integer as an `i64`, or an error when it exceeds `i64::MAX`.
    pub fn try_into_i64(self) -> (r: Result<i64, TryFromIntError>)
        ensures
            r is Ok <==> to_i64(self@) is Some,
            r is Ok ==> Some(r->Ok_0) == to_i64(self@),
            r is Ok ==> r->Ok_0 as int == self@,
    {
        proof {
            use_type_invariant(&self);
        }
        if self.sign {
            proof {
                lemma_not_u64(self.value);
            }
            let m: u64 = !self.value;
            Ok(-(m as i64) - 1)
        } else if self.value <= 0x7fff_ffff_ffff_ffff {
            Ok(self.value as i64)
        } else {
            Err(TryFromIntError)
        }
    }
}

impl From<u8> for Int {
    fn from(v: u8) -> (r: Int)
        ensures
            r@ == v as int,
    {
        Int::from_u64(v as u64)
    }
}

impl vstd::std_specs::convert::FromSpecImpl<u8> for Int {
    open spec fn obeys_from_spec() -> bool {
        false
    }

    open spec fn from_spec(v: u8) -> Int {
        arbitrary()
    }
}

impl From<u16> for Int {
    fn from(v: u16) -> (r: Int)
        ensures
            r@ == v as int,
    {
        Int::from_u64(v as u64)
    }
}

impl vstd::std_specs::convert::FromSpecImpl<u16> for Int {
    open spec fn obeys_from_spec() -> bool {
        false
    }

    open spec fn from_spec(v: u16) -> Int {
        arbitrary()
    }
}

impl From<u32> for Int {
    fn from(v: u32) -> (r: Int)
        ensures
            r@ == v as int,
    {
        Int::from_u64(v as u64)
    }
}

impl vstd::std_specs::convert::FromSpecImpl<u32> for Int {
    open spec fn obeys_from_spec() -> bool {
        false
    }

    open spec fn from_spec(v: u32) -> Int {
        arbitrary()
    }
}

impl From<u64> for Int {
    fn from(v: u64) -> (r: Int)
        ensures
            r@ == v as int,
    {
        Int::from_u64(v as u64)
    }
}

impl vstd::std_specs::convert::FromSpecImpl<u64> for Int {
    open spec fn obeys_from_spec() -> bool {
        false
    }

    open spec fn from_spec(v: u64) -> Int {
        arbitrary()
    }
}

impl From<usize> for Int {
    fn from(v: usize) -> (r: Int)
        ensures
            r@ == v as int,
    {
        Int::from_u64(v as u64)
    }
}

impl vstd::std_specs::convert::FromSpecImpl<usize> for Int {
    open spec fn obeys_from_spec() -> bool {
        false
    }

    open spec fn from_spec(v: usize) -> Int {
        arbitrary()
    }
}

impl From<i8> for Int {
    fn from(v: i8) -> (r: Int)
        ensures
            r@ == v as int,
    {
        Int::from_i64(v as i64)
    }
}

impl vstd::std_specs::convert::FromSpecImpl<i8> for Int {
    open spec fn obeys_from_spec() -> bool {
        false
    }

    open spec fn from_spec(v: i8) -> Int {
        arbitrary()
    }
}

impl From<i16> for Int {
    fn from(v: i16) -> (r: Int)
        ensures
            r@ == v as int,
    {
        Int::from_i64(v as i64)
    }
}

impl vstd::std_specs::convert::FromSpecImpl<i16> for Int {
    open spec fn obeys_from_spec() -> bool {
        false
    }

    open spec fn from_spec(v: i16) -> Int {
        arbitrary()
    }
}

impl From<i32> for Int {
    fn from(v: i32) -> (r: Int)
        ensures
            r@ == v as int,
    {
        Int::from_i64(v as i64)
    }
}

impl vstd::std_specs::convert::FromSpecImpl<i32> for Int {
    open spec fn obeys_from_spec() -> bool {
        false
    }

    open spec fn from_spec(v: i32) -> Int {
        arbitrary()
    }
}

impl From<i64> for Int {
    fn from(v: i64) -> (r: Int)
        ensures
            r@ == v as int,
    {
        Int::from_i64(v as i64)
    }
}

impl vstd::std_specs::convert::FromSpecImpl<i64> for Int {
    open spec fn obeys_from_spec() -> bool {
        false
    }

    open spec fn from_spec(v: i64) -> Int {
        arbitrary()
    }
}

impl From<isize> for Int {
    fn from(v: isize) -> (r: Int)
        ensures
            r@ == v as int,
    {
        Int::from_i64(v as i64)
    }
}

impl vstd::std_specs::convert::FromSpecImpl<isize> for Int {
    open spec fn obeys_from_spec() -> bool {
        false
    }

    open spec fn from_spec(v: isize) -> Int {
        arbitrary()
    }
}

impl TryFrom<Int> for u8 {
    type Error = TryFromIntError;

    fn try_from(value: Int) -> (r: Result<u8, TryFromIntError>)
        ensures
            r is Ok <==> u8::MIN <= value@ <= u8::MAX,
            r is Ok ==> r->Ok_0 as int == value@,
    {
        value.try_into_u8()
    }
}

impl vstd::std_specs::convert::TryFromSpecImpl<Int> for u8 {
    open spec fn obeys_try_from_spec() -> bool {
        false
    }

    open spec fn try_from_spec(v: Int) -> Result<u8, TryFromIntError> {
        arbitrary()
    }
}

impl TryFrom<Int> for u16 {
    type Error = TryFromIntError;

    fn try_from(value: Int) -> (r: Result<u16, TryFromIntError>)
        ensures
            r is Ok <==> u16::MIN <= value@ <= u16::MAX,
            r is Ok ==> r->Ok_0 as int == value@,
    {
        value.try_into_u16()
    }
}

impl vstd::std_specs::convert::TryFromSpecImpl<Int> for u16 {
    open spec fn obeys_try_from_spec() -> bool {
        false
    }

    open spec fn try_from_spec(v: Int) -> Result<u16, TryFromIntError> {
        arbitrary()
    }
}

impl TryFrom<Int> for u32 {
    type Error = TryFromIntError;

    fn try_from(value: Int) -> (r: Result<u32, TryFromIntError>)
        ensures
            r is Ok <==> u32::MIN <= value@ <= u32::MAX,
            r is Ok ==> r->Ok_0 as int == value@,
    {
        value.try_into_u32()
    }
}

impl vstd::std_specs::convert::TryFromSpecImpl<Int> for u32 {
    open spec fn obeys_try_from_spec() -> bool {
        false
    }

    open spec fn try_from_spec(v: Int) -> Result<u32, TryFromIntError> {
        arbitrary()
    }
}

impl TryFrom<Int> for u64 {
    type Error = TryFromIntError;

    fn try_from(value: Int) -> (r: Result<u64, TryFromIntError>)
        ensures
            r is Ok <==> u64::MIN <= value@ <= u64::MAX,
            r is Ok ==> r->Ok_0 as int == value@,
    {
        value.try_into_u64()
    }
}

impl vstd::std_specs::convert::TryFromSpecImpl<Int> for u64 {
    open spec fn obeys_try_from_spec() -> bool {
        false
    }

    open spec fn try_from_spec(v: Int) -> Result<u64, TryFromIntError> {
        arbitrary()
    }
}

impl TryFrom<Int> for usize {
    type Error = TryFromIntError;

    fn try_from(value: Int) -> (r: Result<usize, TryFromIntError>)
        ensures
            r is Ok <==> usize::MIN <= value@ <= usize::MAX,
            r is Ok ==> r->Ok_0 as int == value@,
    {
        value.try_into_usize()
    }
}

impl vstd::std_specs::convert::TryFromSpecImpl<Int> for usize {
    open spec fn obeys_try_from_spec() -> bool {
        false
    }

    open spec fn try_from_spec(v: Int) -> Result<usize, TryFromIntError> {
        arbitrary()
    }
}

impl TryFrom<Int> for i8 {
    type Error = TryFromIntError;

    fn try_from(value: Int) -> (r: Result<i8, TryFromIntError>)
        ensures
            r is Ok <==> i8::MIN <= value@ <= i8::MAX,
            r is Ok ==> r->Ok_0 as int == value@,
    {
        value.try_into_i8()
    }
}

impl vstd::std_specs::convert::TryFromSpecImpl<Int> for i8 {
    open spec fn obeys_try_from_spec() -> bool {
        false
    }

    open spec fn try_from_spec(v: Int) -> Result<i8, TryFromIntError> {
        arbitrary()
    }
}

impl TryFrom<Int> for i16 {
    type Error = TryFromIntError;

    fn try_from(value: Int) -> (r: Result<i16, TryFromIntError>)
        ensures
            r is Ok <==> i16::MIN <= value@ <= i16::MAX,
            r is Ok ==> r->Ok_0 as int == value@,
    {
        value.try_into_i16()
    }
}

impl vstd::std_specs::convert::TryFromSpecImpl<Int> for i16 {
    open spec fn obeys_try_from_spec() -> bool {
        false
    }

    open spec fn try_from_spec(v: Int) -> Result<i16, TryFromIntError> {
        arbitrary()
    }
}

impl TryFrom<Int> for i32 {
    type Error = TryFromIntError;

    fn try_from(value: Int) -> (r: Result<i32, TryFromIntError>)
        ensures
            r is Ok <==> i32::MIN <= value@ <= i32::MAX,
            r is Ok ==> r->Ok_0 as int == value@,
    {
        value.try_into_i32()
    }
}

impl vstd::std_specs::convert::TryFromSpecImpl<Int> for i32 {
    open spec fn obeys_try_from_spec() -> bool {
        false
    }

    open spec fn try_from_spec(v: Int) -> Result<i32, TryFromIntError> {
        arbitrary()
    }
}

impl TryFrom<Int> for i64 {
    type Error = TryFromIntError;

    fn try_from(value: Int) -> (r: Result<i64, TryFromIntError>)
        ensures
            r is Ok <==> i64::MIN <= value@ <= i64::MAX,
            r is Ok ==> r->Ok_0 as int == value@,
    {
        value.try_into_i64()
    }
}

impl vstd::std_specs::convert::TryFromSpecImpl<Int> for i64 {
    open spec fn obeys_try_from_spec() -> bool {
        false
    }

    open spec fn try_from_spec(v: Int) -> Result<i64, TryFromIntError> {
        arbitrary()
    }
}

impl TryFrom<Int> for isize {
    type Error = TryFromIntError;

    fn try_from(value: Int) -> (r: Result<isize, TryFromIntError>)
        ensures
            r is Ok <==> isize::MIN <= value@ <= isize::MAX,
            r is Ok ==> r->Ok_0 as int == value@,
    {
        value.try_into_isize()
    }
}

impl vstd::std_specs::convert::TryFromSpecImpl<Int> for isize {
    open spec fn obeys_try_from_spec() -> bool {
        false
    }

    open spec fn try_from_spec(v: Int) -> Result<isize, TryFromIntError> {
        arbitrary()
    }
}

/// Converting any `i64` or `u64` to an `Int` and back through the same native
/// type gives the value started from (`from_i64` and `from_u64` keep the integer,
/// `try_into_i64` and `try_into_u64` give `to_i64` and `to_u64` of it); a value
/// outside the target's domain, such as `u64::MAX` into `i64`, is refused.
pub proof fn law_int_round_trip(x: i64, y: u64)
    ensures
        to_i64(x as int) == Some(x),
        to_u64(y as int) == Some(y),
        to_i64(u64::MAX as int) is None,
        to_u64(i64::MIN as int) is None,
{
}

} // verus!
