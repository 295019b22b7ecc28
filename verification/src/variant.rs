use crate::error::{Error, ErrorKind};
use crate::cast::{
    be_value, lemma_be_value_leading_zeros, lemma_be_value_range, lemma_pow256_8, number_of, pow256,
};
use crate::slice::Slice;
use vstd::prelude::*;

verus! {

/// `bytes` without the zeros in front.
pub open spec fn strip(bytes: Seq<u8>) -> Seq<u8>
    decreases bytes.len(),
{
    if bytes.len() > 0 && bytes[0] == 0 {
        strip(bytes.skip(1))
    } else {
        bytes
    }
}

/// Bytes without the zeros in front spell the same number, and begin with another byte
/// than zero where any is left.
pub proof fn lemma_strip(bytes: Seq<u8>)
    ensures
        be_value(strip(bytes)) == be_value(bytes),
        strip(bytes).len() > 0 ==> strip(bytes)[0] != 0,
        strip(bytes).len() <= bytes.len(),
        strip(bytes) == bytes.skip(bytes.len() - strip(bytes).len()),
        forall|i: int| 0 <= i < bytes.len() - strip(bytes).len() ==> bytes[i] == 0,
    decreases bytes.len(),
{
    if bytes.len() > 0 && bytes[0] == 0 {
        let rest = bytes.skip(1);
        lemma_strip(rest);
        lemma_be_value_leading_zeros(bytes, 1);
        assert(rest.skip(rest.len() - strip(rest).len()) =~= bytes.skip(
            bytes.len() - strip(bytes).len(),
        ));
        assert forall|i: int| 0 <= i < bytes.len() - strip(bytes).len() implies bytes[i] == 0 by {
            if i > 0 {
                assert(rest[i - 1] == bytes[i]);
            }
        }
    } else {
        assert(bytes.skip(0) =~= bytes);
    }
}

/// An integer of any size: its sign, and its magnitude as bytes, the most significant
/// first. The magnitude has no zero in front, and zero has no sign, so that two of these
/// are the same integer only if they are the same in every part.
#[derive(Debug, PartialEq)]
pub struct BigInt {
    negative: bool,
    magnitude: Vec<u8>,
}

impl BigInt {
    #[verifier::type_invariant]
    closed spec fn inv(&self) -> bool {
        &&& self.magnitude@.len() > 0 ==> self.magnitude@[0] != 0
        &&& self.magnitude@.len() == 0 ==> !self.negative
    }

    /// Whether the integer is below zero.
    pub closed spec fn spec_negative(&self) -> bool {
        self.negative
    }

    /// The bytes of the magnitude.
    pub closed spec fn spec_magnitude(&self) -> Seq<u8> {
        self.magnitude@
    }

    /// The integer.
    pub open spec fn value(&self) -> int {
        if self.spec_negative() {
            -(be_value(self.spec_magnitude()) as int)
        } else {
            be_value(self.spec_magnitude()) as int
        }
    }

    /// The integer with the given sign and magnitude. Zeros in front of the magnitude are
    /// dropped, and so is the sign of zero.
    pub fn new(negative: bool, magnitude: Vec<u8>) -> (b: BigInt)
        ensures
            b.spec_magnitude() == strip(magnitude@),
            b.spec_negative() == (negative && strip(magnitude@).len() > 0),
            b.value() == (if negative {
                -(be_value(magnitude@) as int)
            } else {
                be_value(magnitude@) as int
            }),
    {
        let mut magnitude = magnitude;
        let ghost given = magnitude@;
        let mut zeros: usize = 0;
        assert(given.skip(0) =~= given);
        while zeros < magnitude.len() && magnitude[zeros] == 0
            invariant
                zeros <= magnitude@.len(),
                magnitude@ == given,
                strip(given) == strip(given.skip(zeros as int)),
            decreases magnitude@.len() - zeros,
        {
            assert(given.skip(zeros as int).skip(1) =~= given.skip(zeros + 1));
            zeros = zeros + 1;
        }
        proof {
            assert(given.skip(0) =~= given);
            lemma_strip(given);
            let rest = given.skip(zeros as int);
            if rest.len() > 0 {
                assert(rest[0] == given[zeros as int]);
            }
            assert(strip(rest) == rest);
            lemma_be_value_range(Seq::<u8>::empty());
        }
        let rest = magnitude.split_off(zeros);
        assert(rest@ =~= given.skip(zeros as int));
        let negative = negative && rest.len() > 0;
        BigInt { negative, magnitude: rest }
    }

    pub fn is_negative(&self) -> (b: bool)
        ensures
            b == self.spec_negative(),
    {
        self.negative
    }

    pub fn magnitude(&self) -> (r: &[u8])
        ensures
            r@ == self.spec_magnitude(),
    {
        self.magnitude.as_slice()
    }

    /// The magnitude, where 64 bits hold it.
    pub fn magnitude_u64(&self) -> (r: Option<u64>)
        ensures
            r == (if be_value(self.spec_magnitude()) <= u64::MAX {
                Some(be_value(self.spec_magnitude()) as u64)
            } else {
                None
            }),
            self.spec_magnitude().len() == 0 ==> !self.spec_negative(),
            be_value(self.spec_magnitude()) == 0 ==> !self.spec_negative(),
    {
        proof {
            use_type_invariant(self);
            lemma_be_value_range(self.magnitude@);
            lemma_pow256_8();
        }
        let bytes = self.magnitude.as_slice();
        if bytes.len() <= 8 {
            proof {
                crate::cast::lemma_pow256_monotone(bytes@.len(), 8);
                if bytes@.len() > 0 {
                    crate::cast::lemma_pow256_monotone(0, (bytes@.len() - 1) as nat);
                }
            }
            Some(number_of(bytes))
        } else {
            assert(pow256((bytes@.len() - 1) as nat) >= 0x1_0000_0000_0000_0000);
            None
        }
    }

    /// The integer once more.
    pub fn duplicate(&self) -> (b: BigInt)
        ensures
            b.spec_negative() == self.spec_negative(),
            b.spec_magnitude() == self.spec_magnitude(),
    {
        proof {
            use_type_invariant(self);
        }
        let magnitude = self.magnitude.clone();
        assert(magnitude@ =~= self.magnitude@);
        BigInt { negative: self.negative, magnitude }
    }

    /// The integer as an unsigned number of 64 bits, where it is one.
    pub fn to_u64(&self) -> (r: Option<u64>)
        ensures
            r == (if 0 <= self.value() <= u64::MAX {
                Some(self.value() as u64)
            } else {
                None
            }),
    {
        match self.magnitude_u64() {
            Some(m) => {
                if !self.negative {
                    Some(m)
                } else {
                    None
                }
            },
            None => None,
        }
    }

    /// The integer as a signed number of 64 bits, where it is one.
    pub fn to_i64(&self) -> (r: Option<i64>)
        ensures
            r == (if i64::MIN <= self.value() <= i64::MAX {
                Some(self.value() as i64)
            } else {
                None
            }),
    {
        match self.magnitude_u64() {
            Some(m) => {
                if self.negative {
                    if m <= 0x7fff_ffff_ffff_ffffu64 {
                        Some(-(m as i64))
                    } else if m == 0x8000_0000_0000_0000u64 {
                        Some(i64::MIN)
                    } else {
                        None
                    }
                } else if m <= 0x7fff_ffff_ffff_ffffu64 {
                    Some(m as i64)
                } else {
                    None
                }
            },
            None => None,
        }
    }
}

impl Clone for BigInt {
    fn clone(&self) -> (b: BigInt) {
        self.duplicate()
    }
}

/// The value of an attribute.
#[derive(Clone, Debug, PartialEq)]
pub enum Variant {
    /// No value.
    Nil,
    Bool(bool),
    Int64(i64),
    UInt64(u64),
    /// An integer that may be too large for 64 bits.
    BigInt(BigInt),
    /// A floating-point number, held as the 64 bits of its binary form.
    Float64(u64),
    /// Bytes of the frame.
    Slice(Slice),
}

impl Variant {
    /// The integer that the value stands for, where it stands for one.
    pub open spec fn spec_int(&self) -> Option<int> {
        match *self {
            Variant::Int64(v) => Some(v as int),
            Variant::UInt64(v) => Some(v as int),
            Variant::BigInt(b) => Some(b.value()),
            _ => None,
        }
    }

    /// The value in its smallest form: an integer of any size becomes an unsigned number
    /// of 64 bits where it is one, else a signed number of 64 bits where it is one, and
    /// stays as it is where it is neither. Every other value stays as it is.
    pub open spec fn spec_shrink(self) -> Variant {
        match self {
            Variant::BigInt(b) => {
                if 0 <= b.value() <= u64::MAX {
                    Variant::UInt64(b.value() as u64)
                } else if i64::MIN <= b.value() < 0 {
                    Variant::Int64(b.value() as i64)
                } else {
                    self
                }
            },
            _ => self,
        }
    }

    /// The value in its smallest form.
    pub fn shrink(self) -> (r: Variant)
        ensures
            r == self.spec_shrink(),
            r.spec_int() == self.spec_int(),
    {
        match self {
            Variant::BigInt(b) => {
                match b.to_u64() {
                    Some(v) => Variant::UInt64(v),
                    None => match b.to_i64() {
                        Some(v) => Variant::Int64(v),
                        None => Variant::BigInt(b),
                    },
                }
            },
            other => other,
        }
    }

    /// The value as an unsigned number; a cast error for a value that is no integer, is
    /// negative or is too large.
    pub fn to_u64(&self) -> (r: Result<u64, Error>)
        ensures
            r is Ok <==> (self.spec_int() matches Some(v) && 0 <= v <= u64::MAX),
            r matches Ok(n) ==> self.spec_int() == Some(n as int),
            r matches Err(e) ==> e.spec_kind() == ErrorKind::Cast,
    {
        match self {
            Variant::UInt64(v) => Ok(*v),
            Variant::Int64(v) => {
                if *v >= 0 {
                    Ok(*v as u64)
                } else {
                    Err(Error::wrong_type())
                }
            },
            Variant::BigInt(b) => match b.to_u64() {
                Some(v) => Ok(v),
                None => Err(Error::wrong_type()),
            },
            _ => Err(Error::wrong_type()),
        }
    }

    /// The value as a signed number; a cast error for a value that is no integer or does
    /// not fit.
    pub fn to_i64(&self) -> (r: Result<i64, Error>)
        ensures
            r is Ok <==> (self.spec_int() matches Some(v) && i64::MIN <= v <= i64::MAX),
            r matches Ok(n) ==> self.spec_int() == Some(n as int),
            r matches Err(e) ==> e.spec_kind() == ErrorKind::Cast,
    {
        match self {
            Variant::Int64(v) => Ok(*v),
            Variant::UInt64(v) => {
                if *v <= 0x7fff_ffff_ffff_ffffu64 {
                    Ok(*v as i64)
                } else {
                    Err(Error::wrong_type())
                }
            },
            Variant::BigInt(b) => match b.to_i64() {
                Some(v) => Ok(v),
                None => Err(Error::wrong_type()),
            },
            _ => Err(Error::wrong_type()),
        }
    }

    /// The truth value; a cast error for any other kind of value.
    pub fn to_bool(&self) -> (r: Result<bool, Error>)
        ensures
            r is Ok <==> *self is Bool,
            r matches Ok(b) ==> *self == Variant::Bool(b),
            r matches Err(e) ==> e.spec_kind() == ErrorKind::Cast,
    {
        match self {
            Variant::Bool(b) => Ok(*b),
            _ => Err(Error::wrong_type()),
        }
    }

    /// The bytes; a cast error for any other kind of value.
    pub fn to_slice(&self) -> (r: Result<Slice, Error>)
        ensures
            r is Ok <==> *self is Slice,
            r matches Ok(s) ==> *self == Variant::Slice(s),
            r matches Err(e) ==> e.spec_kind() == ErrorKind::Cast,
    {
        match self {
            Variant::Slice(s) => Ok(*s),
            _ => Err(Error::wrong_type()),
        }
    }

    pub fn is_nil(&self) -> (b: bool)
        ensures
            b == (*self is Nil),
    {
        match self {
            Variant::Nil => true,
            _ => false,
        }
    }
}

} // verus!
