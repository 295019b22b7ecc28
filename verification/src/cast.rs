use crate::error::{Error, ErrorKind};
use crate::slice::Slice;
use crate::variant::Variant;
use byteorder::{BigEndian, ByteOrder};
use vstd::prelude::*;

verus! {

/// The number that `bytes` spell, most significant byte first.
pub open spec fn be_value(bytes: Seq<u8>) -> nat
    decreases bytes.len(),
{
    if bytes.len() == 0 {
        0
    } else {
        be_value(bytes.drop_last()) * 256 + bytes.last() as nat
    }
}

/// `byteorder::BigEndian::read_uint`: the unsigned number that the first `nbytes` bytes of
/// `buf` spell, most significant byte first. It panics unless `1 <= nbytes <= 8` and `buf`
/// has that many bytes.
#[verifier::external_body]
fn read_uint_be(buf: &[u8], nbytes: usize) -> (r: u64)
    requires
        1 <= nbytes <= 8,
        nbytes <= buf@.len(),
    ensures
        r == be_value(buf@.subrange(0, nbytes as int)),
{
    BigEndian::read_uint(buf, nbytes)
}

/// How the bytes of an attribute become its value.
#[derive(Clone, Copy, Debug, PartialEq, Eq, Structural)]
pub enum Cast {
    /// No value, whatever the bytes.
    Nil,
    /// The same truth value, whatever the bytes.
    Const(bool),
    /// The bytes themselves.
    Bytes,
    /// The unsigned number that the first `width` bytes spell, most significant byte
    /// first, moved right by `shift` bits and cut to the bits of `mask`.
    UInt { width: u8, shift: u8, mask: u64 },
    /// Whether that number has any bit of `mask`.
    Flag { width: u8, mask: u64 },
    /// The unsigned number that the `width` bytes from the place `at` on spell.
    UIntAt { at: u8, width: u8 },
    /// The bytes from the place `at` on.
    BytesFrom { at: u8 },
    /// The same unsigned number, whatever the bytes.
    Unsigned(u64),
    /// The same signed number, whatever the bytes.
    Signed(i64),
    /// The same floating-point number, given by its 64 bits, whatever the bytes.
    Float(u64),
}

impl Cast {
    /// The cast that reads `width` bytes as a number, whole.
    pub open spec fn plain(width: u8) -> Cast {
        Cast::UInt { width, shift: 0, mask: u64::MAX }
    }

    /// One byte as a number.
    pub fn uint8() -> (c: Cast)
        ensures
            c == (Cast::UInt { width: 1, shift: 0, mask: u64::MAX }),
    {
        Cast::UInt { width: 1, shift: 0, mask: u64::MAX }
    }

    /// Two bytes as a number.
    pub fn uint16be() -> (c: Cast)
        ensures
            c == (Cast::UInt { width: 2, shift: 0, mask: u64::MAX }),
    {
        Cast::UInt { width: 2, shift: 0, mask: u64::MAX }
    }

    /// Four bytes as a number.
    pub fn uint32be() -> (c: Cast)
        ensures
            c == (Cast::UInt { width: 4, shift: 0, mask: u64::MAX }),
    {
        Cast::UInt { width: 4, shift: 0, mask: u64::MAX }
    }

    /// Eight bytes as a number.
    pub fn uint64be() -> (c: Cast)
        ensures
            c == (Cast::UInt { width: 8, shift: 0, mask: u64::MAX }),
    {
        Cast::UInt { width: 8, shift: 0, mask: u64::MAX }
    }

    /// The bits of a number of `width` bytes that `mask` keeps after a move right by `shift`.
    pub fn bits(width: u8, shift: u8, mask: u64) -> (c: Cast)
        ensures
            c == (Cast::UInt { width, shift, mask }),
    {
        Cast::UInt { width, shift, mask }
    }

    /// Whether a number of `width` bytes has a bit of `mask`.
    pub fn flag(width: u8, mask: u64) -> (c: Cast)
        ensures
            c == (Cast::Flag { width, mask }),
    {
        Cast::Flag { width, mask }
    }

    /// The cast can be carried out: a number is read from one to eight bytes and moved by
    /// fewer bits than it has.
    pub open spec fn wf(&self) -> bool {
        match *self {
            Cast::UInt { width, shift, mask } => 1 <= width <= 8 && shift < 64,
            Cast::Flag { width, mask } => 1 <= width <= 8,
            Cast::UIntAt { at, width } => 1 <= width <= 8,
            _ => true,
        }
    }

    /// The number of bytes that the cast reads.
    pub open spec fn spec_width(&self) -> nat {
        match *self {
            Cast::UInt { width, shift, mask } => width as nat,
            Cast::Flag { width, mask } => width as nat,
            Cast::UIntAt { at, width } => (at + width) as nat,
            Cast::BytesFrom { at } => at as nat,
            _ => 0,
        }
    }

    /// The value that the cast gives for `data`, where `data` has the bytes it reads.
    pub open spec fn spec_cast(&self, data: Slice) -> Variant {
        match *self {
            Cast::Nil => Variant::Nil,
            Cast::Const(b) => Variant::Bool(b),
            Cast::Bytes => Variant::Slice(data),
            Cast::Unsigned(n) => Variant::UInt64(n),
            Cast::Signed(n) => Variant::Int64(n),
            Cast::Float(bits) => Variant::Float64(bits),
            Cast::UInt { width, shift, mask } => Variant::UInt64(
                ((be_value(data@.subrange(0, width as int)) as u64) >> (shift as u64)) & mask,
            ),
            Cast::Flag { width, mask } => Variant::Bool(
                (be_value(data@.subrange(0, width as int)) as u64) & mask != 0,
            ),
            Cast::UIntAt { at, width } => Variant::UInt64(
                be_value(data@.subrange(at as int, at + width)) as u64,
            ),
            Cast::BytesFrom { at } => Variant::Slice(
                data.spec_narrow(at as usize, data@.len() as usize),
            ),
        }
    }

    /// The value of `data` under the cast; a cast error when `data` is shorter than the
    /// number to read, or when the cast cannot be carried out.
    pub fn cast(&self, data: &Slice) -> (r: Result<Variant, Error>)
        ensures
            r is Ok <==> self.wf() && self.spec_width() <= data@.len(),
            r matches Ok(v) ==> v == self.spec_cast(*data),
            r matches Err(e) ==> e.spec_kind() == ErrorKind::Cast,
    {
        match *self {
            Cast::Nil => Ok(Variant::Nil),
            Cast::Const(b) => Ok(Variant::Bool(b)),
            Cast::Bytes => Ok(Variant::Slice(*data)),
            Cast::Unsigned(n) => Ok(Variant::UInt64(n)),
            Cast::Signed(n) => Ok(Variant::Int64(n)),
            Cast::Float(bits) => Ok(Variant::Float64(bits)),
            Cast::UInt { width, shift, mask } => {
                if 1 <= width && width <= 8 && shift < 64 && width as usize <= data.len() {
                    let v = read_number(data, width);
                    Ok(Variant::UInt64((v >> (shift as u64)) & mask))
                } else {
                    Err(Error::wrong_type())
                }
            },
            Cast::Flag { width, mask } => {
                if 1 <= width && width <= 8 && width as usize <= data.len() {
                    let v = read_number(data, width);
                    Ok(Variant::Bool(v & mask != 0))
                } else {
                    Err(Error::wrong_type())
                }
            },
            Cast::UIntAt { at, width } => {
                if 1 <= width && width <= 8 {
                    match data.narrow(at as usize, at as usize + width as usize) {
                        Some(bytes) => {
                            assert(bytes@.subrange(0, width as int) =~= bytes@);
                            Ok(Variant::UInt64(read_number(&bytes, width)))
                        },
                        None => Err(Error::wrong_type()),
                    }
                } else {
                    Err(Error::wrong_type())
                }
            },
            Cast::BytesFrom { at } => {
                match data.skip(at as usize) {
                    Some(bytes) => Ok(Variant::Slice(bytes)),
                    None => Err(Error::wrong_type()),
                }
            },
        }
    }
}

/// The number that `bytes` spell, which are at most eight.
pub(crate) fn number_of(bytes: &[u8]) -> (v: u64)
    requires
        bytes@.len() <= 8,
    ensures
        v == be_value(bytes@),
{
    if bytes.len() == 0 {
        0
    } else {
        assert(bytes@.subrange(0, bytes@.len() as int) =~= bytes@);
        read_uint_be(bytes, bytes.len())
    }
}

/// The number that the first `width` bytes of `data` spell.
fn read_number(data: &Slice, width: u8) -> (v: u64)
    requires
        1 <= width <= 8,
        width <= data@.len(),
    ensures
        v == be_value(data@.subrange(0, width as int)),
{
    let bytes = data.as_bytes();
    read_uint_be(bytes, width as usize)
}

/// A number that is read whole, neither moved nor cut, is the number that the bytes spell.
pub proof fn lemma_plain_uint(width: u8, data: Slice)
    ensures
        (Cast::UInt { width, shift: 0, mask: u64::MAX }).spec_cast(data) == Variant::UInt64(
            be_value(data@.subrange(0, width as int)) as u64,
        ),
{
    let v = be_value(data@.subrange(0, width as int)) as u64;
    assert((v >> 0u64) & u64::MAX == v) by (bit_vector);
}

/// 256 to the power of `n`.
pub open spec fn pow256(n: nat) -> nat
    decreases n,
{
    if n == 0 {
        1
    } else {
        256 * pow256((n - 1) as nat)
    }
}

/// Bytes spell a number below 256 to the power of their count; bytes that begin with
/// another byte than zero spell one that is no less than the power before.
pub proof fn lemma_be_value_range(bytes: Seq<u8>)
    ensures
        be_value(bytes) < pow256(bytes.len()),
        bytes.len() > 0 && bytes[0] != 0 ==> be_value(bytes) >= pow256((bytes.len() - 1) as nat),
    decreases bytes.len(),
{
    if bytes.len() > 0 {
        let front = bytes.drop_last();
        lemma_be_value_range(front);
        let p = pow256(front.len());
        assert(be_value(front) * 256 + 255 < 256 * p) by (nonlinear_arith)
            requires
                be_value(front) < p,
        ;
        if bytes[0] != 0 {
            if front.len() == 0 {
                assert(be_value(front) == 0);
            } else {
                assert(front[0] == bytes[0]);
                let q = pow256((front.len() - 1) as nat);
                assert(be_value(front) * 256 >= 256 * q) by (nonlinear_arith)
                    requires
                        be_value(front) >= q,
                ;
            }
        }
    }
}

/// Zeros in front do not change the number that bytes spell.
pub proof fn lemma_be_value_leading_zeros(bytes: Seq<u8>, zeros: int)
    requires
        0 <= zeros <= bytes.len(),
        forall|i: int| 0 <= i < zeros ==> bytes[i] == 0,
    ensures
        be_value(bytes) == be_value(bytes.skip(zeros)),
    decreases bytes.len(),
{
    if zeros == bytes.len() {
        if bytes.len() > 0 {
            lemma_be_value_leading_zeros(bytes.drop_last(), zeros - 1);
            assert(bytes.drop_last().skip(zeros - 1).len() == 0);
        }
        assert(bytes.skip(zeros).len() == 0);
    } else {
        lemma_be_value_leading_zeros(bytes.drop_last(), zeros);
        assert(bytes.skip(zeros).drop_last() =~= bytes.drop_last().skip(zeros));
        assert(bytes.skip(zeros).last() == bytes.last());
    }
}

/// 256 to the power of 8 is the first number that 64 bits do not hold.
pub proof fn lemma_pow256_8()
    ensures
        pow256(8) == 0x1_0000_0000_0000_0000,
        forall|n: nat| n >= 8 ==> #[trigger] pow256(n) >= 0x1_0000_0000_0000_0000,
{
    reveal_with_fuel(pow256, 9);
    assert(pow256(8) == 0x1_0000_0000_0000_0000);
    assert forall|n: nat| n >= 8 implies #[trigger] pow256(n) >= 0x1_0000_0000_0000_0000 by {
        lemma_pow256_monotone(8, n);
    }
}

/// A higher power is no smaller.
pub proof fn lemma_pow256_monotone(a: nat, b: nat)
    requires
        a <= b,
    ensures
        pow256(a) <= pow256(b),
        pow256(a) >= 1,
    decreases b,
{
    if a < b {
        lemma_pow256_monotone(a, (b - 1) as nat);
    } else if a > 0 {
        lemma_pow256_monotone((a - 1) as nat, (a - 1) as nat);
    }
}

/// One byte spells itself.
pub proof fn lemma_be_value_1(bytes: Seq<u8>)
    requires
        bytes.len() == 1,
    ensures
        be_value(bytes) == bytes[0],
{
    assert(bytes.drop_last().len() == 0);
    assert(be_value(bytes.drop_last()) == 0);
}

} // verus!
