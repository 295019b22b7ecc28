use genet::attr::{Attr, AttrClass};
use genet::cast::Cast;
use genet::error::ErrorKind;
use genet::layer::{Layer, LayerClass};
use genet::slice::Slice;
use genet::token::Token;
use genet::variant::Variant;
use std::sync::Arc;

fn class(cast: Cast) -> Arc<AttrClass> {
    Arc::new(AttrClass::builder(Token::from(1)).cast(cast).build())
}

#[test]
fn unsigned_numbers_are_read_most_significant_byte_first() {
    let data = Slice::from_vec(vec![0x12, 0x34, 0x56, 0x78, 0x9a, 0xbc, 0xde, 0xf0, 0xff]);
    assert_eq!(Cast::uint8().cast(&data).unwrap(), Variant::UInt64(0x12));
    assert_eq!(Cast::uint16be().cast(&data).unwrap(), Variant::UInt64(0x1234));
    assert_eq!(
        Cast::uint32be().cast(&data).unwrap(),
        Variant::UInt64(0x1234_5678)
    );
    assert_eq!(
        Cast::uint64be().cast(&data).unwrap(),
        Variant::UInt64(0x1234_5678_9abc_def0)
    );
    assert_eq!(
        Cast::bits(3, 0, u64::MAX).cast(&data).unwrap(),
        Variant::UInt64(0x12_3456)
    );
}

#[test]
fn bits_are_moved_and_cut() {
    let data = Slice::from_vec(vec![0x45, 0xe0]);
    assert_eq!(
        Cast::bits(1, 4, u64::MAX).cast(&data).unwrap(),
        Variant::UInt64(4)
    );
    assert_eq!(
        Cast::bits(1, 0, 0x0f).cast(&data).unwrap(),
        Variant::UInt64(5)
    );
    assert_eq!(
        Cast::bits(2, 5, 0x07).cast(&data).unwrap(),
        Variant::UInt64(7)
    );
    assert_eq!(
        Cast::flag(1, 0x40).cast(&data).unwrap(),
        Variant::Bool(true)
    );
    assert_eq!(
        Cast::flag(1, 0x80).cast(&data).unwrap(),
        Variant::Bool(false)
    );
}

#[test]
fn casts_that_do_not_read_numbers() {
    let data = Slice::from_vec(vec![1, 2, 3, 4, 5]);
    assert_eq!(Cast::Nil.cast(&data).unwrap(), Variant::Nil);
    assert_eq!(Cast::Const(true).cast(&data).unwrap(), Variant::Bool(true));
    assert_eq!(
        Cast::Const(false).cast(&Slice::new()).unwrap(),
        Variant::Bool(false)
    );
    assert_eq!(Cast::Bytes.cast(&data).unwrap(), Variant::Slice(data));
    assert_eq!(
        (Cast::UIntAt { at: 2, width: 2 }).cast(&data).unwrap(),
        Variant::UInt64(0x0304)
    );
    assert_eq!(
        (Cast::BytesFrom { at: 2 }).cast(&data).unwrap(),
        Variant::Slice(Slice::from_vec(vec![3, 4, 5]))
    );
}

#[test]
fn short_data_is_a_cast_error() {
    let one = Slice::from_vec(vec![7]);
    assert_eq!(
        Cast::uint16be().cast(&one).unwrap_err().kind(),
        ErrorKind::Cast
    );
    assert_eq!(
        Cast::flag(2, 1).cast(&one).unwrap_err().kind(),
        ErrorKind::Cast
    );
    assert_eq!(
        (Cast::UIntAt { at: 1, width: 1 })
            .cast(&one)
            .unwrap_err()
            .kind(),
        ErrorKind::Cast
    );
    assert_eq!(
        (Cast::BytesFrom { at: 2 }).cast(&one).unwrap_err().kind(),
        ErrorKind::Cast
    );
    assert_eq!(
        Cast::uint8().cast(&Slice::new()).unwrap_err().kind(),
        ErrorKind::Cast
    );
}

#[test]
fn casts_that_cannot_be_carried_out() {
    let data = Slice::from_vec(vec![0; 16]);
    assert_eq!(
        Cast::bits(0, 0, 1).cast(&data).unwrap_err().kind(),
        ErrorKind::Cast
    );
    assert_eq!(
        Cast::bits(9, 0, 1).cast(&data).unwrap_err().kind(),
        ErrorKind::Cast
    );
    assert_eq!(
        Cast::bits(1, 64, 1).cast(&data).unwrap_err().kind(),
        ErrorKind::Cast
    );
    assert_eq!(
        Cast::flag(0, 1).cast(&data).unwrap_err().kind(),
        ErrorKind::Cast
    );
}

#[test]
fn an_attribute_reads_its_range() {
    let data = Slice::from_vec(vec![0xaa, 0xbb, 0x08, 0x00, 0xcc]);
    let attr = Attr::new(class(Cast::uint16be()), 2..4);
    assert_eq!(attr.get(&data).unwrap(), Variant::UInt64(0x0800));
    assert_eq!(attr.range(), 2..4);
    assert_eq!(attr.id(), Token::from(1));
    assert_eq!(attr.typ(), Token::null());
}

#[test]
fn a_range_past_the_data_is_a_bounds_error() {
    let data = Slice::from_vec(vec![1, 2, 3]);
    let attr = Attr::new(class(Cast::uint16be()), 2..4);
    assert_eq!(attr.get(&data).unwrap_err().kind(), ErrorKind::Bounds);
    let backwards = Attr::builder(class(Cast::Nil)).range(2..1).build();
    assert_eq!(backwards.get(&data).unwrap_err().kind(), ErrorKind::Bounds);
}

#[test]
fn a_range_too_short_for_the_cast_is_a_cast_error() {
    let data = Slice::from_vec(vec![1, 2, 3]);
    let attr = Attr::new(class(Cast::uint16be()), 0..1);
    assert_eq!(attr.get(&data).unwrap_err().kind(), ErrorKind::Cast);
}

#[test]
fn an_attribute_is_read_in_a_layer() {
    let layer_class = Arc::new(LayerClass::builder(Token::from(9)).build());
    let layer = Layer::new(layer_class, Slice::from_vec(vec![0, 0, 0x01, 0xf4])).build();
    let attr = Attr::new(class(Cast::uint16be()), 2..4);
    assert_eq!(attr.try_get(&layer).unwrap(), Variant::UInt64(500));
    let late = Attr::new(class(Cast::uint8()), 4..5);
    assert_eq!(late.try_get(&layer).unwrap_err().kind(), ErrorKind::Bounds);
}

#[test]
fn a_builder_begins_with_nothing() {
    let c = AttrClass::builder(Token::from(4)).build();
    assert_eq!(c.id(), Token::from(4));
    assert_eq!(c.typ(), Token::null());
    assert_eq!(c.cast(&Slice::new()).unwrap(), Variant::Nil);
    let a = Attr::builder(Arc::new(c)).build();
    assert_eq!(a.range(), 0..0);
    let copy = a.clone();
    assert_eq!(copy.range(), 0..0);
    assert_eq!(copy.id(), Token::from(4));
}

#[test]
fn variants_convert() {
    assert_eq!(Variant::UInt64(7).to_u64().unwrap(), 7);
    assert_eq!(Variant::Int64(7).to_u64().unwrap(), 7);
    assert_eq!(
        Variant::Int64(-1).to_u64().unwrap_err().kind(),
        ErrorKind::Cast
    );
    assert_eq!(
        Variant::Bool(true).to_u64().unwrap_err().kind(),
        ErrorKind::Cast
    );
    assert_eq!(Variant::Int64(-5).to_i64().unwrap(), -5);
    assert_eq!(
        Variant::UInt64(i64::MAX as u64).to_i64().unwrap(),
        i64::MAX
    );
    assert_eq!(
        Variant::UInt64(i64::MAX as u64 + 1)
            .to_i64()
            .unwrap_err()
            .kind(),
        ErrorKind::Cast
    );
    assert_eq!(Variant::Bool(false).to_bool().unwrap(), false);
    assert_eq!(Variant::Nil.to_bool().unwrap_err().kind(), ErrorKind::Cast);
    assert!(Variant::Nil.is_nil());
    assert!(!Variant::UInt64(0).is_nil());
    let s = Slice::from_vec(vec![1]);
    assert_eq!(Variant::Slice(s).to_slice().unwrap(), s);
    assert_eq!(
        Variant::UInt64(1).to_slice().unwrap_err().kind(),
        ErrorKind::Cast
    );
    assert_eq!(
        Variant::UInt64(1).to_slice().unwrap_err().description(),
        "wrong type"
    );
}
