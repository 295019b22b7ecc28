use genet::link::{link_class_name, CaptureHeader, LinkClasses};
use genet::token::{Interner, Token};
use genet::variant::Variant;

#[test]
fn the_class_of_a_link_type_is_named_by_its_number() {
    let mut names = Interner::new();
    let one = LinkClasses::new(&mut names, 1);
    assert_eq!(one.class.id(), names.intern("[link-1]"));
    let other = LinkClasses::new(&mut names, 4294967295);
    assert_eq!(other.class.id(), names.intern("[link-4294967295]"));
    let zero = LinkClasses::new(&mut names, 0);
    assert_eq!(zero.class.id(), names.intern("[link-0]"));
    let again = LinkClasses::new(&mut names, 105);
    assert_eq!(again.class.id(), names.intern("[link-105]"));
    assert_eq!(one.length, other.length);
    assert_eq!(one.length, names.intern("link.length"));
    assert_eq!(one.timestamp, names.intern("link.timestamp"));
    assert_eq!(one.datetime, names.intern("@datetime:unix"));
}

#[test]
fn a_link_layer_holds_what_the_capture_said() {
    let mut names = Interner::new();
    let classes = LinkClasses::new(&mut names, 1);
    let header = CaptureHeader {
        datalen: 4,
        actlen: 60,
        ts_sec: 1_500_000_000,
        ts_usec: 250_000,
    };
    let time = 1_500_000_000.25f64.to_bits();
    let layer = classes.frame_layer(&header, vec![1, 2, 3, 4], time).build();

    assert_eq!(layer.id(), names.intern("[link-1]"));
    assert_eq!(layer.data().to_vec(), vec![1, 2, 3, 4]);
    assert_eq!(layer.data().start(), 0);
    assert_eq!(layer.attrs().len(), 2);
    let length = layer.attr(names.intern("link.length")).unwrap();
    assert_eq!(length.range(), 0..0);
    assert_eq!(length.typ(), Token::null());
    assert_eq!(length.try_get(&layer).unwrap(), Variant::UInt64(60));
    let stamp = layer.attr(names.intern("link.timestamp")).unwrap();
    assert_eq!(stamp.typ(), names.intern("@datetime:unix"));
    assert_eq!(stamp.try_get(&layer).unwrap(), Variant::Float64(time));
    let typ = layer.attr(names.intern("link.type")).unwrap();
    assert_eq!(typ.try_get(&layer).unwrap(), Variant::Int64(1));
    assert!(layer.payloads().is_empty());
}

#[test]
fn the_name_of_a_link_class_holds_the_number_in_decimal() {
    assert_eq!(link_class_name(0), "[link-0]");
    assert_eq!(link_class_name(1), "[link-1]");
    assert_eq!(link_class_name(105), "[link-105]");
    assert_eq!(link_class_name(u32::MAX), "[link-4294967295]");
}
