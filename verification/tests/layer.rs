use genet::attr::{Attr, AttrClass};
use genet::cast::Cast;
use genet::layer::{Layer, LayerClass, Payload};
use genet::slice::Slice;
use genet::token::{Interner, Token};
use std::sync::Arc;

#[test]
fn id() {
    let id = Token::from(123);
    let class = Arc::new(LayerClass::builder(id).build());
    let layer = Layer::new(class, Slice::new()).build();
    assert_eq!(layer.id(), id);
}

#[test]
fn data() {
    let data = b"hello";
    let class = Arc::new(LayerClass::builder(Token::null()).build());
    let layer = Layer::new(class, Slice::from(&data[..])).build();
    assert_eq!(layer.data(), Slice::from(&data[..]));
}

#[test]
fn payloads() {
    let class = Arc::new(LayerClass::builder(Token::null()).build());
    let mut layer = Layer::new(class, Slice::new()).build();
    assert!(layer.payloads().iter().next().is_none());

    let count = 100;
    let data = b"hello";

    for i in 0..count {
        layer.add_payload(Payload::new(Slice::from(&data[..]), Token::from(i)));
    }

    let mut iter = layer.payloads().iter();
    for i in 0..count {
        let payload = iter.next().unwrap();
        assert_eq!(payload.data(), Slice::from(&data[..]));
        assert_eq!(payload.id(), Token::from(i));
    }
    assert!(iter.next().is_none());
}

#[test]
fn attrs() {
    let class = Arc::new(LayerClass::builder(Token::null()).build());
    let mut layer = Layer::new(class, Slice::new()).build();
    assert!(layer.attrs().is_empty());

    let mut names = Interner::new();
    let class = Arc::new(
        AttrClass::builder(names.intern("nil"))
            .typ(names.intern("@nil"))
            .cast(Cast::Nil)
            .build(),
    );

    let count = 100;
    for i in 0..count {
        let attr = Attr::builder(class.clone()).range(0..i).build();
        layer.add_attr(attr);
    }
    let mut iter = layer.attrs().iter();
    for i in 0..count {
        let attr = iter.next().unwrap();
        assert_eq!(attr.id(), names.intern("nil"));
        assert_eq!(attr.typ(), names.intern("@nil"));
        assert_eq!(attr.range(), 0..i);
    }
    assert!(iter.next().is_none());
}

fn named(id: u64, start: usize, end: usize) -> Attr {
    Attr::new(
        Arc::new(AttrClass::builder(Token::from(id)).build()),
        start..end,
    )
}

#[test]
fn a_layer_shows_added_attributes_before_those_of_its_class() {
    let class = Arc::new(
        LayerClass::builder(Token::from(1))
            .header(named(10, 0, 1))
            .header(named(11, 1, 2))
            .build(),
    );
    let mut layer = Layer::new(class, Slice::new()).build();
    assert_eq!(layer.headers().len(), 2);
    assert_eq!(layer.attr(Token::from(10)).unwrap().range(), 0..1);
    assert_eq!(layer.attr(Token::from(11)).unwrap().range(), 1..2);
    assert!(layer.attr(Token::from(12)).is_none());

    layer.add_attr(named(11, 5, 6));
    layer.add_attr(named(11, 7, 8));
    assert_eq!(layer.attr(Token::from(11)).unwrap().range(), 5..6);
    assert_eq!(layer.attr(Token::from(10)).unwrap().range(), 0..1);
    assert_eq!(layer.attrs().len(), 2);
}

#[test]
fn an_alias_gives_what_its_target_gives() {
    let class = Arc::new(
        LayerClass::builder(Token::from(1))
            .alias(Token::from(20), Token::from(10))
            .alias(Token::from(21), Token::from(11))
            .header(named(10, 0, 6))
            .header(named(11, 6, 12))
            .build(),
    );
    let layer = Layer::new(class, Slice::new()).build();
    assert_eq!(layer.attr(Token::from(20)).unwrap().range(), 0..6);
    assert_eq!(layer.attr(Token::from(10)).unwrap().range(), 0..6);
    assert_eq!(layer.attr(Token::from(21)).unwrap().range(), 6..12);
    assert_eq!(layer.attr(Token::from(11)).unwrap().range(), 6..12);
}

#[test]
fn the_first_alias_of_a_name_counts_and_no_chain_is_followed() {
    let class = Arc::new(
        LayerClass::builder(Token::from(1))
            .alias(Token::from(20), Token::from(10))
            .alias(Token::from(20), Token::from(11))
            .alias(Token::from(10), Token::from(12))
            .header(named(10, 0, 1))
            .header(named(11, 1, 2))
            .header(named(12, 2, 3))
            .build(),
    );
    let layer = Layer::new(class.clone(), Slice::new()).build();
    assert_eq!(class.resolve(Token::from(20)), Token::from(10));
    assert_eq!(class.resolve(Token::from(10)), Token::from(12));
    assert_eq!(class.resolve(Token::from(12)), Token::from(12));
    assert_eq!(layer.attr(Token::from(20)).unwrap().range(), 0..1);
    assert_eq!(layer.attr(Token::from(10)).unwrap().range(), 2..3);
}

#[test]
fn a_payload_has_a_name_and_a_kind() {
    let data = Slice::from_vec(vec![1, 2, 3]);
    let plain = Payload::new(data, Token::from(5));
    assert_eq!(plain.id(), Token::from(5));
    assert_eq!(plain.typ(), Token::null());
    assert_eq!(plain.data(), data);
    let typed = Payload::with_typ(data, Token::from(5), Token::from(6));
    assert_eq!(typed.typ(), Token::from(6));
}

#[test]
fn a_builder_collects_what_the_layer_gets() {
    let class = Arc::new(LayerClass::builder(Token::from(3)).build());
    let data = Slice::from_vec(vec![7, 8]);
    let mut builder = Layer::new(class, data);
    assert_eq!(builder.data(), data);
    builder.add_attr(named(1, 0, 1));
    builder.add_payload(Payload::new(data, Token::from(2)));
    builder.add_attr(named(2, 1, 2));
    let layer = Layer::from(builder);
    assert_eq!(layer.id(), Token::from(3));
    assert_eq!(layer.attrs().len(), 2);
    assert_eq!(layer.attrs()[0].id(), Token::from(1));
    assert_eq!(layer.attrs()[1].id(), Token::from(2));
    assert_eq!(layer.payloads().len(), 1);
    assert_eq!(layer.payloads()[0].id(), Token::from(2));
}

#[test]
fn extend_adds_in_order() {
    let class = Arc::new(LayerClass::builder(Token::from(3)).build());
    let mut layer = Layer::new(class, Slice::new()).build();
    layer.add_attr(named(1, 0, 0));
    layer.extend(
        vec![named(2, 0, 0), named(3, 0, 0)],
        vec![Payload::new(Slice::new(), Token::from(9))],
    );
    let ids: Vec<u64> = layer.attrs().iter().map(|a| a.id().index()).collect();
    assert_eq!(ids, vec![1, 2, 3]);
    assert_eq!(layer.payloads().len(), 1);
}
