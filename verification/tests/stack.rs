use genet::attr::{Attr, AttrClass};
use genet::layer::{Layer, LayerClass, LayerProxy, LayerStack, Payload};
use genet::slice::Slice;
use genet::token::Token;
use std::sync::Arc;

fn named(id: u64, start: usize, end: usize) -> Attr {
    Attr::new(
        Arc::new(AttrClass::builder(Token::from(id)).build()),
        start..end,
    )
}

fn layer(id: u64, attrs: Vec<Attr>) -> Layer {
    let class = Arc::new(LayerClass::builder(Token::from(id)).build());
    let mut layer = Layer::new(class, Slice::new()).build();
    for a in attrs {
        layer.add_attr(a);
    }
    layer
}

#[test]
fn an_empty_stack_has_nothing() {
    let stack = LayerStack::empty();
    assert_eq!(stack.len(), 0);
    assert!(stack.top().is_none());
    assert!(stack.bottom().is_none());
    assert!(stack.attr(Token::from(1)).is_none());
    assert!(stack.layer(Token::from(1)).is_none());
}

#[test]
fn top_and_bottom() {
    let a = layer(1, vec![]);
    let b = layer(2, vec![]);
    let c = layer(3, vec![]);
    let stack = LayerStack::new(vec![&a, &b, &c]);
    assert_eq!(stack.len(), 3);
    assert_eq!(stack.bottom().unwrap().id(), Token::from(1));
    assert_eq!(stack.top().unwrap().id(), Token::from(3));
}

#[test]
fn the_topmost_attribute_is_found() {
    let a = layer(1, vec![named(10, 0, 1), named(11, 0, 2)]);
    let b = layer(2, vec![named(10, 0, 3)]);
    let c = layer(3, vec![named(12, 0, 4)]);
    let stack = LayerStack::new(vec![&a, &b, &c]);
    assert_eq!(stack.attr(Token::from(10)).unwrap().range(), 0..3);
    assert_eq!(stack.attr(Token::from(11)).unwrap().range(), 0..2);
    assert_eq!(stack.attr(Token::from(12)).unwrap().range(), 0..4);
    assert!(stack.attr(Token::from(13)).is_none());
}

#[test]
fn the_lowest_layer_of_a_class_is_found() {
    let a = layer(1, vec![]);
    let b = layer(2, vec![named(10, 0, 1)]);
    let c = layer(2, vec![named(10, 0, 2)]);
    let stack = LayerStack::new(vec![&a, &b, &c]);
    let found = stack.layer(Token::from(2)).unwrap();
    assert_eq!(found.attrs()[0].range(), 0..1);
    assert!(stack.layer(Token::from(4)).is_none());
}

#[test]
fn a_proxy_keeps_additions_aside() {
    let mut target = layer(1, vec![named(10, 0, 1)]);
    let mut proxy = LayerProxy::from_mut_ref(&mut target);
    assert_eq!(proxy.id(), Token::from(1));
    assert!(proxy.data().is_empty());
    assert_eq!(proxy.attrs().len(), 1);
    assert_eq!(proxy.headers().len(), 0);
    assert!(proxy.payloads().is_empty());
    assert!(proxy.children().is_empty());

    proxy.add_attr(named(11, 0, 2));
    proxy.add_payload(Payload::new(Slice::new(), Token::from(5)));
    proxy.add_child(layer(2, vec![]));
    proxy.add_child(layer(3, vec![]));
    let mut more = vec![layer(4, vec![])];
    proxy.add_children(&mut more);
    assert!(more.is_empty());

    assert_eq!(proxy.attrs().len(), 1);
    assert!(proxy.attr(Token::from(11)).is_none());
    assert!(proxy.payloads().is_empty());
    let ids: Vec<u64> = proxy.children().iter().map(|l| l.id().index()).collect();
    assert_eq!(ids, vec![2, 3, 4]);

    let (attrs, payloads, children) = proxy.into_parts();
    assert_eq!(attrs.len(), 1);
    assert_eq!(attrs[0].id(), Token::from(11));
    assert_eq!(payloads.len(), 1);
    assert_eq!(children.len(), 3);
    assert_eq!(target.attrs().len(), 1);
}

#[test]
fn a_proxy_from_a_shared_reference_reads_the_same() {
    let target = layer(1, vec![named(10, 0, 1)]);
    let proxy = LayerProxy::from_ref(&target);
    assert_eq!(proxy.id(), Token::from(1));
    assert_eq!(proxy.attr(Token::from(10)).unwrap().range(), 0..1);
}
