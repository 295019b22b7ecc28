use genet::context::Context;
use genet::decoder::{DecoderBox, ExecType, Status, Worker};
use genet::dispatcher::Dispatcher;
use genet::error::ErrorKind;
use genet::eth::{EthClasses, EthDecoder, EthWorker};
use genet::frame::Frame;
use genet::ipv4::{Ipv4Classes, Ipv4Decoder, Ipv4Worker};
use genet::layer::{Layer, LayerClass, LayerProxy, LayerStack, Payload};
use genet::profile::Profile;
use genet::slice::Slice;
use genet::token::Interner;
use std::sync::Arc;

fn ethernet_frame(names: &mut Interner, index: u32, bytes: Vec<u8>) -> Frame {
    let link = names.intern("[link-1]");
    let class = Arc::new(LayerClass::builder(link).build());
    Frame::new(index, Layer::new(class, Slice::from_vec(bytes)).build())
}

fn ipv4_over_ethernet() -> Vec<u8> {
    let mut bytes = vec![
        0x00, 0x11, 0x22, 0x33, 0x44, 0x55, 0x66, 0x77, 0x88, 0x99, 0xaa, 0xbb, 0x08, 0x00,
    ];
    bytes.extend_from_slice(&[
        0x45, 0x00, 0x00, 0x14, 0x12, 0x34, 0x40, 0x00, 0x40, 0xfd, 0x00, 0x00, 10, 0, 0, 1, 10,
        0, 0, 2,
    ]);
    bytes
}

fn header_only() -> Vec<u8> {
    let mut bytes = vec![0u8; 12];
    bytes.extend_from_slice(&[0x08, 0x00]);
    bytes.extend_from_slice(&[
        0x45, 0x00, 0x00, 0x14, 0x00, 0x00, 0x00, 0x00, 0x40, 0xff, 0x00, 0x00, 0x0a, 0x00, 0x00,
        0x01, 0x0a, 0x00, 0x00, 0x02,
    ]);
    bytes
}

#[test]
fn ethernet_then_ipv4_gives_two_layers() {
    for bytes in [ipv4_over_ethernet(), header_only()] {
        let mut names = Interner::new();
        let mut profile = Profile::with_concurrency(1);
        profile.add_decoder(DecoderBox::new(EthDecoder::new(&mut names)));
        profile.add_decoder(DecoderBox::new(Ipv4Decoder::new(&mut names)));
        let mut dispatcher = Dispatcher::new(&ExecType::ParallelSync, &profile);

        let mut frame = ethernet_frame(&mut names, 7, bytes);
        dispatcher.process_frame(&mut frame);

        assert_eq!(frame.index(), 7);
        assert_eq!(frame.layers().len(), 2);
        assert_eq!(frame.tree_indices(), &[1, 0]);
        assert_eq!(frame.layers()[0].id(), names.intern("[link-1]"));
        assert_eq!(frame.layers()[1].id(), names.intern("eth"));
        assert_eq!(frame.layers()[1].payloads().len(), 1);
        assert_eq!(frame.layers()[1].payloads()[0].id(), names.intern("@data:ipv4"));
        assert_eq!(frame.roots(), Some(1));
        assert_eq!(frame.children(0), Some((1, 2)));
        assert_eq!(frame.children(1), Some((2, 2)));
        assert_eq!(frame.parent(0), None);
        assert_eq!(frame.parent(1), Some(0));
    }
}

#[test]
fn the_ipv4_decoder_claims_a_header_without_a_known_protocol() {
    let mut names = Interner::new();
    let mut worker = Ipv4Worker::new(Ipv4Classes::new(&mut names)).unwrap();
    let class = Arc::new(LayerClass::builder(names.intern("eth")).build());
    let data = Slice::from_vec(header_only());
    let mut eth = Layer::new(class, data).build();
    eth.add_payload(Payload::new(
        data.skip(14).unwrap(),
        names.intern("@data:ipv4"),
    ));
    let mut proxy = LayerProxy::from_mut_ref(&mut eth);
    let mut ctx = Context::new(Vec::new());
    match worker.decode(&mut ctx, &LayerStack::empty(), &mut proxy) {
        Ok(Status::Done(children)) => assert!(children.is_empty()),
        _ => panic!("not claimed"),
    }
}

#[test]
fn short_link_layer_stays_alone() {
    let mut names = Interner::new();
    let mut profile = Profile::with_concurrency(1);
    profile.add_decoder(DecoderBox::new(EthDecoder::new(&mut names)));
    let mut dispatcher = Dispatcher::new(&ExecType::ParallelSync, &profile);

    let mut frame = ethernet_frame(&mut names, 0, vec![0u8; 13]);
    dispatcher.process_frame(&mut frame);

    assert_eq!(frame.layers().len(), 1);
    assert_eq!(frame.tree_indices(), &[0]);
    assert_eq!(frame.layers()[0].id(), names.intern("[link-1]"));
    assert!(frame.layers()[0].attrs().is_empty());
}

#[test]
fn short_link_layer_is_a_bounds_error() {
    let mut names = Interner::new();
    let mut worker = EthWorker::new(EthClasses::new(&mut names)).unwrap();
    let mut frame = ethernet_frame(&mut names, 0, vec![0u8; 13]);
    let mut layers = frame.take_layers();
    let mut proxy = LayerProxy::from_mut_ref(&mut layers[0]);
    let mut ctx = Context::new(Vec::new());
    let answer = worker.decode(&mut ctx, &LayerStack::empty(), &mut proxy);
    assert_eq!(answer.unwrap_err().kind(), ErrorKind::Bounds);
    assert!(proxy.children().is_empty());
}

#[test]
fn a_frame_tells_whether_its_layers_look_at_the_capture() {
    let mut names = Interner::new();
    let mut profile = Profile::with_concurrency(1);
    profile.add_decoder(DecoderBox::new(EthDecoder::new(&mut names)));
    let mut dispatcher = Dispatcher::new(&ExecType::ParallelSync, &profile);

    let mut frame = ethernet_frame(&mut names, 0, ipv4_over_ethernet());
    assert!(frame.zero_copy());
    dispatcher.process_frame(&mut frame);
    assert_eq!(frame.layers().len(), 2);
    assert!(frame.zero_copy());

    let class = Arc::new(LayerClass::builder(names.intern("copy")).build());
    let mut copy = vec![Layer::new(class, Slice::from_vec(ipv4_over_ethernet())).build()];
    frame.append_layers(&mut copy);
    assert!(!frame.zero_copy());

    let mut empty = ethernet_frame(&mut names, 1, ipv4_over_ethernet());
    assert_eq!(empty.take_layers().len(), 1);
    assert!(empty.layers().is_empty());
    assert!(empty.zero_copy());
}
