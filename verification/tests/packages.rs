use genet::decoder::{DecoderBox, ExecType};
use genet::dispatcher::Dispatcher;
use genet::eth::EthDecoder;
use genet::frame::Frame;
use genet::ipv4::Ipv4Decoder;
use genet::layer::{Layer, LayerClass};
use genet::ntp::NtpDecoder;
use genet::slice::Slice;
use genet::tcp::TcpDecoder;
use std::sync::Arc;
use genet::link::{CaptureHeader, LinkClasses};
use genet::packages::{dissect_capture, profile};
use genet::profile::Profile;
use genet::token::Interner;
use genet::variant::Variant;

fn udp_ntp_over_ethernet() -> Vec<u8> {
    let mut bytes = vec![
        0x00, 0x11, 0x22, 0x33, 0x44, 0x55, 0x66, 0x77, 0x88, 0x99, 0xaa, 0xbb, 0x08, 0x00,
    ];
    bytes.extend_from_slice(&[
        0x45, 0x00, 0x00, 0x4c, 0, 0, 0, 0, 64, 0x11, 0, 0, 192, 168, 0, 1, 192, 168, 0, 2,
    ]);
    bytes.extend_from_slice(&[0, 123, 0, 123, 0, 56, 0, 0]);
    bytes.extend_from_slice(&[0x23; 48]);
    bytes
}

#[test]
fn the_decoders_of_the_library_make_a_profile() {
    let mut names = Interner::new();
    let p = profile(&mut names, 3);
    assert_eq!(p.concurrency(), 3);
    assert_eq!(p.decoders().len(), 4);
    assert!(names.find("eth").is_some());
    assert!(names.find("ipv4").is_some());
    assert!(names.find("tcp").is_some());
    assert!(names.find("ntp").is_some());
    for d in p.decoders() {
        assert_eq!(d.execution_type(), ExecType::ParallelSync);
    }
}

#[test]
fn a_capture_is_dissected_in_place() {
    let mut names = Interner::new();
    let p = profile(&mut names, 1);
    let mut dispatcher = Dispatcher::new(&ExecType::ParallelSync, &p);
    let link = LinkClasses::new(&mut names, 1);
    let bytes = udp_ntp_over_ethernet();
    let header = CaptureHeader {
        datalen: bytes.len() as u32,
        actlen: 1514,
        ts_sec: 10,
        ts_usec: 500_000,
    };
    let time = 10.5f64.to_bits();
    let frame = dissect_capture(&mut dispatcher, &link, 42, &header, bytes.clone(), time);

    assert_eq!(frame.index(), 42);
    assert_eq!(frame.data().to_vec(), bytes);
    let ids: Vec<String> = frame
        .layers()
        .iter()
        .map(|l| names.name(l.id()).unwrap())
        .collect();
    assert_eq!(ids, vec!["[link-1]", "eth", "ipv4"]);
    assert_eq!(frame.tree_indices(), &[1, 1, 0]);
    assert!(frame.zero_copy());
    for layer in frame.layers() {
        assert!(layer.data().shares(&frame.data()));
        assert!(layer.data().start() + layer.data().len() <= bytes.len());
        for payload in layer.payloads() {
            assert!(payload.data().shares(&frame.data()));
        }
    }
    let root = &frame.layers()[0];
    assert_eq!(
        root.attr(names.intern("link.length")).unwrap().try_get(root).unwrap(),
        Variant::UInt64(1514)
    );
    assert_eq!(
        frame.layers()[2].payloads()[0].id(),
        names.intern("@data:udp")
    );
}

#[test]
fn a_frame_is_dissected_from_its_first_layer() {
    let mut names = Interner::new();
    let mut p = Profile::with_concurrency(1);
    p.add_decoder(EthDecoder::new(&mut names).boxed());
    p.add_decoder(DecoderBox::from_box(Box::new(EthDecoder::new(&mut names))));
    let mut dispatcher = Dispatcher::new(&ExecType::ParallelSync, &p);
    let link = LinkClasses::new(&mut names, 1);
    let header = CaptureHeader {
        datalen: 14,
        actlen: 14,
        ts_sec: 0,
        ts_usec: 0,
    };
    let root = link.frame_layer(&header, vec![0; 14], 0).build();
    let frame = dispatcher.dissect(9, root);
    assert_eq!(frame.index(), 9);
    assert_eq!(frame.layers().len(), 3);
    assert_eq!(frame.tree_indices(), &[2, 0, 0]);
    assert!(frame.zero_copy());
}

#[test]
fn decoders_boxed_for_a_table_of_names_decode_as_the_others() {
    let mut names = Interner::new();
    let mut p = Profile::with_concurrency(1);
    p.add_decoder(EthDecoder::new(&mut names).boxed_in(&names));
    p.add_decoder(Ipv4Decoder::new(&mut names).boxed_in(&names));
    p.add_decoder(TcpDecoder::new(&mut names).boxed_in(&names));
    p.add_decoder(NtpDecoder::new(&mut names).boxed_in(&names));
    for d in p.decoders() {
        assert_eq!(d.execution_type(), ExecType::ParallelSync);
    }
    let mut dispatcher = Dispatcher::new(&ExecType::ParallelSync, &p);

    let mut bytes = vec![0u8; 12];
    bytes.extend_from_slice(&[0x08, 0x00]);
    bytes.extend_from_slice(&[
        0x45, 0x00, 0x00, 0x28, 0, 0, 0, 0, 0x40, 0x06, 0, 0, 10, 0, 0, 1, 10, 0, 0, 2,
    ]);
    bytes.extend_from_slice(&[
        0x01, 0xbb, 0xc0, 0x01, 0, 0, 0, 1, 0, 0, 0, 2, 0x50, 0x18, 0xff, 0xff, 0, 0, 0, 0,
    ]);
    let class = Arc::new(LayerClass::builder(names.intern("[link-1]")).build());
    let mut frame = Frame::new(0, Layer::new(class, Slice::from_vec(bytes)).build());
    dispatcher.process_frame(&mut frame);
    let ids: Vec<_> = frame.layers().iter().map(|l| l.id()).collect();
    assert_eq!(
        ids,
        vec![
            names.intern("[link-1]"),
            names.intern("eth"),
            names.intern("ipv4"),
            names.intern("tcp"),
        ]
    );
    assert_eq!(frame.tree_indices(), &[1, 1, 1, 0]);
    assert!(frame.zero_copy());
}
