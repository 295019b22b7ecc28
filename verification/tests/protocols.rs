use genet::attr::{Attr, AttrClass};
use genet::cast::Cast;
use genet::context::Context;
use genet::decoder::{Decoder, DecoderBox, ExecType, Status, Worker};
use genet::dispatcher::Dispatcher;
use genet::error::ErrorKind;
use genet::eth::{EthClasses, EthDecoder, EthWorker};
use genet::frame::Frame;
use genet::ipv4::{Ipv4Classes, Ipv4Decoder, Ipv4Worker};
use genet::layer::{Layer, LayerClass, LayerProxy, LayerStack, Payload};
use genet::ntp::{NtpClasses, NtpDecoder, NtpWorker};
use genet::profile::Profile;
use genet::slice::Slice;
use genet::tcp::{TcpClasses, TcpDecoder, TcpWorker};
use genet::token::{Interner, Token};
use genet::variant::Variant;
use std::sync::Arc;

fn ethernet(ether_type: [u8; 2], payload: &[u8]) -> Vec<u8> {
    let mut bytes = vec![
        0x00, 0x11, 0x22, 0x33, 0x44, 0x55, 0x66, 0x77, 0x88, 0x99, 0xaa, 0xbb,
    ];
    bytes.extend_from_slice(&ether_type);
    bytes.extend_from_slice(payload);
    bytes
}

fn ipv4(protocol: u8, payload: &[u8]) -> Vec<u8> {
    let mut bytes = vec![
        0x45, 0x00, 0x00, 0x28, 0x12, 0x34, 0x40, 0x00, 0x40, protocol, 0xab, 0xcd, 10, 0, 0, 1,
        10, 0, 0, 2,
    ];
    bytes.extend_from_slice(payload);
    bytes
}

fn tcp(options: &[u8], payload: &[u8]) -> Vec<u8> {
    assert_eq!(options.len() % 4, 0);
    let words = (5 + options.len() / 4) as u8;
    let mut bytes = vec![
        0x01, 0xbb, 0xc0, 0x01, 0, 0, 0, 1, 0, 0, 0, 2, words << 4, 0x18, 0xff, 0xff, 0, 0, 0, 0,
    ];
    bytes.extend_from_slice(options);
    bytes.extend_from_slice(payload);
    bytes
}

fn link(names: &mut Interner, bytes: Vec<u8>) -> Layer {
    let class = Arc::new(LayerClass::builder(names.intern("[link-1]")).build());
    Layer::new(class, Slice::from_vec(bytes)).build()
}

fn with_payload(names: &mut Interner, name: &str, bytes: Vec<u8>) -> Layer {
    let class = Arc::new(LayerClass::builder(names.intern("carrier")).build());
    let data = Slice::from_vec(bytes);
    let mut layer = Layer::new(class, data).build();
    layer.add_payload(Payload::new(data, names.intern(name)));
    layer
}

fn decode(worker: &mut dyn Worker, layer: &mut Layer) -> Result<Status, genet::error::Error> {
    let mut ctx = Context::new(Vec::new());
    let mut proxy = LayerProxy::from_mut_ref(layer);
    let answer = worker.decode(&mut ctx, &LayerStack::empty(), &mut proxy);
    let (attrs, payloads, children) = proxy.into_parts();
    assert!(attrs.is_empty() && payloads.is_empty() && children.is_empty());
    answer
}

fn one_child(answer: Result<Status, genet::error::Error>) -> Layer {
    match answer.unwrap() {
        Status::Done(mut children) => {
            assert_eq!(children.len(), 1);
            children.pop().unwrap()
        }
        Status::Skip => panic!("skipped"),
    }
}

fn is_skip(answer: Result<Status, genet::error::Error>) -> bool {
    matches!(answer, Ok(Status::Skip))
}

fn attr_names(names: &Interner, layer: &Layer) -> Vec<String> {
    layer
        .attrs()
        .iter()
        .map(|a| names.name(a.id()).unwrap())
        .collect()
}

#[test]
fn ethernet_with_a_known_type() {
    let mut names = Interner::new();
    let mut worker = EthWorker::new(EthClasses::new(&mut names)).unwrap();
    let bytes = ethernet([0x08, 0x00], &[1, 2, 3]);
    let mut layer = link(&mut names, bytes.clone());
    let eth = one_child(decode(&mut worker, &mut layer));

    assert_eq!(eth.id(), names.intern("eth"));
    assert_eq!(eth.data().to_vec(), bytes);
    assert_eq!(attr_names(&names, &eth), vec!["eth.type", "eth.type.ipv4"]);
    assert_eq!(eth.attrs()[0].range(), 12..14);
    assert_eq!(eth.attrs()[0].typ(), names.intern("@enum"));
    assert_eq!(eth.attrs()[0].try_get(&eth).unwrap(), Variant::UInt64(0x0800));
    assert_eq!(eth.attrs()[1].range(), 12..14);
    assert_eq!(eth.attrs()[1].typ(), names.intern("@novalue"));
    assert_eq!(eth.attrs()[1].try_get(&eth).unwrap(), Variant::Bool(true));
    assert_eq!(eth.payloads().len(), 1);
    assert_eq!(eth.payloads()[0].id(), names.intern("@data:ipv4"));
    assert_eq!(eth.payloads()[0].typ(), Token::null());
    assert_eq!(eth.payloads()[0].data().to_vec(), vec![1, 2, 3]);
    assert_eq!(eth.payloads()[0].data().start(), 14);
    assert!(eth.payloads()[0].data().shares(&layer.data()));
    assert!(eth.data().shares(&layer.data()));
}

#[test]
fn ethernet_headers_and_aliases() {
    let mut names = Interner::new();
    let mut worker = EthWorker::new(EthClasses::new(&mut names)).unwrap();
    let mut layer = link(&mut names, ethernet([0x86, 0xdd], &[]));
    let eth = one_child(decode(&mut worker, &mut layer));

    let src = eth.attr(names.intern("_.src")).unwrap();
    assert_eq!(src.id(), names.intern("eth.src"));
    assert_eq!(src.typ(), names.intern("@eth:mac"));
    assert_eq!(src.range(), 0..6);
    assert_eq!(
        src.try_get(&eth).unwrap().to_slice().unwrap().to_vec(),
        vec![0x00, 0x11, 0x22, 0x33, 0x44, 0x55]
    );
    let dst = eth.attr(names.intern("_.dst")).unwrap();
    assert_eq!(dst.id(), names.intern("eth.dst"));
    assert_eq!(dst.range(), 6..12);
    assert_eq!(
        eth.attr(names.intern("eth.src")).unwrap().range(),
        src.range()
    );
    assert_eq!(attr_names(&names, &eth), vec!["eth.type", "eth.type.ipv6"]);
    assert_eq!(eth.payloads()[0].id(), names.intern("@data:ipv6"));
    assert!(eth.payloads()[0].data().is_empty());
}

#[test]
fn ethernet_with_a_length() {
    let mut names = Interner::new();
    let mut worker = EthWorker::new(EthClasses::new(&mut names)).unwrap();
    let mut layer = link(&mut names, ethernet([0x05, 0xdc], &[9; 4]));
    let eth = one_child(decode(&mut worker, &mut layer));
    assert_eq!(attr_names(&names, &eth), vec!["eth.len"]);
    assert_eq!(eth.attrs()[0].try_get(&eth).unwrap(), Variant::UInt64(1500));
    assert!(eth.payloads().is_empty());

    let mut layer = link(&mut names, ethernet([0x05, 0xdd], &[9; 4]));
    let eth = one_child(decode(&mut worker, &mut layer));
    assert_eq!(attr_names(&names, &eth), vec!["eth.type"]);
    assert!(eth.payloads().is_empty());
}

#[test]
fn ethernet_skips_other_layers() {
    let mut names = Interner::new();
    let mut worker = EthWorker::new(EthClasses::new(&mut names)).unwrap();
    let mut layer = with_payload(&mut names, "@data:ipv4", ethernet([8, 0], &[]));
    assert!(is_skip(decode(&mut worker, &mut layer)));
}

#[test]
fn ethernet_needs_its_classes_to_read_numbers() {
    let mut names = Interner::new();
    let mut classes = EthClasses::new(&mut names);
    classes.len = Arc::new(AttrClass::builder(Token::from(1)).cast(Cast::Bytes).build());
    assert!(EthWorker::new(classes).is_none());
}

#[test]
fn ipv4_with_a_known_protocol() {
    let mut names = Interner::new();
    let mut worker = Ipv4Worker::new(Ipv4Classes::new(&mut names)).unwrap();
    let bytes = ipv4(6, &[7, 7]);
    let mut layer = with_payload(&mut names, "@data:ipv4", bytes.clone());
    let ip = one_child(decode(&mut worker, &mut layer));

    assert_eq!(ip.id(), names.intern("ipv4"));
    assert_eq!(ip.data().to_vec(), bytes);
    assert_eq!(attr_names(&names, &ip), vec!["ipv4.protocol.tcp"]);
    assert_eq!(ip.attrs()[0].range(), 9..10);
    assert_eq!(ip.payloads().len(), 1);
    assert_eq!(ip.payloads()[0].id(), names.intern("@data:tcp"));
    assert_eq!(ip.payloads()[0].data().to_vec(), vec![7, 7]);
    assert!(ip.payloads()[0].data().shares(&layer.data()));
}

#[test]
fn ipv4_header_fields() {
    let mut names = Interner::new();
    let mut worker = Ipv4Worker::new(Ipv4Classes::new(&mut names)).unwrap();
    let mut layer = with_payload(&mut names, "@data:ipv4", ipv4(0x11, &[]));
    let ip = one_child(decode(&mut worker, &mut layer));
    let value = |name: &str, names: &mut Interner| {
        ip.attr(names.intern(name)).unwrap().try_get(&ip).unwrap()
    };
    assert_eq!(ip.headers().len(), 15);
    assert_eq!(value("ipv4.version", &mut names), Variant::UInt64(4));
    assert_eq!(value("ipv4.headerLength", &mut names), Variant::UInt64(5));
    assert_eq!(value("ipv4.tos", &mut names), Variant::UInt64(0));
    assert_eq!(value("ipv4.totalLength", &mut names), Variant::UInt64(40));
    assert_eq!(value("ipv4.id", &mut names), Variant::UInt64(0x1234));
    assert_eq!(value("ipv4.flags", &mut names), Variant::UInt64(2));
    assert_eq!(value("ipv4.flags.reserved", &mut names), Variant::Bool(false));
    assert_eq!(
        value("ipv4.flags.dontFragment", &mut names),
        Variant::Bool(true)
    );
    assert_eq!(
        value("ipv4.flags.moreFragments", &mut names),
        Variant::Bool(false)
    );
    assert_eq!(value("ipv4.fragmentOffset", &mut names), Variant::UInt64(0));
    assert_eq!(value("ipv4.ttl", &mut names), Variant::UInt64(64));
    assert_eq!(value("ipv4.protocol", &mut names), Variant::UInt64(17));
    assert_eq!(value("ipv4.checksum", &mut names), Variant::UInt64(0xabcd));
    assert_eq!(
        value("_.src", &mut names).to_slice().unwrap().to_vec(),
        vec![10, 0, 0, 1]
    );
    assert_eq!(
        value("ipv4.dst", &mut names).to_slice().unwrap().to_vec(),
        vec![10, 0, 0, 2]
    );
    assert_eq!(ip.payloads()[0].id(), names.intern("@data:udp"));
}

#[test]
fn ipv4_with_an_unknown_protocol() {
    let mut names = Interner::new();
    let mut worker = Ipv4Worker::new(Ipv4Classes::new(&mut names)).unwrap();
    let mut layer = with_payload(&mut names, "@data:ipv4", vec![0x45; 10]);
    match decode(&mut worker, &mut layer).unwrap() {
        Status::Done(children) => assert!(children.is_empty()),
        Status::Skip => panic!("skipped"),
    }
    let mut whole = with_payload(&mut names, "@data:ipv4", ipv4(0xff, &[1, 2, 3]));
    match decode(&mut worker, &mut whole).unwrap() {
        Status::Done(children) => assert!(children.is_empty()),
        Status::Skip => panic!("skipped"),
    }
}

#[test]
fn ipv4_errors_and_skips() {
    let mut names = Interner::new();
    let mut worker = Ipv4Worker::new(Ipv4Classes::new(&mut names)).unwrap();

    let mut other = with_payload(&mut names, "@data:ipv6", ipv4(6, &[]));
    assert!(is_skip(decode(&mut worker, &mut other)));

    let mut short = with_payload(&mut names, "@data:ipv4", vec![0x45; 9]);
    assert_eq!(
        decode(&mut worker, &mut short).unwrap_err().kind(),
        ErrorKind::Bounds
    );

    let mut cut = ipv4(6, &[]);
    cut.truncate(19);
    let mut cut = with_payload(&mut names, "@data:ipv4", cut);
    assert_eq!(
        decode(&mut worker, &mut cut).unwrap_err().kind(),
        ErrorKind::Bounds
    );
}

#[test]
fn tcp_with_options() {
    let mut names = Interner::new();
    let mut worker = TcpWorker::new(TcpClasses::new(&mut names)).unwrap();
    let options = [2, 4, 0x05, 0xb4, 1, 3, 3, 7, 4, 2, 0, 0];
    let bytes = tcp(&options, &[0xee, 0xff]);
    let mut layer = with_payload(&mut names, "@data:tcp", bytes.clone());
    let segment = one_child(decode(&mut worker, &mut layer));

    assert_eq!(segment.id(), names.intern("tcp"));
    assert_eq!(
        attr_names(&names, &segment),
        vec![
            "tcp.options.mss",
            "tcp.options.nop",
            "tcp.options.scale",
            "tcp.options.selectiveAckPermitted"
        ]
    );
    let ranges: Vec<_> = segment.attrs().iter().map(|a| a.range()).collect();
    assert_eq!(ranges, vec![20..24, 24..25, 25..28, 28..30]);
    assert_eq!(
        segment.attrs()[0].try_get(&segment).unwrap(),
        Variant::UInt64(1460)
    );
    assert_eq!(
        segment.attrs()[2].try_get(&segment).unwrap(),
        Variant::UInt64(7)
    );
    assert_eq!(segment.payloads().len(), 1);
    assert_eq!(segment.payloads()[0].id(), names.intern("@data:tcp"));
    assert_eq!(segment.payloads()[0].data().to_vec(), vec![0xee, 0xff]);
    assert_eq!(segment.payloads()[0].data().start(), 32);
    assert_eq!(
        segment
            .attr(names.intern("tcp.dataOffset"))
            .unwrap()
            .try_get(&segment)
            .unwrap(),
        Variant::UInt64(8)
    );
    assert_eq!(
        segment
            .attr(names.intern("tcp.src"))
            .unwrap()
            .try_get(&segment)
            .unwrap(),
        Variant::UInt64(443)
    );
    assert_eq!(
        segment
            .attr(names.intern("tcp.flags.psh"))
            .unwrap()
            .try_get(&segment)
            .unwrap(),
        Variant::Bool(true)
    );
    assert_eq!(
        segment
            .attr(names.intern("tcp.flags.syn"))
            .unwrap()
            .try_get(&segment)
            .unwrap(),
        Variant::Bool(false)
    );
}

#[test]
fn tcp_with_time_stamps() {
    let mut names = Interner::new();
    let mut worker = TcpWorker::new(TcpClasses::new(&mut names)).unwrap();
    let options = [1, 1, 8, 10, 0, 0, 0, 9, 0, 0, 0, 5];
    let mut layer = with_payload(&mut names, "@data:tcp", tcp(&options, &[1]));
    let segment = one_child(decode(&mut worker, &mut layer));
    assert_eq!(
        attr_names(&names, &segment),
        vec![
            "tcp.options.nop",
            "tcp.options.nop",
            "tcp.options.ts",
            "tcp.options.ts.my",
            "tcp.options.ts.echo"
        ]
    );
    let ranges: Vec<_> = segment.attrs().iter().map(|a| a.range()).collect();
    assert_eq!(ranges, vec![20..21, 21..22, 22..32, 24..28, 28..32]);
    assert_eq!(
        segment.attrs()[3].try_get(&segment).unwrap(),
        Variant::UInt64(9)
    );
    assert_eq!(
        segment.attrs()[4].try_get(&segment).unwrap(),
        Variant::UInt64(5)
    );
}

#[test]
fn tcp_without_options() {
    let mut names = Interner::new();
    let mut worker = TcpWorker::new(TcpClasses::new(&mut names)).unwrap();
    let mut layer = with_payload(&mut names, "@data:tcp", tcp(&[], &[]));
    let segment = one_child(decode(&mut worker, &mut layer));
    assert!(segment.attrs().is_empty());
    assert!(segment.payloads()[0].data().is_empty());
    assert_eq!(segment.headers().len(), 19);
}

#[test]
fn tcp_errors_and_skips() {
    let mut names = Interner::new();
    let mut worker = TcpWorker::new(TcpClasses::new(&mut names)).unwrap();

    let mut other = with_payload(&mut names, "@data:udp", tcp(&[], &[]));
    assert!(is_skip(decode(&mut worker, &mut other)));

    let mut short = with_payload(&mut names, "@data:tcp", vec![0; 12]);
    assert_eq!(
        decode(&mut worker, &mut short).unwrap_err().kind(),
        ErrorKind::Bounds
    );

    let mut endless = with_payload(&mut names, "@data:tcp", tcp(&[5, 0, 0, 0], &[]));
    assert_eq!(
        decode(&mut worker, &mut endless).unwrap_err().kind(),
        ErrorKind::Decode
    );

    let mut cut = tcp(&[1, 1, 1, 1], &[]);
    cut.truncate(22);
    let mut cut = with_payload(&mut names, "@data:tcp", cut);
    assert_eq!(
        decode(&mut worker, &mut cut).unwrap_err().kind(),
        ErrorKind::Bounds
    );

    let mut long = tcp(&[], &[]);
    long[12] = 0xf0;
    let mut long = with_payload(&mut names, "@data:tcp", long);
    assert_eq!(
        decode(&mut worker, &mut long).unwrap_err().kind(),
        ErrorKind::Bounds
    );
}

fn udp(names: &mut Interner, src: u16, dst: u16, payload: Vec<u8>) -> Layer {
    let port = |name: &str, at: usize, names: &mut Interner| {
        Attr::new(
            Arc::new(
                AttrClass::builder(names.intern(name))
                    .cast(Cast::uint16be())
                    .build(),
            ),
            at..at + 2,
        )
    };
    let class = Arc::new(
        LayerClass::builder(names.intern("udp"))
            .header(port("udp.src", 0, names))
            .header(port("udp.dst", 2, names))
            .build(),
    );
    let mut bytes = vec![(src >> 8) as u8, src as u8, (dst >> 8) as u8, dst as u8, 0, 0, 0, 0];
    bytes.extend_from_slice(&payload);
    let data = Slice::from_vec(bytes);
    let mut layer = Layer::new(class, data).build();
    layer.add_payload(Payload::new(data.skip(8).unwrap(), names.intern("@data:ntp")));
    layer
}

fn ntp(first: u8, stratum: u8) -> Vec<u8> {
    let mut bytes = vec![0u8; 48];
    bytes[0] = first;
    bytes[1] = stratum;
    bytes
}

#[test]
fn ntp_from_a_server() {
    let mut names = Interner::new();
    let mut worker = NtpWorker {
        classes: NtpClasses::new(&mut names),
    };
    let mut layer = udp(&mut names, 123, 50000, ntp(0b01_100_100, 2));
    let packet = one_child(decode(&mut worker, &mut layer));
    assert_eq!(packet.id(), names.intern("ntp"));
    assert_eq!(packet.data().len(), 48);
    assert_eq!(
        attr_names(&names, &packet),
        vec![
            "ntp.leapIndicator.sec61",
            "ntp.mode.server",
            "ntp.identifier"
        ]
    );
    assert_eq!(packet.attrs()[0].range(), 0..1);
    assert_eq!(packet.attrs()[1].range(), 0..1);
    assert_eq!(packet.attrs()[2].range(), 12..16);
    assert_eq!(packet.attrs()[2].typ(), names.intern("@ipv4:addr"));
    assert_eq!(packet.headers().len(), 24);
    let value = |name: &str, names: &mut Interner| {
        packet
            .attr(names.intern(name))
            .unwrap()
            .try_get(&packet)
            .unwrap()
    };
    assert_eq!(value("ntp.leapIndicator", &mut names), Variant::UInt64(1));
    assert_eq!(value("ntp.version", &mut names), Variant::UInt64(4));
    assert_eq!(value("ntp.mode", &mut names), Variant::UInt64(4));
    assert_eq!(value("ntp.stratum", &mut names), Variant::UInt64(2));
}

#[test]
fn ntp_to_a_server_of_the_first_stratum() {
    let mut names = Interner::new();
    let mut worker = NtpWorker {
        classes: NtpClasses::new(&mut names),
    };
    let mut layer = udp(&mut names, 50000, 123, ntp(0b11_011_011, 1));
    let packet = one_child(decode(&mut worker, &mut layer));
    assert_eq!(
        attr_names(&names, &packet),
        vec![
            "ntp.leapIndicator.unknown",
            "ntp.mode.client",
            "ntp.identifier"
        ]
    );
    assert_eq!(packet.attrs()[2].typ(), Token::null());
}

#[test]
fn ntp_errors_and_skips() {
    let mut names = Interner::new();
    let mut worker = NtpWorker {
        classes: NtpClasses::new(&mut names),
    };

    let mut other_port = udp(&mut names, 124, 122, ntp(0, 0));
    assert!(is_skip(decode(&mut worker, &mut other_port)));

    let mut not_udp = with_payload(&mut names, "@data:ntp", ntp(0, 0));
    assert!(is_skip(decode(&mut worker, &mut not_udp)));

    let mut short = udp(&mut names, 123, 123, vec![0]);
    assert_eq!(
        decode(&mut worker, &mut short).unwrap_err().kind(),
        ErrorKind::Bounds
    );

    let class = Arc::new(LayerClass::builder(names.intern("udp")).build());
    let mut bare = Layer::new(class.clone(), Slice::from_vec(ntp(0, 0))).build();
    assert!(is_skip(decode(&mut worker, &mut bare)));
    bare.add_payload(Payload::new(Slice::new(), Token::null()));
    assert_eq!(
        decode(&mut worker, &mut bare).unwrap_err().kind(),
        ErrorKind::Decode
    );
}

#[test]
fn a_whole_frame_is_dissected_without_a_copy() {
    let mut names = Interner::new();
    let mut profile = Profile::with_concurrency(1);
    profile.add_decoder(DecoderBox::new(TcpDecoder::new(&mut names)));
    profile.add_decoder(DecoderBox::new(Ipv4Decoder::new(&mut names)));
    profile.add_decoder(DecoderBox::new(EthDecoder::new(&mut names)));
    profile.add_decoder(DecoderBox::new(NtpDecoder::new(&mut names)));
    let mut dispatcher = Dispatcher::new(&ExecType::ParallelSync, &profile);

    let bytes = ethernet([0x08, 0x00], &ipv4(6, &tcp(&[1, 1, 1, 1], &[0x47, 0x45, 0x54])));
    let mut frame = Frame::new(1, link(&mut names, bytes.clone()));
    dispatcher.process_frame(&mut frame);

    let ids: Vec<String> = frame
        .layers()
        .iter()
        .map(|l| names.name(l.id()).unwrap())
        .collect();
    assert_eq!(ids, vec!["[link-1]", "eth", "ipv4", "tcp"]);
    assert_eq!(frame.tree_indices(), &[1, 1, 1, 0]);
    assert!(frame.zero_copy());
    assert_eq!(frame.data().to_vec(), bytes);
    let starts: Vec<usize> = frame.layers().iter().map(|l| l.data().start()).collect();
    assert_eq!(starts, vec![0, 0, 14, 34]);
    assert_eq!(frame.layers()[3].payloads()[0].data().to_vec(), b"GET");
    assert_eq!(frame.layers()[3].payloads()[0].data().start(), 58);
    assert_eq!(
        frame.attr(names.intern("_.src")).unwrap().id(),
        names.intern("ipv4.src")
    );
    assert_eq!(
        frame.attr(names.intern("eth.src")).unwrap().range(),
        0..6
    );
    assert!(frame.attr(names.intern("udp.src")).is_none());
}

#[test]
fn a_frame_with_a_copied_layer_is_told_apart() {
    let mut names = Interner::new();
    let root = link(&mut names, vec![1, 2, 3]);
    let copy = link(&mut names, vec![1, 2, 3]);
    let mut frame = Frame::new(0, root);
    assert!(frame.zero_copy());
    frame.append_layers(&mut vec![copy]);
    frame.append_tree_indices(&mut vec![1, 0]);
    assert_eq!(frame.layers().len(), 2);
    assert_eq!(frame.tree_indices(), &[1, 0]);
    assert!(!frame.zero_copy());
}

#[test]
fn decoders_run_in_the_parallel_phase() {
    let mut names = Interner::new();
    assert_eq!(
        EthDecoder::new(&mut names).execution_type(),
        ExecType::ParallelSync
    );
    let mut boxed = DecoderBox::new(Ipv4Decoder::new(&mut names));
    assert_eq!(boxed.execution_type(), ExecType::ParallelSync);
    let copy = boxed.clone();
    assert_eq!(copy.execution_type(), ExecType::ParallelSync);
    let ctx = Context::new(Vec::new());
    let mut worker = boxed.new_worker(&ctx);
    let mut layer = with_payload(&mut names, "@data:ipv4", ipv4(1, &[]));
    let mut proxy = LayerProxy::from_mut_ref(&mut layer);
    let mut results = Vec::new();
    let mut ctx = Context::new(Vec::new());
    let claimed = worker
        .decode(&mut ctx, &LayerStack::empty(), &mut proxy, &mut results)
        .unwrap();
    assert!(claimed);
    assert_eq!(results.len(), 1);
    assert_eq!(results[0].payloads()[0].id(), names.intern("@data:icmp"));
}
