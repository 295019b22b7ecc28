use genet::attr::{Attr, AttrClass};
use genet::context::Context;
use genet::decoder::{Decoder, DecoderBox, ExecType, Status, Worker, WorkerBox, MAX_CHILDREN};
use genet::dispatcher::{Dispatcher, OnceRunner, Runner, MAX_FANOUT};
use genet::error::Error;
use genet::frame::Frame;
use genet::layer::{Layer, LayerClass, LayerProxy, LayerStack};
use genet::profile::Profile;
use genet::slice::Slice;
use genet::token::Token;
use std::sync::{Arc, Mutex};

fn layer(id: u64) -> Layer {
    let class = Arc::new(LayerClass::builder(Token::from(id)).build());
    Layer::new(class, Slice::new()).build()
}

fn mark(id: u64) -> Attr {
    Attr::new(Arc::new(AttrClass::builder(Token::from(id)).build()), 0..0)
}

/// What a scripted worker saw: the class of the layer and the classes on the stack.
type Log = Arc<Mutex<Vec<(u64, Vec<u64>)>>>;

/// Claims the layers of one class and answers layers of the given classes.
#[derive(Clone)]
struct Script {
    claims: u64,
    children: Vec<u64>,
    phase: ExecType,
    log: Log,
}

impl Script {
    fn new(claims: u64, children: Vec<u64>) -> Script {
        Script {
            claims,
            children,
            phase: ExecType::ParallelSync,
            log: Arc::new(Mutex::new(Vec::new())),
        }
    }
}

impl Worker for Script {
    fn decode(
        &mut self,
        _ctx: &mut Context,
        stack: &LayerStack,
        layer: &mut LayerProxy,
    ) -> Result<Status, Error> {
        let mut above = Vec::new();
        if let Some(bottom) = stack.bottom() {
            above.push(bottom.id().index());
        }
        if stack.len() > 1 {
            above.push(stack.top().unwrap().id().index());
        }
        self.log
            .lock()
            .unwrap()
            .push((layer.id().index(), above));
        if layer.id() == Token::from(self.claims) {
            Ok(Status::Done(
                self.children.iter().map(|id| layer_of(*id)).collect(),
            ))
        } else {
            Ok(Status::Skip)
        }
    }
}

fn layer_of(id: u64) -> Layer {
    layer(id)
}

impl Decoder for Script {
    fn new_worker(&self, _ctx: &Context) -> WorkerBox {
        WorkerBox::new(Box::new(self.clone()))
    }

    fn execution_type(&self) -> ExecType {
        self.phase
    }
}

fn dispatcher(scripts: &[Script]) -> Dispatcher {
    let mut profile = Profile::with_concurrency(1);
    for s in scripts {
        profile.add_decoder(DecoderBox::new(s.clone()));
    }
    Dispatcher::new(&ExecType::ParallelSync, &profile)
}

fn ids(frame: &Frame) -> Vec<u64> {
    frame.layers().iter().map(|l| l.id().index()).collect()
}

#[test]
fn layers_are_laid_out_level_by_level() {
    let scripts = [
        Script::new(1, vec![2, 5]),
        Script::new(2, vec![3]),
        Script::new(5, vec![6, 7]),
        Script::new(3, vec![4, 4, 4]),
    ];
    let mut d = dispatcher(&scripts);
    let mut frame = Frame::new(0, layer(1));
    d.process_frame(&mut frame);

    assert_eq!(ids(&frame), vec![1, 2, 5, 3, 6, 7, 4, 4, 4]);
    assert_eq!(frame.tree_indices(), &[2, 1, 2, 3, 0, 0, 0, 0, 0]);
    assert_eq!(frame.roots(), Some(1));
}

#[test]
fn the_tree_comes_back_from_the_numbers_of_children() {
    let scripts = [
        Script::new(1, vec![2, 5]),
        Script::new(2, vec![3]),
        Script::new(5, vec![6, 7]),
        Script::new(3, vec![4, 4, 4]),
    ];
    let mut d = dispatcher(&scripts);
    let roots = vec![layer(1)];
    let e = d.expand(roots);

    assert_eq!(e.fanout(), &[2, 1, 2, 3, 0, 0, 0, 0, 0]);
    assert_eq!(
        e.parents(),
        &[
            None,
            Some(0),
            Some(0),
            Some(1),
            Some(2),
            Some(2),
            Some(3),
            Some(3),
            Some(3)
        ]
    );
    assert_eq!(e.claims(), 4);

    let mut frame = Frame::new(0, layer(1));
    dispatcher(&scripts).process_frame(&mut frame);
    for (j, parent) in e.parents().iter().enumerate() {
        assert_eq!(frame.parent(j), *parent);
    }
    assert_eq!(frame.children(0), Some((1, 3)));
    assert_eq!(frame.children(1), Some((3, 4)));
    assert_eq!(frame.children(2), Some((4, 6)));
    assert_eq!(frame.children(3), Some((6, 9)));
    assert_eq!(frame.children(8), Some((9, 9)));
    assert_eq!(frame.children(9), None);
    let mut count = frame.roots().unwrap();
    for i in 0..frame.layers().len() {
        let (from, to) = frame.children(i).unwrap();
        assert_eq!(from, count);
        for j in from..to {
            assert_eq!(frame.parent(j), Some(i));
        }
        count = to;
    }
    assert_eq!(count, frame.layers().len());
    assert_eq!(frame.parent(9), None);
}

#[test]
fn a_frame_that_was_not_dissected_has_no_shape() {
    let frame = Frame::new(3, layer(1));
    assert_eq!(frame.index(), 3);
    assert_eq!(frame.layers().len(), 1);
    assert!(frame.tree_indices().is_empty());
    assert_eq!(frame.roots(), None);
    assert_eq!(frame.children(0), None);
}

#[test]
fn a_decoder_claims_one_layer_of_a_frame() {
    let script = Script::new(1, vec![1, 1]);
    let log = script.log.clone();
    let mut d = dispatcher(&[script]);
    let mut frame = Frame::new(0, layer(1));
    d.process_frame(&mut frame);

    assert_eq!(ids(&frame), vec![1, 1, 1]);
    assert_eq!(frame.tree_indices(), &[2, 0, 0]);
    assert_eq!(log.lock().unwrap().len(), 1);
}

#[test]
fn a_decoder_is_armed_again_for_the_next_frame() {
    let script = Script::new(1, vec![2]);
    let log = script.log.clone();
    let mut d = dispatcher(&[script]);
    for index in 0..3 {
        let mut frame = Frame::new(index, layer(1));
        d.process_frame(&mut frame);
        assert_eq!(ids(&frame), vec![1, 2]);
        assert_eq!(frame.tree_indices(), &[1, 0]);
    }
    assert_eq!(log.lock().unwrap().len(), 3);
}

#[test]
fn a_decoder_that_skips_is_asked_again() {
    let script = Script::new(3, vec![]);
    let log = script.log.clone();
    let scripts = [script, Script::new(1, vec![2, 3])];
    let mut d = dispatcher(&scripts);
    let mut frame = Frame::new(0, layer(1));
    d.process_frame(&mut frame);

    assert_eq!(ids(&frame), vec![1, 2, 3]);
    assert_eq!(frame.tree_indices(), &[2, 0, 0]);
    let seen: Vec<u64> = log.lock().unwrap().iter().map(|e| e.0).collect();
    assert_eq!(seen, vec![1, 1, 2, 3]);
}

#[test]
fn dissection_ends_when_a_level_has_no_children() {
    let mut d = dispatcher(&[Script::new(9, vec![1])]);
    let mut frame = Frame::new(0, layer(1));
    d.process_frame(&mut frame);
    assert_eq!(ids(&frame), vec![1]);
    assert_eq!(frame.tree_indices(), &[0]);

    let mut none = dispatcher(&[]);
    let mut frame = Frame::new(0, layer(1));
    none.process_frame(&mut frame);
    assert_eq!(ids(&frame), vec![1]);
    assert_eq!(frame.tree_indices(), &[0]);
}

#[test]
fn the_stack_holds_the_way_from_the_root() {
    let deep = Script::new(4, vec![]);
    let log = deep.log.clone();
    let scripts = [
        Script::new(1, vec![2, 3]),
        Script::new(3, vec![4]),
        deep,
    ];
    let mut d = dispatcher(&scripts);
    let mut frame = Frame::new(0, layer(1));
    d.process_frame(&mut frame);
    assert_eq!(ids(&frame), vec![1, 2, 3, 4]);

    let log = log.lock().unwrap();
    let last = log.last().unwrap();
    assert_eq!(last.0, 4);
    assert_eq!(last.1, vec![1, 3]);
    let first = log.first().unwrap();
    assert_eq!(first.0, 1);
    assert!(first.1.is_empty());
}

#[test]
fn a_decoder_of_another_phase_is_not_run() {
    let mut serial = Script::new(1, vec![2]);
    serial.phase = ExecType::SerialSync;
    let log = serial.log.clone();
    let mut d = dispatcher(&[serial.clone()]);
    let mut frame = Frame::new(0, layer(1));
    d.process_frame(&mut frame);
    assert_eq!(ids(&frame), vec![1]);
    assert!(log.lock().unwrap().is_empty());

    let mut profile = Profile::with_concurrency(1);
    profile.add_decoder(DecoderBox::new(serial));
    let mut d = Dispatcher::new(&ExecType::SerialSync, &profile);
    let mut frame = Frame::new(0, layer(1));
    d.process_frame(&mut frame);
    assert_eq!(ids(&frame), vec![1, 2]);
}

#[test]
fn more_children_than_a_call_may_hand_on_are_dropped() {
    assert_eq!(MAX_CHILDREN, 254);
    let mut d = dispatcher(&[Script::new(1, vec![2; 300])]);
    let mut frame = Frame::new(0, layer(1));
    d.process_frame(&mut frame);
    assert_eq!(frame.layers().len(), 255);
    assert_eq!(frame.tree_indices()[0], 254);
    assert_eq!(frame.roots(), Some(1));

    let mut exact = dispatcher(&[Script::new(1, vec![2; 254])]);
    let mut frame = Frame::new(0, layer(1));
    exact.process_frame(&mut frame);
    assert_eq!(frame.layers().len(), 255);
}

#[test]
fn a_layer_gets_at_most_255_children() {
    let scripts = [Script::new(1, vec![2; 200]), Script::new(1, vec![3; 200])];
    let mut d = dispatcher(&scripts);
    let e = d.expand(vec![layer(1)]);
    assert_eq!(e.fanout()[0], MAX_FANOUT);
    assert_eq!(e.layers().len(), 256);
    assert_eq!(e.layers()[200].id(), Token::from(2));
    assert_eq!(e.layers()[201].id(), Token::from(3));
    assert_eq!(e.layers()[255].id(), Token::from(3));
    assert_eq!(e.claims(), 2);

    let mut frame = Frame::new(0, layer(1));
    dispatcher(&scripts).process_frame(&mut frame);
    assert_eq!(frame.layers().len(), 256);
    assert_eq!(frame.tree_indices()[0], 255);
    assert_eq!(frame.tree_indices().len(), 256);
    assert_eq!(frame.roots(), Some(1));
    assert_eq!(frame.children(0), Some((1, 256)));
    assert_eq!(frame.parent(255), Some(0));
}

/// Fails on every layer.
#[derive(Clone)]
struct Failing {}

impl Worker for Failing {
    fn decode(
        &mut self,
        _ctx: &mut Context,
        _stack: &LayerStack,
        _layer: &mut LayerProxy,
    ) -> Result<Status, Error> {
        Err(Error::new("failed"))
    }
}

impl Decoder for Failing {
    fn new_worker(&self, _ctx: &Context) -> WorkerBox {
        WorkerBox::new(Box::new(self.clone()))
    }

    fn execution_type(&self) -> ExecType {
        ExecType::ParallelSync
    }
}

#[test]
fn an_error_of_the_first_decoder_leaves_the_child_of_the_second() {
    let mut profile = Profile::with_concurrency(1);
    profile.add_decoder(DecoderBox::new(Failing {}));
    profile.add_decoder(DecoderBox::new(Script::new(1, vec![2])));
    let mut d = Dispatcher::new(&ExecType::ParallelSync, &profile);
    let mut frame = Frame::new(0, layer(1));
    d.process_frame(&mut frame);
    assert_eq!(frame.layers().len(), 2);
    assert_eq!(frame.layers()[0].id(), Token::from(1));
    assert_eq!(frame.layers()[1].id(), Token::from(2));
    assert_eq!(frame.tree_indices(), &[1, 0]);
    assert_eq!(frame.parent(1), Some(0));
}

#[test]
fn runners_without_a_worker_leave_the_layers_alone() {
    let mut profile = Profile::with_concurrency(1);
    profile.add_decoder(DecoderBox::new(Script::new(1, vec![2])));
    let mut d = Dispatcher::new(&ExecType::SerialSync, &profile);
    let mut frame = Frame::new(3, layer(1));
    d.process_frame(&mut frame);
    assert_eq!(frame.index(), 3);
    assert_eq!(frame.layers().len(), 1);
    assert_eq!(frame.layers()[0].id(), Token::from(1));
    assert!(frame.layers()[0].attrs().is_empty());
    assert_eq!(frame.tree_indices(), &[0]);
}

/// Adds a mark to the layer and answers as told.
#[derive(Clone)]
struct Marker {
    mark: u64,
    answer: u8,
    needs: Option<u64>,
}

impl Worker for Marker {
    fn decode(
        &mut self,
        _ctx: &mut Context,
        _stack: &LayerStack,
        layer: &mut LayerProxy,
    ) -> Result<Status, Error> {
        if let Some(needed) = self.needs {
            if layer.attr(Token::from(needed)).is_none() {
                return Ok(Status::Skip);
            }
        }
        layer.add_attr(mark(self.mark));
        match self.answer {
            0 => Ok(Status::Done(vec![])),
            1 => Ok(Status::Skip),
            _ => Err(Error::new("failed")),
        }
    }
}

impl Decoder for Marker {
    fn new_worker(&self, _ctx: &Context) -> WorkerBox {
        WorkerBox::new(Box::new(self.clone()))
    }

    fn execution_type(&self) -> ExecType {
        ExecType::ParallelSync
    }
}

fn marks(markers: Vec<Marker>) -> Vec<u64> {
    let mut profile = Profile::with_concurrency(1);
    for m in markers {
        profile.add_decoder(DecoderBox::new(m));
    }
    let mut d = Dispatcher::new(&ExecType::ParallelSync, &profile);
    let mut frame = Frame::new(0, layer(1));
    d.process_frame(&mut frame);
    assert_eq!(frame.layers().len(), 1);
    frame.layers()[0]
        .attrs()
        .iter()
        .map(|a| a.id().index())
        .collect()
}

#[test]
fn what_a_claiming_worker_added_is_kept() {
    let done = Marker {
        mark: 7,
        answer: 0,
        needs: None,
    };
    assert_eq!(marks(vec![done]), vec![7]);
}

#[test]
fn what_a_skipping_or_failing_worker_added_is_dropped() {
    let skip = Marker {
        mark: 7,
        answer: 1,
        needs: None,
    };
    let fail = Marker {
        mark: 8,
        answer: 2,
        needs: None,
    };
    assert_eq!(marks(vec![skip, fail]), Vec::<u64>::new());
}

#[test]
fn a_layer_is_looked_at_again_after_a_claim() {
    let second = Marker {
        mark: 8,
        answer: 0,
        needs: Some(7),
    };
    let first = Marker {
        mark: 7,
        answer: 0,
        needs: None,
    };
    assert_eq!(marks(vec![second, first]), vec![7, 8]);
}

#[test]
fn a_failing_decoder_does_not_stop_the_others() {
    let fail = Marker {
        mark: 8,
        answer: 2,
        needs: None,
    };
    let done = Marker {
        mark: 9,
        answer: 0,
        needs: None,
    };
    assert_eq!(marks(vec![fail, done]), vec![9]);
}

#[test]
fn a_used_runner_is_not_run_again() {
    let script = Script::new(1, vec![2]);
    let log = script.log.clone();
    let runner = Runner::new(
        &ExecType::ParallelSync,
        Context::new(Vec::new()),
        DecoderBox::new(script),
    );
    let mut once = OnceRunner::new(runner);

    let mut other = layer(3);
    let mut proxy = LayerProxy::from_mut_ref(&mut other);
    assert!(!once.execute(&LayerStack::empty(), &mut proxy));
    assert!(proxy.children().is_empty());

    let mut first = layer(1);
    let mut proxy = LayerProxy::from_mut_ref(&mut first);
    assert!(once.execute(&LayerStack::empty(), &mut proxy));
    assert_eq!(proxy.children().len(), 1);
    assert_eq!(proxy.children()[0].id(), Token::from(2));

    let mut second = layer(1);
    let mut proxy = LayerProxy::from_mut_ref(&mut second);
    assert!(!once.execute(&LayerStack::empty(), &mut proxy));
    assert!(proxy.children().is_empty());
    assert_eq!(log.lock().unwrap().len(), 2);

    once.arm();
    let mut third = layer(1);
    let mut proxy = LayerProxy::from_mut_ref(&mut third);
    assert!(once.execute(&LayerStack::empty(), &mut proxy));
    assert_eq!(log.lock().unwrap().len(), 3);
}

#[test]
fn a_runner_of_another_phase_has_no_worker() {
    let script = Script::new(1, vec![2]);
    let log = script.log.clone();
    let mut runner = Runner::new(
        &ExecType::SerialAsync,
        Context::new(Vec::new()),
        DecoderBox::new(script),
    );
    let mut first = layer(1);
    let mut proxy = LayerProxy::from_mut_ref(&mut first);
    assert!(!runner.execute(&LayerStack::empty(), &mut proxy));
    runner.reset();
    assert!(!runner.execute(&LayerStack::empty(), &mut proxy));
    assert!(log.lock().unwrap().is_empty());
}

#[test]
fn many_trees_come_back_from_their_numbers_of_children() {
    let mut state: u64 = 0x1234_5678_9abc_def1;
    let mut next = move |n: u64| {
        state = state
            .wrapping_mul(6364136223846793005)
            .wrapping_add(1442695040888963407);
        (state >> 33) % n
    };
    for _ in 0..300 {
        let decoders = 1 + next(6);
        let scripts: Vec<Script> = (0..decoders)
            .map(|d| {
                let children = (0..next(5)).map(|_| 1 + next(decoders + 1)).collect();
                Script::new(1 + d, children)
            })
            .collect();
        let roots = 1 + next(3);

        let e = dispatcher(&scripts).expand((0..roots).map(|_| layer(1 + next(decoders))).collect());
        let n = e.layers().len();
        assert_eq!(e.fanout().len(), n);
        assert_eq!(e.parents().len(), n);
        assert_eq!(
            roots as usize + e.fanout().iter().sum::<usize>(),
            n
        );
        assert!(e.claims() <= decoders as usize);

        let mut expected_parents: Vec<Option<usize>> = vec![None; roots as usize];
        for (i, count) in e.fanout().iter().enumerate() {
            for _ in 0..*count {
                expected_parents.push(Some(i));
            }
        }
        assert_eq!(e.parents(), &expected_parents[..]);

        let mut frame = Frame::new(0, layer(1));
        frame.take_layers();
        let mut layers: Vec<Layer> = e.layers().iter().cloned().collect();
        let mut counts: Vec<u8> = e.fanout().iter().map(|c| *c as u8).collect();
        frame.append_layers(&mut layers);
        frame.append_tree_indices(&mut counts);
        assert_eq!(frame.roots(), Some(roots as usize));
        for j in 0..n {
            assert_eq!(frame.parent(j), e.parents()[j]);
        }
        for i in 0..n {
            let (from, to) = frame.children(i).unwrap();
            assert!(i < from || from == to);
            for j in from..to {
                assert_eq!(e.parents()[j], Some(i));
            }
            assert_eq!(to - from, e.fanout()[i]);
        }
    }
}
