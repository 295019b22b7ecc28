use genet::context::Context;
use genet::decoder::{Decoder, DecoderBox, ExecType, Status, Worker, WorkerBox};
use genet::dispatcher::Dispatcher;
use genet::error::Error;
use genet::frame::Frame;
use genet::layer::{Layer, LayerClass, LayerProxy, LayerStack};
use genet::pool::{process_batch, step, stop_messages, Callback, Step};
use genet::profile::Profile;
use genet::slice::Slice;
use genet::token::Token;
use std::collections::VecDeque;
use std::sync::{Arc, Mutex};

fn layer(id: u64) -> Layer {
    let class = Arc::new(LayerClass::builder(Token::from(id)).build());
    Layer::new(class, Slice::new()).build()
}

/// Claims the layers of the class 1 and answers one layer of the class 2.
#[derive(Clone)]
struct Once {}

impl Worker for Once {
    fn decode(
        &mut self,
        _ctx: &mut Context,
        _stack: &LayerStack,
        layer: &mut LayerProxy,
    ) -> Result<Status, Error> {
        if layer.id() == Token::from(1) {
            Ok(Status::Done(vec![self::layer(2)]))
        } else {
            Ok(Status::Skip)
        }
    }
}

impl Decoder for Once {
    fn new_worker(&self, _ctx: &Context) -> WorkerBox {
        WorkerBox::new(Box::new(Once {}))
    }

    fn execution_type(&self) -> ExecType {
        ExecType::ParallelSync
    }
}

fn profile(concurrency: u32) -> Profile {
    let mut profile = Profile::with_concurrency(concurrency);
    profile.add_decoder(DecoderBox::new(Once {}));
    profile
}

fn batch(first: u32, len: u32) -> Vec<Frame> {
    (first..first + len).map(|i| Frame::new(i, layer(1))).collect()
}

#[derive(Clone)]
struct Collect {
    batches: Arc<Mutex<Vec<Vec<u32>>>>,
}

impl Callback for Collect {
    fn done(&self, result: Vec<Frame>) {
        for frame in &result {
            assert_eq!(frame.layers().len(), 2);
            assert_eq!(frame.tree_indices(), &[1, 0]);
        }
        self.batches
            .lock()
            .unwrap()
            .push(result.iter().map(|f| f.index()).collect());
    }
}

#[test]
fn a_batch_is_dissected_in_order() {
    let mut dispatcher = Dispatcher::new(&ExecType::ParallelSync, &profile(1));
    let mut frames = batch(5, 4);
    process_batch(&mut dispatcher, &mut frames);
    let indices: Vec<u32> = frames.iter().map(|f| f.index()).collect();
    assert_eq!(indices, vec![5, 6, 7, 8]);
    for frame in &frames {
        assert_eq!(frame.layers().len(), 2);
        assert_eq!(frame.tree_indices(), &[1, 0]);
    }
}

#[test]
fn a_thread_delivers_batches_and_ends_on_the_word_to_stop() {
    let mut dispatcher = Dispatcher::new(&ExecType::ParallelSync, &profile(1));
    match step(&mut dispatcher, Some(Some(batch(0, 3)))) {
        Step::Deliver(frames) => assert_eq!(frames.len(), 3),
        Step::Exit => panic!("ended on a batch"),
    }
    match step(&mut dispatcher, Some(Some(Vec::new()))) {
        Step::Deliver(frames) => assert!(frames.is_empty()),
        Step::Exit => panic!("ended on an empty batch"),
    }
    assert!(matches!(step(&mut dispatcher, Some(None)), Step::Exit));
    assert!(matches!(step(&mut dispatcher, None), Step::Exit));
}

#[test]
fn one_word_to_stop_for_each_thread() {
    assert!(stop_messages(0).is_empty());
    let stops = stop_messages(3);
    assert_eq!(stops.len(), 3);
    assert!(stops.iter().all(|m| m.is_none()));
}

/// Runs a pool of `profile.concurrency()` threads as one thread would: the threads take
/// turns at the queue.
fn run(profile: &Profile, batches: Vec<Vec<Frame>>, callback: &Collect) -> usize {
    let threads = profile.concurrency() as usize;
    let mut dispatchers: Vec<Option<Dispatcher>> = (0..threads)
        .map(|_| Some(Dispatcher::new(&ExecType::ParallelSync, profile)))
        .collect();
    let mut queue: VecDeque<Option<Vec<Frame>>> = batches.into_iter().map(Some).collect();
    queue.extend(stop_messages(threads));
    let mut turn = 0;
    while dispatchers.iter().any(|d| d.is_some()) {
        if let Some(dispatcher) = dispatchers[turn % threads].as_mut() {
            match step(dispatcher, queue.pop_front()) {
                Step::Deliver(frames) => callback.done(frames),
                Step::Exit => dispatchers[turn % threads] = None,
            }
        }
        turn += 1;
    }
    queue.len()
}

#[test]
fn three_batches_of_ten_frames_on_two_threads() {
    let callback = Collect {
        batches: Arc::new(Mutex::new(Vec::new())),
    };
    let batches = vec![batch(0, 10), batch(10, 10), batch(20, 10)];
    let left = run(&profile(2), batches, &callback);
    assert_eq!(left, 0);

    let delivered = callback.batches.lock().unwrap();
    assert_eq!(delivered.len(), 3);
    let mut all: Vec<u32> = delivered.iter().flatten().copied().collect();
    assert_eq!(all.len(), 30);
    all.sort();
    assert_eq!(all, (0..30).collect::<Vec<u32>>());
    for batch in delivered.iter() {
        assert_eq!(batch.len(), 10);
        assert_eq!(*batch, (batch[0]..batch[0] + 10).collect::<Vec<u32>>());
    }
}

#[test]
fn shutdown_without_batches_ends_every_thread() {
    let callback = Collect {
        batches: Arc::new(Mutex::new(Vec::new())),
    };
    assert_eq!(run(&profile(4), Vec::new(), &callback), 0);
    assert!(callback.batches.lock().unwrap().is_empty());
}
