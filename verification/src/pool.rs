//! The work of one thread of a pool, one message at a time. The threads themselves, the
//! queue between them and the waiting belong to the program that runs the pool; what a
//! thread does with a message is decided here.
use crate::dispatcher::{was_dissected, Dispatcher, OnceRunner};
use crate::frame::{Frame, FrameModel};
use vstd::prelude::*;

verus! {

/// Takes the batches that the pool has dissected. Threads call it at the same time.
pub trait Callback: Sync + Send + Clone {
    fn done(&self, result: Vec<Frame>);
}

/// What a thread does after it took a message from the queue.
pub enum Step {
    /// Hand the batch to the callback and take the next message.
    Deliver(Vec<Frame>),
    /// End.
    Exit,
}

/// What each of `frames` is.
pub open spec fn frame_models(frames: Seq<Frame>) -> Seq<FrameModel> {
    Seq::new(frames.len(), |i: int| frames[i]@)
}

/// `after` holds the frames of `before`, in their order, each dissected by the runners
/// as the frame before it left them: the runners are `states[i]` before frame `i` and
/// `states[i + 1]` after it.
pub open spec fn batch_dissected(
    states: Seq<Seq<OnceRunner>>,
    before: Seq<FrameModel>,
    after: Seq<FrameModel>,
) -> bool {
    &&& after.len() == before.len()
    &&& states.len() == before.len() + 1
    &&& forall|i: int|
        0 <= i < before.len() ==> was_dissected(
            states[i],
            states[i + 1],
            #[trigger] before[i],
            after[i],
        )
}

/// The runners `runners` have dissected the batch `before`, which is `after`, and are
/// left as `left`.
pub open spec fn batch_done(
    runners: Seq<OnceRunner>,
    left: Seq<OnceRunner>,
    before: Seq<FrameModel>,
    after: Seq<FrameModel>,
) -> bool {
    exists|states: Seq<Seq<OnceRunner>>| #[trigger]
        batch_dissected(states, before, after) && states[0] == runners && states[before.len() as int]
            == left
}

/// Dissects every frame of the batch, in order, on this thread.
pub fn process_batch(dispatcher: &mut Dispatcher, frames: &mut Vec<Frame>)
    ensures
        batch_done(
            old(dispatcher).spec_runners(),
            final(dispatcher).spec_runners(),
            frame_models(old(frames)@),
            frame_models(final(frames)@),
        ),
        final(dispatcher).spec_runners().len() == old(dispatcher).spec_runners().len(),
{
    let ghost before = frame_models(frames@);
    let ghost mut states = seq![dispatcher.spec_runners()];
    let mut i: usize = 0;
    while i < frames.len()
        invariant
            i <= frames@.len(),
            frames@.len() == before.len(),
            dispatcher.spec_runners().len() == old(dispatcher).spec_runners().len(),
            states.len() == i + 1,
            states[0] == old(dispatcher).spec_runners(),
            states[i as int] == dispatcher.spec_runners(),
            forall|j: int|
                0 <= j < i ==> was_dissected(
                    states[j],
                    states[j + 1],
                    #[trigger] before[j],
                    frames@[j]@,
                ),
            forall|j: int| i <= j < frames@.len() ==> frames@[j]@ == #[trigger] before[j],
        decreases frames@.len() - i,
    {
        let ghost so_far = states;
        dispatcher.process_frame(&mut frames[i]);
        proof {
            states = so_far.push(dispatcher.spec_runners());
            assert forall|j: int| 0 <= j < i + 1 implies was_dissected(
                states[j],
                states[j + 1],
                #[trigger] before[j],
                frames@[j]@,
            ) by {
                if j < i {
                    assert(was_dissected(so_far[j], so_far[j + 1], before[j], frames@[j]@));
                }
            }
        }
        i = i + 1;
    }
    proof {
        assert(batch_dissected(states, before, frame_models(frames@)) && states[0] == old(
            dispatcher,
        ).spec_runners() && states[before.len() as int] == dispatcher.spec_runners());
    }
}

/// What a thread does with what it took from the queue: a batch is dissected and
/// delivered whole; the word to stop, or a queue that has been closed, ends the thread
/// and leaves the dispatcher as it is.
pub fn step(dispatcher: &mut Dispatcher, message: Option<Option<Vec<Frame>>>) -> (s: Step)
    ensures
        match message {
            Some(Some(frames)) => s matches Step::Deliver(out) && batch_done(
                old(dispatcher).spec_runners(),
                final(dispatcher).spec_runners(),
                frame_models(frames@),
                frame_models(out@),
            ),
            _ => s is Exit && final(dispatcher).spec_runners() == old(dispatcher).spec_runners(),
        },
{
    match message {
        Some(Some(frames)) => {
            let mut frames = frames;
            process_batch(dispatcher, &mut frames);
            Step::Deliver(frames)
        },
        _ => Step::Exit,
    }
}

/// The messages that end a pool of `threads` threads: one word to stop for each.
pub fn stop_messages(threads: usize) -> (r: Vec<Option<Vec<Frame>>>)
    ensures
        r@.len() == threads,
        forall|i: int| 0 <= i < threads ==> (#[trigger] r@[i]) is None,
{
    let mut r: Vec<Option<Vec<Frame>>> = Vec::new();
    let mut i: usize = 0;
    while i < threads
        invariant
            i <= threads,
            r@.len() == i,
            forall|j: int| 0 <= j < i ==> (#[trigger] r@[j]) is None,
        decreases threads - i,
    {
        r.push(None);
        i = i + 1;
    }
    r
}

/// What `threads` threads make of a queue, whichever of them takes which message: the
/// batches that are delivered, in the order in which they were taken, and the number of
/// threads that still run. A message is taken by one thread; a thread that takes the word
/// to stop ends; messages behind the last thread's end are taken by nobody.
pub open spec fn served<T>(queue: Seq<Option<T>>, threads: nat) -> (Seq<T>, nat)
    decreases queue.len(),
{
    if queue.len() == 0 || threads == 0 {
        (Seq::<T>::empty(), threads)
    } else {
        match queue[0] {
            Some(batch) => {
                let rest = served(queue.skip(1), threads);
                (seq![batch] + rest.0, rest.1)
            },
            None => served(queue.skip(1), (threads - 1) as nat),
        }
    }
}

/// `n` words to stop.
pub open spec fn stops<T>(n: nat) -> Seq<Option<T>> {
    Seq::new(n, |i: int| None::<T>)
}

/// The batches of `batches` as messages.
pub open spec fn submitted<T>(batches: Seq<T>) -> Seq<Option<T>> {
    Seq::new(batches.len(), |i: int| Some(batches[i]))
}

/// A pool that is shut down delivers every batch that was submitted before, once, and
/// all its threads end: with one word to stop for each thread behind the batches, what is
/// delivered is exactly the batches, and no thread is left.
pub proof fn lemma_shutdown_delivers_all<T>(batches: Seq<T>, threads: nat)
    requires
        threads > 0 || batches.len() == 0,
    ensures
        served(submitted(batches) + stops::<T>(threads), threads) == (batches, 0nat),
    decreases batches.len() + threads,
{
    let queue = submitted(batches) + stops::<T>(threads);
    if batches.len() > 0 {
        let rest = batches.skip(1);
        assert(queue.skip(1) =~= submitted(rest) + stops::<T>(threads));
        lemma_shutdown_delivers_all(rest, threads);
        assert(seq![batches[0]] + rest =~= batches);
    } else if threads > 0 {
        assert(queue.skip(1) =~= submitted(batches) + stops::<T>((threads - 1) as nat));
        lemma_shutdown_delivers_all(batches, (threads - 1) as nat);
    } else {
        assert(batches =~= Seq::<T>::empty());
    }
}

} // verus!
