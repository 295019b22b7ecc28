use genet::context::Context;
use genet::decoder::{Decoder, DecoderBox, ExecType, Status, Worker, WorkerBox};
use genet::error::Error;
use genet::layer::{Layer, LayerClass, LayerProxy, LayerStack};
use genet::slice::Slice;
use genet::token::Token;
use std::sync::Arc;

#[test]
fn decoder_decode() {
    struct TestWorker {}

    impl Worker for TestWorker {
        fn decode(
            &mut self,
            _ctx: &mut Context,
            _stack: &LayerStack,
            _layer: &mut LayerProxy,
        ) -> Result<Status, Error> {
            let class = Arc::new(LayerClass::builder(Token::from(1234)).build());
            let layer = Layer::new(class, Slice::new()).build();
            Ok(Status::Done(vec![layer]))
        }
    }

    #[derive(Clone)]
    struct TestDecoder {}

    impl Decoder for TestDecoder {
        fn new_worker(&self, _ctx: &Context) -> WorkerBox {
            WorkerBox::new(Box::new(TestWorker {}))
        }

        fn execution_type(&self) -> ExecType {
            ExecType::ParallelSync
        }
    }

    let mut ctx = Context::new(Vec::new());
    let mut diss = DecoderBox::new(TestDecoder {});
    let mut worker = diss.new_worker(&ctx);

    let class = Arc::new(LayerClass::builder(Token::null()).build());
    let mut layer = Layer::new(class, Slice::new()).build();
    let mut layer = LayerProxy::from_mut_ref(&mut layer);
    let mut results = Vec::new();

    assert_eq!(
        worker
            .decode(&mut ctx, &LayerStack::empty(), &mut layer, &mut results)
            .unwrap(),
        true
    );
    assert_eq!(results.len(), 1);
    let child = &results[0];
    assert_eq!(child.id(), Token::from(1234));
}
