//! A dissection engine for captured frames: a frame is decoded into a tree of layers,
//! each with its attributes and the payloads that it hands on, by workers that the
//! decoders of a profile make. The layers look at the bytes of the capture and copy none
//! of them; the tree is held flat, level by level, with the number of children of each
//! layer.
pub mod attr;
pub mod cast;
pub mod context;
pub mod decoder;
pub mod dispatcher;
pub mod dissector;
pub mod error;
pub mod eth;
pub mod filter;
pub mod frame;
pub mod io;
pub mod ipv4;
pub mod ipv6;
pub mod layer;
pub mod link;
pub mod ntp;
pub mod packages;
pub mod pool;
pub mod profile;
pub mod protocol;
pub mod slice;
pub mod tcp;
pub mod tcp_stream;
pub mod token;
pub mod tree;
pub mod variant;
