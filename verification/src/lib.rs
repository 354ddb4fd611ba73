//! The speech layer of a wideband audio codec: what is read from and written to the range coder,
//! the integer arithmetic around it, and the decisions that encoder and decoder make. Signals in
//! floating point stay outside: callers measure, the library decides.
pub mod arith;
pub mod choice;
pub mod cosine;
pub mod error;
pub mod history;
pub mod lpc_poly;
pub mod range_coder;
pub mod silk;
pub mod silk_encoder;
pub mod silk_frame;
pub mod silk_gains;
pub mod silk_lsf_to_lpc;
pub mod silk_nsq_del_dec;
pub mod silk_packet_encode;
pub mod silk_packet_frame;
pub mod silk_packet_laws;
pub mod silk_resampler;
pub mod silk_stereo;
pub mod silk_synthesis;
pub mod toc;
