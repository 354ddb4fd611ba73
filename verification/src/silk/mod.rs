//! The codec of one stream: its tables, the code of frames and packets, the decoder and the
//! encoder.
pub mod body_laws;
pub mod decoder;
pub mod dither;
pub mod encoder;
pub mod encoder_laws;
pub mod excitation;
pub mod frame;
pub mod frame_code;
pub mod frame_laws;
pub mod frame_models;
pub mod gain;
pub mod lsf;
pub mod lsf_laws;
pub mod lsf_lpc;
pub mod lsf_models;
pub mod lsf_tables;
pub mod ltp;
pub mod ltp_models;
pub mod model_laws;
pub mod nlsf_search;
pub mod packet_code;
pub mod packet_laws;
pub mod pitch_analysis;
pub mod shell;
pub mod shell_encode;
pub mod shell_laws;
pub mod shell_quant;
pub mod shell_tables;
pub mod stabilize;
pub mod stereo_ramp;
pub mod stereo_weights;
pub mod symbol_laws;
pub mod tables;
pub mod trim_laws;

pub use crate::silk::decoder::{internal_rate_hz, SilkDecoder, SilkStereoState};
pub use crate::silk::frame::{SilkChannelState, SUBFRAMES_10MS, SUBFRAMES_20MS};
pub use crate::silk::gain::{gain_index_of_q16, gain_index_to_q16, silk_log2lin};
