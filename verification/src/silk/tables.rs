//! Probability models, codebooks and quantiser tables of the codec.
//!
//! Every `_ICDF` table is an inverse cumulative distribution: entry `k` is 256 times the
//! probability of a symbol above `k`.
use vstd::prelude::*;

verus! {

/// Frame type of a frame without voice activity: symbols 0 and 1 are frame types 0 and 1.
pub const FRAME_TYPE_INACTIVE_ICDF: [u8; 2] = [230, 0];

/// Frame type of a frame with voice activity: symbols 0 to 3 are frame types 2 to 5.
pub const FRAME_TYPE_ACTIVE_ICDF: [u8; 4] = [232, 158, 10, 0];

/// Upper three bits of an independently coded gain, inactive frames.
pub const GAIN_MSB_INACTIVE_ICDF: [u8; 8] = [224, 112, 44, 15, 3, 2, 1, 0];

/// Upper three bits of an independently coded gain, unvoiced frames.
pub const GAIN_MSB_UNVOICED_ICDF: [u8; 8] = [254, 237, 192, 132, 70, 23, 4, 0];

/// Upper three bits of an independently coded gain, voiced frames.
pub const GAIN_MSB_VOICED_ICDF: [u8; 8] = [255, 252, 226, 155, 61, 11, 2, 0];

/// Lower three bits of an independently coded gain (uniform).
pub const GAIN_LSB_ICDF: [u8; 8] = [224, 192, 160, 128, 96, 64, 32, 0];

/// Gain change between consecutive sub-frames. Symbol 4 stands for no change.
pub const GAIN_DELTA_ICDF: [u8; 41] = [
    250, 245, 234, 203, 71, 50, 42, 38, 35, 33, 31, 29, 28, 27, 26, 25, 24, 23, 22, 21, 20, 19,
    18, 17, 16, 15, 14, 13, 12, 11, 10, 9, 8, 7, 6, 5, 4, 3, 2, 1, 0,
];

/// Stage-1 NLSF index, narrow and medium band, inactive or unvoiced.
pub const NLSF_NB_STAGE1_UNVOICED_ICDF: [u8; 32] = [
    212, 178, 148, 129, 108, 96, 85, 82, 79, 77, 61, 59, 57, 56, 51, 49, 48, 45, 42, 41, 40, 38,
    36, 34, 31, 30, 21, 12, 10, 3, 1, 0,
];

/// Stage-1 NLSF index, narrow and medium band, voiced.
pub const NLSF_NB_STAGE1_VOICED_ICDF: [u8; 32] = [
    255, 245, 244, 236, 233, 225, 217, 203, 190, 176, 175, 161, 149, 136, 125, 114, 102, 91, 81,
    71, 60, 52, 43, 35, 28, 20, 19, 18, 12, 11, 5, 0,
];

/// Stage-1 NLSF index, wide band, inactive or unvoiced.
pub const NLSF_WB_STAGE1_UNVOICED_ICDF: [u8; 32] = [
    225, 204, 201, 184, 183, 175, 158, 154, 153, 135, 119, 115, 113, 110, 109, 99, 98, 95, 79, 68,
    52, 50, 48, 45, 43, 32, 31, 27, 18, 10, 3, 0,
];

/// Stage-1 NLSF index, wide band, voiced.
pub const NLSF_WB_STAGE1_VOICED_ICDF: [u8; 32] = [
    255, 251, 235, 230, 212, 201, 196, 182, 167, 166, 163, 151, 138, 124, 110, 104, 90, 78, 76,
    70, 69, 57, 45, 34, 24, 21, 11, 6, 5, 4, 3, 0,
];

/// Stage-2 residual codebooks, narrow and medium band. Symbols 0 to 8 are residuals -4 to 4.
pub const NLSF_NBMB_STAGE2_ICDF: [[u8; 9]; 8] = [
    [255, 254, 253, 238, 14, 3, 2, 1, 0],
    [255, 254, 252, 218, 35, 3, 2, 1, 0],
    [255, 254, 250, 208, 59, 4, 2, 1, 0],
    [255, 254, 246, 194, 71, 10, 2, 1, 0],
    [255, 252, 236, 183, 82, 8, 2, 1, 0],
    [255, 252, 235, 180, 90, 17, 2, 1, 0],
    [255, 248, 224, 171, 97, 30, 4, 1, 0],
    [255, 254, 236, 173, 95, 37, 7, 1, 0],
];

/// Stage-2 residual codebooks, wide band. Symbols 0 to 8 are residuals -4 to 4.
pub const NLSF_WB_STAGE2_ICDF: [[u8; 9]; 8] = [
    [255, 254, 253, 244, 12, 3, 2, 1, 0],
    [255, 254, 252, 224, 38, 3, 2, 1, 0],
    [255, 254, 251, 209, 57, 4, 2, 1, 0],
    [255, 254, 244, 195, 69, 4, 2, 1, 0],
    [255, 251, 232, 184, 84, 7, 2, 1, 0],
    [255, 254, 240, 186, 86, 14, 2, 1, 0],
    [255, 254, 239, 178, 91, 30, 5, 1, 0],
    [255, 248, 227, 177, 100, 19, 2, 1, 0],
];

/// Stage-2 codebook of each coefficient, by stage-1 index, narrow and medium band.
pub const NLSF_NBMB_STAGE2_SELECT: [[u8; 10]; 32] = [
    [0, 0, 0, 0, 0, 0, 0, 0, 0, 0],
    [1, 3, 1, 2, 2, 1, 2, 1, 1, 1],
    [2, 1, 1, 1, 1, 1, 1, 1, 1, 1],
    [1, 2, 2, 2, 2, 1, 2, 1, 1, 1],
    [2, 3, 3, 3, 3, 2, 2, 2, 2, 2],
    [0, 5, 3, 3, 2, 2, 2, 2, 1, 1],
    [0, 2, 2, 2, 2, 2, 2, 2, 2, 1],
    [2, 3, 6, 4, 4, 4, 5, 4, 5, 5],
    [2, 4, 5, 5, 4, 5, 4, 6, 4, 4],
    [2, 4, 4, 7, 4, 5, 4, 5, 5, 4],
    [4, 3, 3, 3, 2, 3, 2, 2, 2, 2],
    [1, 5, 5, 6, 4, 5, 4, 5, 5, 5],
    [2, 7, 4, 6, 5, 5, 5, 5, 5, 5],
    [2, 7, 5, 5, 5, 5, 5, 6, 5, 4],
    [3, 3, 5, 4, 4, 5, 4, 5, 4, 4],
    [2, 3, 3, 5, 5, 4, 4, 4, 4, 4],
    [2, 4, 4, 6, 4, 5, 4, 5, 5, 5],
    [2, 5, 4, 6, 5, 5, 5, 4, 5, 4],
    [2, 7, 4, 5, 4, 5, 4, 5, 5, 5],
    [2, 5, 4, 6, 7, 6, 5, 6, 5, 4],
    [3, 6, 7, 4, 6, 5, 5, 6, 4, 5],
    [2, 7, 6, 4, 4, 4, 5, 4, 5, 5],
    [4, 5, 5, 4, 6, 6, 5, 6, 5, 4],
    [2, 5, 5, 6, 5, 6, 4, 6, 4, 4],
    [4, 5, 5, 5, 3, 7, 4, 5, 5, 4],
    [2, 3, 4, 5, 5, 6, 4, 5, 5, 4],
    [2, 3, 2, 3, 3, 4, 2, 3, 3, 3],
    [1, 1, 2, 2, 2, 2, 2, 3, 2, 2],
    [4, 5, 5, 6, 6, 6, 5, 6, 4, 5],
    [3, 5, 5, 4, 4, 4, 4, 3, 3, 2],
    [2, 5, 3, 7, 5, 5, 4, 4, 5, 4],
    [4, 4, 5, 4, 5, 6, 5, 6, 5, 4],
];

/// Stage-2 codebook of each coefficient, by stage-1 index, wide band.
pub const NLSF_WB_STAGE2_SELECT: [[u8; 16]; 32] = [
    [0, 0, 0, 0, 0, 0, 0, 0, 0, 0, 0, 0, 0, 0, 0, 0],
    [2, 3, 3, 3, 3, 3, 2, 2, 2, 2, 2, 1, 1, 1, 0, 3],
    [2, 5, 5, 3, 7, 4, 4, 5, 2, 5, 4, 5, 5, 4, 3, 3],
    [0, 2, 1, 2, 2, 1, 1, 1, 1, 1, 0, 0, 0, 0, 0, 1],
    [0, 6, 5, 4, 6, 4, 7, 5, 4, 4, 4, 5, 5, 4, 4, 3],
    [0, 3, 5, 5, 4, 3, 3, 5, 3, 3, 3, 3, 3, 3, 2, 4],
    [0, 0, 0, 0, 0, 0, 0, 0, 0, 0, 0, 0, 0, 0, 0, 0],
    [0, 2, 6, 3, 7, 2, 5, 3, 4, 5, 5, 4, 3, 3, 2, 3],
    [0, 6, 2, 6, 6, 4, 5, 4, 6, 5, 4, 4, 5, 3, 3, 3],
    [2, 1, 0, 0, 0, 0, 0, 0, 0, 0, 0, 0, 0, 0, 0, 0],
    [0, 1, 0, 0, 0, 0, 0, 0, 0, 0, 0, 0, 0, 0, 0, 1],
    [2, 2, 3, 4, 5, 3, 3, 3, 3, 3, 3, 3, 2, 2, 1, 3],
    [2, 2, 3, 3, 4, 3, 3, 3, 3, 3, 3, 3, 3, 2, 1, 3],
    [3, 4, 4, 4, 6, 4, 4, 5, 3, 5, 4, 4, 5, 4, 3, 4],
    [0, 6, 4, 5, 4, 7, 5, 2, 6, 5, 7, 4, 4, 3, 5, 3],
    [0, 1, 0, 1, 1, 1, 1, 1, 1, 1, 0, 0, 0, 0, 1, 0],
    [1, 6, 5, 7, 5, 4, 5, 3, 4, 5, 4, 4, 4, 3, 3, 4],
    [1, 3, 3, 4, 4, 3, 3, 5, 2, 3, 3, 5, 5, 5, 3, 4],
    [2, 3, 3, 2, 2, 2, 3, 2, 1, 2, 1, 2, 1, 1, 1, 4],
    [0, 2, 3, 5, 3, 3, 2, 2, 2, 1, 1, 0, 0, 0, 0, 0],
    [3, 4, 3, 5, 3, 3, 2, 2, 1, 1, 1, 1, 1, 2, 2, 4],
    [2, 6, 3, 7, 7, 4, 5, 4, 5, 3, 5, 3, 3, 2, 3, 3],
    [2, 3, 5, 6, 6, 3, 5, 3, 4, 4, 3, 3, 3, 3, 2, 4],
    [1, 3, 3, 4, 4, 4, 4, 3, 5, 5, 5, 3, 1, 1, 1, 1],
    [2, 5, 3, 6, 6, 4, 7, 4, 4, 5, 3, 4, 4, 3, 3, 3],
    [0, 6, 1, 1, 0, 0, 0, 0, 0, 0, 0, 0, 0, 0, 0, 0],
    [0, 6, 6, 3, 5, 2, 5, 5, 3, 4, 4, 7, 7, 4, 4, 4],
    [3, 3, 7, 3, 5, 4, 3, 3, 3, 2, 2, 3, 3, 3, 2, 3],
    [0, 0, 1, 0, 0, 0, 2, 1, 2, 1, 1, 2, 2, 2, 1, 1],
    [0, 3, 2, 5, 3, 3, 2, 3, 2, 1, 0, 0, 1, 0, 0, 1],
    [3, 5, 5, 4, 7, 5, 3, 3, 2, 3, 2, 2, 1, 0, 1, 0],
    [2, 3, 5, 3, 4, 3, 3, 3, 2, 1, 2, 6, 4, 0, 0, 0],
];

/// Amount by which a stage-2 residual exceeds 4 in magnitude.
pub const NLSF_STAGE2_EXTENSION_ICDF: [u8; 7] = [100, 40, 16, 7, 3, 1, 0];

/// Backward prediction weights (Q8): two lists for narrow and medium band, two for wide band.
pub const NLSF_PRED_WEIGHTS: [[u8; 15]; 4] = [
    [179, 138, 140, 148, 151, 149, 153, 151, 163, 0, 0, 0, 0, 0, 0],
    [116, 67, 82, 59, 92, 72, 100, 89, 92, 0, 0, 0, 0, 0, 0],
    [175, 148, 160, 176, 178, 173, 174, 164, 177, 174, 196, 182, 198, 192, 182],
    [68, 62, 66, 60, 72, 117, 85, 90, 118, 136, 151, 142, 160, 142, 155],
];

/// Which narrow and medium band weight list a coefficient uses, by stage-1 index.
pub const NLSF_NBMB_PRED_SELECT: [[u8; 9]; 32] = [
    [0, 1, 0, 0, 0, 0, 0, 0, 0],
    [1, 0, 0, 0, 0, 0, 0, 0, 0],
    [0, 0, 0, 0, 0, 0, 0, 0, 0],
    [1, 1, 1, 0, 0, 0, 0, 1, 0],
    [0, 1, 0, 0, 0, 0, 0, 0, 0],
    [0, 1, 0, 0, 0, 0, 0, 0, 0],
    [1, 0, 1, 1, 0, 0, 0, 1, 0],
    [0, 1, 1, 0, 0, 1, 1, 0, 0],
    [0, 0, 1, 1, 0, 1, 0, 1, 1],
    [0, 0, 1, 1, 0, 0, 1, 1, 1],
    [0, 0, 0, 0, 0, 0, 0, 0, 0],
    [0, 1, 0, 1, 1, 1, 1, 1, 0],
    [0, 1, 0, 1, 1, 1, 1, 1, 0],
    [0, 1, 1, 1, 1, 1, 1, 1, 0],
    [1, 0, 1, 1, 0, 1, 1, 1, 1],
    [0, 1, 1, 1, 1, 1, 0, 1, 0],
    [0, 0, 1, 1, 0, 1, 0, 1, 0],
    [0, 0, 1, 1, 1, 0, 1, 1, 1],
    [0, 1, 1, 0, 0, 1, 1, 1, 0],
    [0, 0, 0, 1, 1, 1, 0, 1, 0],
    [0, 1, 1, 0, 0, 1, 0, 1, 0],
    [0, 1, 1, 0, 0, 0, 1, 1, 0],
    [0, 0, 0, 0, 0, 1, 1, 1, 1],
    [0, 0, 1, 1, 0, 0, 0, 1, 1],
    [0, 0, 0, 1, 0, 1, 1, 1, 1],
    [0, 1, 1, 1, 1, 1, 1, 1, 0],
    [0, 0, 0, 0, 0, 0, 0, 0, 0],
    [0, 0, 0, 0, 0, 0, 0, 0, 0],
    [0, 0, 1, 0, 1, 1, 0, 1, 0],
    [1, 0, 0, 1, 0, 0, 0, 0, 0],
    [0, 0, 0, 1, 1, 0, 1, 0, 1],
    [1, 0, 1, 1, 0, 1, 1, 1, 1],
];

/// Which wide band weight list a coefficient uses, by stage-1 index.
pub const NLSF_WB_PRED_SELECT: [[u8; 15]; 32] = [
    [0, 0, 0, 0, 0, 0, 0, 0, 0, 0, 0, 0, 0, 0, 1],
    [0, 0, 0, 0, 0, 0, 0, 0, 0, 0, 0, 0, 0, 0, 0],
    [0, 0, 1, 0, 0, 1, 1, 1, 0, 1, 1, 1, 1, 0, 0],
    [0, 0, 0, 0, 0, 0, 0, 0, 0, 0, 0, 0, 1, 0, 0],
    [0, 1, 1, 0, 1, 0, 1, 1, 0, 1, 1, 1, 1, 1, 0],
    [0, 0, 1, 0, 0, 0, 0, 0, 0, 0, 0, 0, 0, 0, 0],
    [1, 0, 0, 0, 0, 0, 0, 0, 0, 0, 0, 1, 0, 1, 0],
    [0, 1, 1, 0, 0, 0, 1, 0, 1, 1, 1, 0, 1, 0, 1],
    [0, 1, 0, 1, 1, 0, 1, 0, 1, 0, 1, 1, 1, 1, 1],
    [0, 0, 0, 0, 0, 0, 0, 0, 0, 0, 0, 0, 0, 0, 1],
    [0, 1, 0, 0, 0, 0, 0, 0, 0, 0, 0, 0, 0, 0, 0],
    [0, 0, 1, 0, 1, 1, 1, 1, 1, 1, 1, 0, 1, 0, 0],
    [0, 0, 1, 0, 0, 1, 0, 1, 0, 1, 0, 0, 1, 0, 0],
    [0, 0, 0, 0, 1, 1, 0, 1, 0, 1, 1, 1, 1, 0, 0],
    [0, 1, 0, 0, 0, 1, 1, 0, 1, 1, 1, 0, 1, 1, 1],
    [0, 0, 1, 1, 0, 0, 0, 0, 0, 0, 0, 0, 1, 1, 0],
    [0, 1, 1, 0, 1, 0, 1, 1, 1, 1, 1, 0, 1, 0, 0],
    [0, 0, 1, 0, 0, 0, 0, 1, 0, 0, 1, 1, 1, 0, 0],
    [0, 0, 0, 0, 0, 0, 0, 0, 0, 0, 0, 0, 0, 0, 1],
    [0, 0, 0, 0, 0, 0, 0, 0, 0, 0, 0, 0, 1, 0, 0],
    [0, 0, 0, 0, 0, 0, 0, 0, 0, 0, 0, 0, 0, 0, 0],
    [0, 1, 0, 1, 0, 1, 1, 0, 1, 0, 1, 0, 1, 1, 0],
    [0, 0, 1, 1, 1, 1, 0, 1, 1, 0, 0, 1, 1, 0, 0],
    [0, 1, 1, 0, 1, 0, 1, 0, 1, 0, 0, 0, 0, 1, 0],
    [0, 0, 0, 1, 1, 0, 1, 0, 1, 1, 1, 1, 1, 1, 1],
    [0, 0, 0, 0, 0, 0, 0, 0, 0, 0, 0, 0, 0, 0, 1],
    [0, 1, 1, 0, 0, 0, 1, 1, 0, 0, 1, 1, 1, 1, 1],
    [0, 0, 0, 0, 0, 1, 0, 1, 1, 1, 1, 0, 1, 1, 1],
    [0, 0, 0, 0, 0, 0, 0, 0, 0, 0, 0, 0, 0, 0, 1],
    [0, 0, 0, 0, 0, 0, 0, 0, 0, 0, 0, 0, 0, 0, 1],
    [1, 0, 0, 0, 0, 0, 0, 0, 0, 0, 0, 1, 0, 0, 0],
    [0, 0, 1, 0, 0, 1, 1, 1, 0, 0, 1, 0, 0, 1, 0],
];

/// Stage-1 codebook (Q8), narrow and medium band.
pub const NLSF_NBMB_CB1_Q8: [[u8; 10]; 32] = [
    [12, 35, 60, 83, 108, 132, 157, 180, 206, 228],
    [15, 32, 55, 77, 101, 125, 151, 175, 201, 225],
    [19, 42, 66, 89, 114, 137, 162, 184, 209, 230],
    [12, 25, 50, 72, 97, 120, 147, 172, 200, 223],
    [26, 44, 69, 90, 114, 135, 159, 180, 205, 225],
    [13, 22, 53, 80, 106, 130, 156, 180, 205, 228],
    [15, 25, 44, 64, 90, 115, 142, 168, 196, 222],
    [19, 24, 62, 82, 100, 120, 145, 168, 190, 214],
    [22, 31, 50, 79, 103, 120, 151, 170, 203, 227],
    [21, 29, 45, 65, 106, 124, 150, 171, 196, 224],
    [30, 49, 75, 97, 121, 142, 165, 186, 209, 229],
    [19, 25, 52, 70, 93, 116, 143, 166, 192, 219],
    [26, 34, 62, 75, 97, 118, 145, 167, 194, 217],
    [25, 33, 56, 70, 91, 113, 143, 165, 196, 223],
    [21, 34, 51, 72, 97, 117, 145, 171, 196, 222],
    [20, 29, 50, 67, 90, 117, 144, 168, 197, 221],
    [22, 31, 48, 66, 95, 117, 146, 168, 196, 222],
    [24, 33, 51, 77, 116, 134, 158, 180, 200, 224],
    [21, 28, 70, 87, 106, 124, 149, 170, 194, 217],
    [26, 33, 53, 64, 83, 117, 152, 173, 204, 225],
    [27, 34, 65, 95, 108, 129, 155, 174, 210, 225],
    [20, 26, 72, 99, 113, 131, 154, 176, 200, 219],
    [34, 43, 61, 78, 93, 114, 155, 177, 205, 229],
    [23, 29, 54, 97, 124, 138, 163, 179, 209, 229],
    [30, 38, 56, 89, 118, 129, 158, 178, 200, 231],
    [21, 29, 49, 63, 85, 111, 142, 163, 193, 222],
    [27, 48, 77, 103, 133, 158, 179, 196, 215, 232],
    [29, 47, 74, 99, 124, 151, 176, 198, 220, 237],
    [33, 42, 61, 76, 93, 121, 155, 174, 207, 225],
    [29, 53, 87, 112, 136, 154, 170, 188, 208, 227],
    [24, 30, 52, 84, 131, 150, 166, 186, 203, 229],
    [37, 48, 64, 84, 104, 118, 156, 177, 201, 230],
];

/// Stage-1 codebook (Q8), wide band.
pub const NLSF_WB_CB1_Q8: [[u8; 16]; 32] = [
    [7, 23, 38, 54, 69, 85, 100, 116, 131, 147, 162, 178, 193, 208, 223, 239],
    [13, 25, 41, 55, 69, 83, 98, 112, 127, 142, 157, 171, 187, 203, 220, 236],
    [15, 21, 34, 51, 61, 78, 92, 106, 126, 136, 152, 167, 185, 205, 225, 240],
    [10, 21, 36, 50, 63, 79, 95, 110, 126, 141, 157, 173, 189, 205, 221, 237],
    [17, 20, 37, 51, 59, 78, 89, 107, 123, 134, 150, 164, 184, 205, 224, 240],
    [10, 15, 32, 51, 67, 81, 96, 112, 129, 142, 158, 173, 189, 204, 220, 236],
    [8, 21, 37, 51, 65, 79, 98, 113, 126, 138, 155, 168, 179, 192, 209, 218],
    [12, 15, 34, 55, 63, 78, 87, 108, 118, 131, 148, 167, 185, 203, 219, 236],
    [16, 19, 32, 36, 56, 79, 91, 108, 118, 136, 154, 171, 186, 204, 220, 237],
    [11, 28, 43, 58, 74, 89, 105, 120, 135, 150, 165, 180, 196, 211, 226, 241],
    [6, 16, 33, 46, 60, 75, 92, 107, 123, 137, 156, 169, 185, 199, 214, 225],
    [11, 19, 30, 44, 57, 74, 89, 105, 121, 135, 152, 169, 186, 202, 218, 234],
    [12, 19, 29, 46, 57, 71, 88, 100, 120, 132, 148, 165, 182, 199, 216, 233],
    [17, 23, 35, 46, 56, 77, 92, 106, 123, 134, 152, 167, 185, 204, 222, 237],
    [14, 17, 45, 53, 63, 75, 89, 107, 115, 132, 151, 171, 188, 206, 221, 240],
    [9, 16, 29, 40, 56, 71, 88, 103, 119, 137, 154, 171, 189, 205, 222, 237],
    [16, 19, 36, 48, 57, 76, 87, 105, 118, 132, 150, 167, 185, 202, 218, 236],
    [12, 17, 29, 54, 71, 81, 94, 104, 126, 136, 149, 164, 182, 201, 221, 237],
    [15, 28, 47, 62, 79, 97, 115, 129, 142, 155, 168, 180, 194, 208, 223, 238],
    [8, 14, 30, 45, 62, 78, 94, 111, 127, 143, 159, 175, 192, 207, 223, 239],
    [17, 30, 49, 62, 79, 92, 107, 119, 132, 145, 160, 174, 190, 204, 220, 235],
    [14, 19, 36, 45, 61, 76, 91, 108, 121, 138, 154, 172, 189, 205, 222, 238],
    [12, 18, 31, 45, 60, 76, 91, 107, 123, 138, 154, 171, 187, 204, 221, 236],
    [13, 17, 31, 43, 53, 70, 83, 103, 114, 131, 149, 167, 185, 203, 220, 237],
    [17, 22, 35, 42, 58, 78, 93, 110, 125, 139, 155, 170, 188, 206, 224, 240],
    [8, 15, 34, 50, 67, 83, 99, 115, 131, 146, 162, 178, 193, 209, 224, 239],
    [13, 16, 41, 66, 73, 86, 95, 111, 128, 137, 150, 163, 183, 206, 225, 241],
    [17, 25, 37, 52, 63, 75, 92, 102, 119, 132, 144, 160, 175, 191, 212, 231],
    [19, 31, 49, 65, 83, 100, 117, 133, 147, 161, 174, 187, 200, 213, 227, 242],
    [18, 31, 52, 68, 88, 103, 117, 126, 138, 149, 163, 177, 192, 207, 223, 239],
    [16, 29, 47, 61, 76, 90, 106, 119, 133, 147, 161, 176, 193, 209, 224, 240],
    [15, 21, 35, 50, 61, 73, 86, 97, 110, 119, 129, 141, 175, 198, 218, 237],
];

/// Least distance of each NLSF from its lower neighbour (Q15), narrow and medium band.
pub const NLSF_NBMB_MIN_DELTA_Q15: [i16; 11] = [250, 3, 6, 3, 3, 3, 4, 3, 3, 3, 461];

/// Least distance of each NLSF from its lower neighbour (Q15), wide band.
pub const NLSF_WB_MIN_DELTA_Q15: [i16; 17] = [
    100, 3, 40, 3, 3, 3, 5, 14, 14, 10, 11, 3, 8, 9, 7, 3, 347,
];

/// Interpolation factor between the NLSFs of consecutive frames.
pub const NLSF_INTERP_ICDF: [u8; 5] = [243, 221, 192, 181, 0];

/// Order in which the NLSFs enter the polynomial recurrence, narrow and medium band.
pub const NLSF_ORDERING_NB: [usize; 10] = [0, 9, 6, 3, 4, 5, 8, 1, 2, 7];

/// Order in which the NLSFs enter the polynomial recurrence, wide band.
pub const NLSF_ORDERING_WB: [usize; 16] = [0, 15, 8, 7, 4, 11, 12, 3, 2, 13, 10, 5, 6, 9, 14, 1];

/// Cosine over half a turn in 128 steps (Q12).
pub const COSINE_Q12: [i16; 129] = [
    4096, 4095, 4091, 4085, 4076, 4065, 4052, 4036, 4017, 3997, 3973, 3948, 3920, 3889, 3857,
    3822, 3784, 3745, 3703, 3659, 3613, 3564, 3513, 3461, 3406, 3349, 3290, 3229, 3166, 3102,
    3035, 2967, 2896, 2824, 2751, 2676, 2599, 2520, 2440, 2359, 2276, 2191, 2106, 2019, 1931,
    1842, 1751, 1660, 1568, 1474, 1380, 1285, 1189, 1093, 995, 897, 799, 700, 601, 501, 401, 301,
    201, 101, 0, -101, -201, -301, -401, -501, -601, -700, -799, -897, -995, -1093, -1189, -1285,
    -1380, -1474, -1568, -1660, -1751, -1842, -1931, -2019, -2106, -2191, -2276, -2359, -2440,
    -2520, -2599, -2676, -2751, -2824, -2896, -2967, -3035, -3102, -3166, -3229, -3290, -3349,
    -3406, -3461, -3513, -3564, -3613, -3659, -3703, -3745, -3784, -3822, -3857, -3889, -3920,
    -3948, -3973, -3997, -4017, -4036, -4052, -4065, -4076, -4085, -4091, -4095, -4096,
];

/// Absolute pitch lag, multiples of four.
pub const PITCH_LAG_NB_HIGH_ICDF: [u8; 32] = [
    224, 192, 176, 160, 144, 128, 112, 100, 88, 80, 72, 64, 56, 48, 44, 40, 36, 32, 28, 24, 22,
    20, 18, 16, 14, 12, 10, 8, 6, 4, 2, 0,
];

/// Absolute pitch lag, remainder modulo four.
pub const PITCH_LAG_NB_LOW_ICDF: [u8; 4] = [192, 128, 64, 0];

/// Pitch lag change between consecutive frames. Symbol 9 stands for no change.
pub const PITCH_DELTA_ICDF: [u8; 21] = [
    220, 200, 180, 160, 140, 120, 104, 88, 72, 60, 48, 36, 28, 22, 16, 12, 8, 6, 4, 2, 0,
];

/// Pitch contour index.
pub const PITCH_CONTOUR_NB_20MS_ICDF: [u8; 11] = [224, 192, 160, 128, 96, 72, 56, 40, 24, 12, 0];

/// Long-term prediction periodicity class.
pub const LTP_PERIODICITY_ICDF: [u8; 3] = [200, 60, 0];

/// Long-term prediction filter index, periodicity class 0.
pub const LTP_FILTER_P0_ICDF: [u8; 8] = [220, 180, 140, 100, 72, 48, 24, 0];

/// Long-term prediction filter index, periodicity class 1.
pub const LTP_FILTER_P1_ICDF: [u8; 16] = [
    240, 224, 208, 192, 176, 152, 128, 104, 80, 64, 48, 36, 24, 16, 8, 0,
];

/// Long-term prediction filter index, periodicity class 2.
pub const LTP_FILTER_P2_ICDF: [u8; 32] = [
    248, 240, 224, 208, 192, 176, 160, 148, 136, 124, 112, 100, 88, 76, 64, 56, 48, 40, 36, 32,
    28, 24, 20, 16, 14, 12, 10, 8, 6, 4, 2, 0,
];

/// Long-term prediction scaling index.
pub const LTP_SCALING_ICDF: [u8; 3] = [128, 64, 0];

/// Seed of the excitation dither (uniform).
pub const LCG_SEED_ICDF: [u8; 4] = [192, 128, 64, 0];

/// Rate level of the per-sample nibble carrier, inactive frames.
pub const RATE_LEVEL_INACTIVE_ICDF: [u8; 10] = [240, 192, 160, 128, 96, 72, 48, 24, 8, 0];

/// Rate level of the per-sample nibble carrier, voiced frames.
pub const RATE_LEVEL_VOICED_ICDF: [u8; 10] = [224, 192, 160, 128, 96, 64, 40, 20, 8, 0];

/// Pulse counts of the per-sample nibble carrier, by rate level.
pub const PULSE_COUNT_ICDF: [[u8; 18]; 11] = [
    [240, 224, 208, 192, 176, 160, 144, 128, 112, 96, 80, 64, 48, 32, 24, 16, 8, 0],
    [232, 216, 200, 184, 168, 152, 136, 120, 104, 88, 72, 56, 40, 28, 20, 12, 6, 0],
    [224, 208, 192, 176, 160, 144, 128, 112, 96, 80, 64, 48, 36, 28, 20, 12, 6, 0],
    [216, 200, 184, 168, 152, 136, 120, 104, 88, 72, 60, 48, 36, 28, 20, 12, 6, 0],
    [208, 192, 176, 160, 144, 128, 112, 96, 80, 64, 56, 48, 36, 28, 20, 12, 6, 0],
    [200, 184, 168, 152, 136, 120, 104, 88, 72, 60, 48, 40, 32, 24, 18, 12, 6, 0],
    [192, 176, 160, 144, 128, 112, 96, 80, 64, 56, 48, 40, 32, 24, 18, 12, 6, 0],
    [184, 168, 152, 136, 120, 104, 88, 72, 60, 48, 40, 32, 24, 18, 14, 10, 6, 0],
    [176, 160, 144, 128, 112, 96, 80, 64, 56, 48, 40, 32, 24, 18, 14, 10, 6, 0],
    [168, 152, 136, 120, 104, 88, 72, 60, 48, 40, 32, 24, 18, 14, 10, 8, 4, 0],
    [160, 144, 128, 112, 96, 80, 64, 56, 48, 40, 32, 24, 18, 14, 10, 8, 4, 0],
];

/// Coarse indices of both stereo prediction weights, jointly.
pub const STEREO_PRED_JOINT_ICDF: [u8; 25] = [
    249, 247, 246, 245, 244, 234, 210, 202, 201, 200, 197, 174, 82, 59, 56, 55, 54, 46, 22, 12,
    11, 10, 9, 7, 0,
];

/// Middle index of a stereo prediction weight (near uniform).
pub const STEREO_UNIFORM3_ICDF: [u8; 3] = [171, 85, 0];

/// Fine index of a stereo prediction weight (near uniform).
pub const STEREO_UNIFORM5_ICDF: [u8; 5] = [205, 154, 102, 51, 0];

/// Whether only the mid channel is coded.
pub const STEREO_ONLY_CODE_MID_ICDF: [u8; 2] = [64, 0];

/// Cell boundaries of the stereo prediction weight quantiser (Q13).
pub const STEREO_PRED_QUANT_Q13: [i16; 16] = [
    -13732, -10050, -8266, -7526, -6500, -5000, -2950, -820, 820, 2950, 5000, 6500, 7526, 8266,
    10050, 13732,
];

/// Redundancy flags of a packet of two frames: the symbol plus one, as a bit set.
pub const LBRR_FLAGS_2_ICDF: [u8; 3] = [203, 150, 0];

/// Redundancy flags of a packet of three frames: the symbol plus one, as a bit set.
pub const LBRR_FLAGS_3_ICDF: [u8; 7] = [215, 195, 166, 125, 110, 82, 0];

} // verus!
