//! Packets: planning, writing and reading them.
use oxideav_celt::range_decoder::RangeDecoder;
use oxideav_celt::range_encoder::RangeEncoder;
use silk_codec::error::SilkError;
use silk_codec::silk::decoder::{frame_layout, read_header};
use silk_codec::silk::encoder::{
    encode_stereo_pred_weights, quantise_pred_weight_q13, quantise_round_trip, SilkFrameEncoder,
};
use silk_codec::silk::frame::{decode_frame_body, SilkChannelState};
use silk_codec::silk::stereo_ramp::{SilkStereoEncoderState, UnmixStart, WeightRamp};
use silk_codec::silk::stereo_weights::{stereo_decode_pred, weight_level};
use silk_codec::silk::tables::STEREO_ONLY_CODE_MID_ICDF;
use silk_codec::silk::{gain_index_to_q16, internal_rate_hz, SilkDecoder, SilkStereoState};
use silk_codec::silk_frame::{SignalType, SilkFrameSize};
use silk_codec::silk_gains::{
    SubframeGains, SubframeGainsConfig, GAIN_DELTA_ICDF, GAIN_LSB_ICDF, GAIN_MSB_ICDF_VOICED,
};
use silk_codec::silk_packet_encode::{
    encode_silk_only_packet_mono, encode_silk_only_packet_mono_with_lbrr, silk_frame_count,
    toc_byte, FrameOutcome, MonoPacketPlan,
};
use silk_codec::toc::{Bandwidth, OpusBandwidth};

fn outcome(k: u8) -> FrameOutcome {
    FrameOutcome {
        last_log_gain: k,
        primary_lag: 10 * k as i32,
        nlsf_q15: [k as i16; 16],
        d_lpc: 10,
    }
}

#[test]
fn packet_encode_rejects_bad_shape() {
    let script = [2u8];
    assert!(encode_silk_only_packet_mono(Bandwidth::Nb, 400, &script, 64).is_err());
    assert!(encode_silk_only_packet_mono(Bandwidth::Nb, 25, &script, 64).is_err());
    assert!(encode_silk_only_packet_mono(Bandwidth::Swb, 200, &script, 64).is_err());
}

#[test]
fn packet_refusals_name_their_cause() {
    for (bw, tenths, types, copies) in [
        (Bandwidth::Nb, 400u16, vec![2u8], vec![None]),
        (Bandwidth::Nb, 25, vec![2], vec![None]),
        (Bandwidth::Fb, 200, vec![2], vec![None]),
        (Bandwidth::Wb, 200, vec![2], vec![]),
        (Bandwidth::Wb, 200, vec![2], vec![Some(1u8)]),
    ] {
        let r = encode_silk_only_packet_mono_with_lbrr(bw, tenths, &types, &copies, 64);
        assert_eq!(r.err(), Some(SilkError::MalformedPacket));
    }
}

#[test]
fn first_bytes_and_frame_counts() {
    assert_eq!(silk_frame_count(100), Some(1));
    assert_eq!(silk_frame_count(200), Some(1));
    assert_eq!(silk_frame_count(400), Some(2));
    assert_eq!(silk_frame_count(600), Some(3));
    assert_eq!(silk_frame_count(50), None);
    assert_eq!(toc_byte(Bandwidth::Nb, 100), Ok(0));
    assert_eq!(toc_byte(Bandwidth::Nb, 600), Ok(24));
    assert_eq!(toc_byte(Bandwidth::Mb, 200), Ok(40));
    assert_eq!(toc_byte(Bandwidth::Wb, 400), Ok(80));
    assert_eq!(toc_byte(Bandwidth::Swb, 400), Err(SilkError::MalformedPacket));
    assert_eq!(toc_byte(Bandwidth::Wb, 50), Err(SilkError::MalformedPacket));
}

#[test]
fn later_frames_go_by_the_frame_before() {
    let (mut plan, _) = encode_silk_only_packet_mono_with_lbrr(
        Bandwidth::Mb,
        600,
        &[0, 2, 5],
        &[None, Some(2), Some(4)],
        64,
    )
    .unwrap();
    let mut seen = Vec::new();
    let mut k = 1u8;
    while let Some(step) = plan.next_step() {
        assert_eq!(step.config.bandwidth, Bandwidth::Mb);
        assert_eq!(step.config.frame_size, SilkFrameSize::TwentyMs);
        let first = step.config.previous_log_gain.is_none();
        assert_eq!(step.config.first_subframe_independent, first);
        assert_eq!(step.config.ltp_scaling_present, first);
        if !first {
            let before = k - 1;
            assert_eq!(step.config.previous_log_gain, Some(before));
            assert_eq!(step.config.previous_primary_lag, Some(10 * before as i32));
            let nlsf = step.config.previous_nlsf_q15;
            assert_eq!(nlsf, if step.redundant { None } else { Some([before as i16; 16]) });
        }
        seen.push((step.redundant, step.frame, step.config.voice_active, first));
        plan.record(outcome(k));
        k += 1;
    }
    assert_eq!(
        seen,
        vec![
            (true, 1, true, true),
            (true, 2, true, false),
            (false, 0, false, true),
            (false, 1, true, false),
            (false, 2, true, false),
        ]
    );
}

fn write_all(
    mut plan: MonoPacketPlan,
    mut enc: RangeEncoder,
    e: &mut SilkFrameEncoder,
) -> Result<Vec<u8>, SilkError> {
    let mut k = 0i32;
    while plan.next_step().is_some() {
        let mut mags = vec![0i32; e.frame_len()];
        mags[3] = k + 1;
        let res = vec![0i32; e.lpc_order()];
        e.encode_frame_body_unvoiced(&mut enc, k as usize, &res, 30 + k, &mags);
        plan.record(outcome(k as u8));
        k += 1;
    }
    plan.finish(enc)
}

#[test]
fn planned_packet_reads_back() {
    let (plan, enc) = encode_silk_only_packet_mono(Bandwidth::Nb, 200, &[2], 600).unwrap();
    let packet = write_all(plan, enc, &mut SilkFrameEncoder::new_nb_20ms()).unwrap();
    assert_eq!(packet.len(), 601);
    assert_eq!(packet[0], 8);
    let mut dec = SilkDecoder::new(OpusBandwidth::Narrowband);
    let blocks = dec.decode_payload(&packet[1..], 960, false).unwrap();
    assert_eq!(blocks.len(), 1);
    assert!(blocks[0].side.is_none());
    assert_eq!(blocks[0].mid.signal_type, 1);
    assert_eq!(blocks[0].mid.gains_q16, vec![gain_index_to_q16(30); 4]);
    assert!(blocks[0].mid.excitation_q23[3].abs() > 200);
    assert_eq!(dec.state.prev_nlsf_q15, blocks[0].mid.nlsf_q15);
}

#[test]
fn two_frames_of_a_packet_read_back_in_turn() {
    let mut e = SilkFrameEncoder::new_nb_20ms();
    let mut enc = RangeEncoder::new(600);
    for flag in [true, true, false] {
        enc.encode_bit_logp(flag, 1);
    }
    for k in 0..2i32 {
        let mut mags = vec![0i32; e.frame_len()];
        mags[3] = k + 1;
        let res = vec![0i32; e.lpc_order()];
        e.encode_frame_body_unvoiced(&mut enc, k as usize, &res, 30 + k, &mags);
    }
    let payload = enc.done().unwrap();
    let mut dec = SilkDecoder::new(OpusBandwidth::Narrowband);
    let blocks = dec.decode_payload(&payload, 1920, false).unwrap();
    assert_eq!(blocks.len(), 2);
    for (k, b) in blocks.iter().enumerate() {
        assert_eq!(b.pred_q13, [0, 0]);
        assert!(b.side.is_none());
        assert_eq!(b.mid.signal_type, 1);
        assert_eq!(b.mid.gains_q16, vec![gain_index_to_q16(30 + k as i32); 4]);
        assert!(b.mid.excitation_q23[3].abs() > 200 * (k as i32 + 1));
    }
    assert_eq!(dec.state.prev_nlsf_q15, blocks[1].mid.nlsf_q15);
}

fn packet_with_copy() -> Vec<u8> {
    let (plan, enc) = encode_silk_only_packet_mono_with_lbrr(
        Bandwidth::Wb,
        200,
        &[3],
        &[Some(2)],
        900,
    )
    .unwrap();
    write_all(plan, enc, &mut SilkFrameEncoder::new_wb_20ms()).unwrap()
}

#[test]
fn packet_with_copies_is_refused() {
    let packet = packet_with_copy();
    let mut dec = SilkDecoder::new(OpusBandwidth::Wideband);
    let r = dec.decode_payload(&packet[1..], 960, false);
    assert_eq!(r.err(), Some(SilkError::Unsupported));
    assert!(dec.state.first_frame);
    let fresh = SilkDecoder::new(OpusBandwidth::Wideband);
    assert_eq!(dec.state.prev_nlsf_q15, fresh.state.prev_nlsf_q15);

    let mut enc = RangeEncoder::new(20);
    enc.encode_bit_logp(true, 1);
    enc.encode_bit_logp(false, 1);
    enc.encode_bit_logp(false, 1);
    enc.encode_bit_logp(true, 1);
    let bytes = enc.done().unwrap();
    for samples in [480usize, 960] {
        let mut rc = RangeDecoder::new(&bytes);
        let r = dec.decode_frame_parameters(&mut rc, samples, true);
        assert_eq!(r.err(), Some(SilkError::Unsupported));
    }
}

#[test]
fn planned_packet_with_copies_reads_back() {
    let packet = packet_with_copy();
    let mut rc = RangeDecoder::new(&packet[1..]);
    let head = read_header(&mut rc, 1, 1);
    assert_eq!(head.active, vec![vec![true]]);
    assert_eq!(head.redundant, vec![1]);
    let mut gains = Vec::new();
    let mut copies = SilkChannelState::new();
    let mut frames = SilkChannelState::new();
    for copy in [true, false] {
        let state = if copy { &mut copies } else { &mut frames };
        let body =
            decode_frame_body(&mut rc, true, OpusBandwidth::Wideband, 80, 4, state).unwrap();
        gains.push(body.gains_q16[3]);
    }
    assert_eq!(gains, vec![30, 31].into_iter().map(gain_index_to_q16).collect::<Vec<i32>>());
}

#[test]
fn packet_without_room_is_reported() {
    let (plan, enc) = encode_silk_only_packet_mono(Bandwidth::Nb, 200, &[2], 2).unwrap();
    let r = write_all(plan, enc, &mut SilkFrameEncoder::new_nb_20ms());
    assert_eq!(r, Err(SilkError::OutOfStorage));
}

#[test]
fn unknown_durations_are_unsupported() {
    assert_eq!(frame_layout(480), Ok((1, 2)));
    assert_eq!(frame_layout(960), Ok((1, 4)));
    assert_eq!(frame_layout(1920), Ok((2, 4)));
    assert_eq!(frame_layout(2880), Ok((3, 4)));
    assert_eq!(frame_layout(240), Err(SilkError::Unsupported));
    let mut dec = SilkDecoder::new(OpusBandwidth::Mediumband);
    let r = dec.decode_payload(&[0x12, 0x34], 120, false);
    assert_eq!(r.err(), Some(SilkError::Unsupported));
}

#[test]
fn any_bytes_can_be_read() {
    for seed in 0..40u32 {
        let bytes: Vec<u8> = (0..60u32).map(|i| (i * 37 + seed * 101) as u8).collect();
        for (bw, len) in [
            (OpusBandwidth::Narrowband, 160),
            (OpusBandwidth::Mediumband, 240),
            (OpusBandwidth::Wideband, 320),
        ] {
            for stereo in [false, true] {
                let mut dec = SilkDecoder::new(bw);
                assert_eq!(dec.frame_len, len);
                for samples in [480usize, 960, 1920, 2880] {
                    let r = dec.decode_payload(&bytes, samples, stereo);
                    let frames = if samples < 1000 { 1 } else { samples / 960 };
                    let mut rc = RangeDecoder::new(&bytes);
                    let head = read_header(&mut rc, if stereo { 2 } else { 1 }, frames);
                    if head.redundant.iter().any(|set| *set != 0) {
                        assert_eq!(r.err(), Some(SilkError::Unsupported));
                        continue;
                    }
                    let blocks = r.unwrap();
                    assert_eq!(blocks.len(), frames);
                    for b in &blocks {
                        let per_frame = if samples == 480 { len / 2 } else { len };
                        assert_eq!(b.mid.excitation_q23.len(), per_frame);
                        assert_eq!(b.side.is_some(), stereo && !b.decode_only_mid);
                    }
                }
            }
        }
    }
}

fn stereo_packet(pred: [i32; 2], side_active: bool, only_mid: bool) -> Vec<u8> {
    let mut enc = RangeEncoder::new(600);
    enc.encode_bit_logp(true, 1);
    enc.encode_bit_logp(false, 1);
    enc.encode_bit_logp(side_active, 1);
    enc.encode_bit_logp(false, 1);
    encode_stereo_pred_weights(&mut enc, pred);
    if !side_active {
        enc.encode_icdf(only_mid as usize, &STEREO_ONLY_CODE_MID_ICDF, 8);
    }
    let mut mid = SilkFrameEncoder::new_mb_20ms();
    mid.encode_frame_body_unvoiced(&mut enc, 2, &[0; 10], 40, &[0; 240]);
    if side_active {
        let mut side = SilkFrameEncoder::new_mb_20ms();
        side.encode_frame_body_unvoiced(&mut enc, 5, &[0; 10], 20, &[0; 240]);
    }
    enc.done().unwrap()
}

#[test]
fn stereo_packet_reads_back() {
    let pred = [-1500, 4000];
    let bytes = stereo_packet(pred, true, false);
    let mut dec = SilkDecoder::new(OpusBandwidth::Mediumband);
    let blocks = dec.decode_payload(&bytes, 960, true).unwrap();
    assert_eq!(blocks.len(), 1);
    assert_eq!(blocks[0].pred_q13, quantise_round_trip(pred));
    assert!(!blocks[0].decode_only_mid);
    assert_eq!(blocks[0].mid.gains_q16, vec![gain_index_to_q16(40); 4]);
    let side = blocks[0].side.as_ref().unwrap();
    assert_eq!(side.gains_q16, vec![gain_index_to_q16(20); 4]);
}

#[test]
fn side_channel_can_be_left_out() {
    let bytes = stereo_packet([0, 0], false, true);
    let mut dec = SilkDecoder::new(OpusBandwidth::Mediumband);
    let blocks = dec.decode_payload(&bytes, 960, true).unwrap();
    assert!(blocks[0].decode_only_mid);
    assert!(blocks[0].side.is_none());
    assert!(dec.stereo_state.prev_decode_only_mid);
    let bytes = stereo_packet([0, 0], true, false);
    let blocks = dec.decode_payload(&bytes, 960, true).unwrap();
    assert!(blocks[0].reset_side);
}

#[test]
fn weights_read_back_as_their_nearest_levels() {
    assert_eq!(weight_level(0, 0), -13732 + (((13732 - 10050) * 6554) >> 16));
    for pred in [[0, 0], [8192, -8192], [-20_000, 13_000], [300, 40_000]] {
        let mut enc = RangeEncoder::new(32);
        encode_stereo_pred_weights(&mut enc, pred);
        let buf = enc.done().unwrap();
        let mut dec = oxideav_celt::range_decoder::RangeDecoder::new(&buf);
        let read = stereo_decode_pred(&mut dec);
        assert_eq!(read, quantise_round_trip(pred));
        assert_eq!(quantise_round_trip(read), read);
    }
}

#[test]
fn levels_are_found_again() {
    for cell in 0..15usize {
        for sub in 0..5i32 {
            let r = quantise_pred_weight_q13(weight_level(cell, sub));
            assert_eq!((r[0] + 3 * r[2]) as usize, cell);
            assert_eq!(r[1], sub);
        }
    }
    assert_eq!(quantise_pred_weight_q13(-32_768), [0, 0, 0]);
    assert_eq!(quantise_pred_weight_q13(32_767), [2, 4, 4]);
}

#[test]
fn rates_and_fresh_stereo_memory() {
    assert_eq!(internal_rate_hz(OpusBandwidth::Narrowband), 8_000);
    assert_eq!(internal_rate_hz(OpusBandwidth::Mediumband), 12_000);
    assert_eq!(internal_rate_hz(OpusBandwidth::Wideband), 16_000);
    let s = SilkStereoState::new();
    assert_eq!(s.pred_prev_q13, [0, 0]);
    assert!(!s.prev_decode_only_mid);
}

#[test]
fn unmixing_starts_where_the_block_before_ended() {
    let mut s = SilkStereoState::default();
    assert_eq!(s.take_block(0, [5, 6], [1, 2], [3, 4]), None);
    assert_eq!(s.pred_prev_q13, [0, 0]);
    let first = s.take_block(960, [100, -200], [1, 2], [3, 4]);
    assert_eq!(
        first,
        Some(UnmixStart {
            ramp: WeightRamp {
                from_q13: [0, 0],
                to_q13: [100, -200],
                len: 384,
            },
            mid: [0, 0],
            side: [0, 0],
        })
    );
    let second = s.take_block(100, [7, 8], [9, 9], [9, 9]).unwrap();
    assert_eq!(second.ramp.from_q13, [100, -200]);
    assert_eq!(second.ramp.len, 100);
    assert_eq!(second.mid, [1, 2]);
    assert_eq!(second.side, [3, 4]);
}

#[test]
fn weights_that_do_not_pay_are_dropped() {
    let mut s = SilkStereoEncoderState::new();
    assert_eq!(s.ramp_to([1, 2], 16_000, 320).len, 128);
    assert_eq!(s.ramp_to([1, 2], 8_000, 40).len, 40);
    assert_eq!(s.settle([300, 400], true), [300, 400]);
    assert_eq!(s.ramp_to([1, 2], 12_000, 240).from_q13, [300, 400]);
    assert_eq!(s.settle([300, 400], false), [0, 0]);
    assert_eq!(s, SilkStereoEncoderState::default());
}

#[test]
fn planned_gains_read_back_frame_by_frame() {
    let types = [4u8, 4, 2];
    let copies = [Some(4u8), None, Some(2)];
    let (mut plan, mut enc) =
        encode_silk_only_packet_mono_with_lbrr(Bandwidth::Mb, 600, &types, &copies, 120).unwrap();
    let mut sent = Vec::new();
    let mut k = 0usize;
    while let Some(step) = plan.next_step() {
        assert_eq!(step.config.first_subframe_independent, step.config.previous_log_gain.is_none());
        assert_eq!(step.config.ltp_scaling_present, step.config.previous_log_gain.is_none());
        let deltas: Vec<usize> = (0..4).map(|i| (3 * k + 5 * i + 1) % 9).collect();
        let mut rest = &deltas[..];
        if step.config.first_subframe_independent {
            enc.encode_icdf(4, &GAIN_MSB_ICDF_VOICED, 8);
            enc.encode_icdf(k % 8, &GAIN_LSB_ICDF, 8);
            rest = &deltas[1..];
        }
        for &d in rest {
            enc.encode_icdf(d, &GAIN_DELTA_ICDF, 8);
        }
        let mut g = match step.config.previous_log_gain {
            None => 32 + (k % 8) as i32,
            Some(p) => step_gain(p as i32, deltas[0]),
        };
        let mut gains = vec![g as u8];
        for &d in &deltas[1..] {
            g = step_gain(g, d);
            gains.push(g as u8);
        }
        sent.push(gains);
        plan.record(FrameOutcome {
            last_log_gain: g as u8,
            primary_lag: 0,
            nlsf_q15: [0; 16],
            d_lpc: 10,
        });
        k += 1;
    }
    assert_eq!(sent.len(), 5);
    let packet = plan.finish(enc).unwrap();

    let mut rd = RangeDecoder::new(&packet[1..]);
    let head = read_header(&mut rd, 1, 3);
    assert_eq!(head.active, vec![vec![true, true, true]]);
    assert_eq!(head.redundant, vec![5]);
    let mut got = Vec::new();
    let mut last = [None, None];
    for row in [0usize, 0, 1, 1, 1] {
        let cfg = SubframeGainsConfig {
            signal_type: SignalType::Voiced,
            num_subframes: 4,
            first_subframe_is_independent: last[row].is_none(),
            previous_log_gain: last[row],
        };
        let gains = SubframeGains::decode(&mut rd, cfg).unwrap();
        last[row] = Some(gains.last_log_gain());
        got.push(gains.as_slice().iter().map(|g| g.log_gain).collect::<Vec<u8>>());
    }
    assert_eq!(got, sent);
}

fn step_gain(before: i32, delta: usize) -> i32 {
    let d = delta as i32;
    (2 * d - 16).max(before + d - 4).clamp(0, 63)
}
