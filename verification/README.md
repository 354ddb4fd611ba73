# silk_codec

The speech layer of a wideband audio codec, written in Verus.

The library reads and writes packets of 10, 20, 40 and 60 ms in one or two channels, at internal
rates of 8, 12 and 16 kHz. Every symbol goes through the range coder of `oxideav_celt`; the library
says which symbols make up a frame or a packet, what they stand for, and that what is written reads
back.

## Layout

- `src/range_coder.rs` states what the range coder does: a coder is seen as a log of symbols.
- `src/silk/` holds the codec of one stream.
  - `shell*`, `dither`, `excitation`: the excitation.
  - `lsf*`, `stabilize`, `nlsf_search`: line spectral frequencies.
  - `ltp*`, `pitch_analysis`: pitch and long-term prediction.
  - `gain`: gains. `stereo_weights`, `stereo_ramp`: two channels.
  - `frame*`, `packet*`, `decoder`, `encoder*`: frames and packets, and the laws of reading back.
- `src/silk_*.rs` hold packet planning, planned frames and their laws, subframe gains, filters from
  frequencies, rates, delays and upsampling, stereo unmixing, synthesis plans and the quantiser
  trellis.
- `app/` works on samples in floating point: analysis, synthesis, upsampling. It measures, and
  leaves decisions to the library.
- `tests/` run the library together with the range coder.

## Contracts

Contracts speak of mathematical integers and sequences. A function that reads says which log of
symbols it has read and what it makes of it; a function that writes says which log it has written.
Functions named `law_*` state what holds across functions. The longest chains are
`law_excitation_round_trip`, `law_frame_round_trip`, `law_packet_round_trip` and
`law_planned_frames_read_back`. Packets with redundant copies are planned and written; the reader
of packets refuses them.
