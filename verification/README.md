# rav

Building blocks for decoding and filtering audio and video, with their behaviour
stated as Verus contracts and proved.

- `src/` — the verified library:
  - `time`, `packet`, `frame`, `stream`, `error`, `simd`, `pool`: time bases and
    timestamps, packets, frames and planes, stream metadata, error values, CPU
    capability levels, and the bookkeeping of a frame pool.
  - `h264`: an H.264 decoder — NAL unit framing (Annex B and length-prefixed),
    Exp-Golomb bit reading, SPS/PPS and slice header parsing, CAVLC and CABAC
    entropy decoding, intra and inter prediction, inverse transforms, deblocking,
    picture order count, reference picture marking and list construction,
    weighted prediction, slice group maps, output ordering, and the decoder that
    turns a packet into frames.
  - `aac`: ADTS headers, the AudioSpecificConfig, the AAC bit reader, Huffman
    codebooks and the integer spectral decoding of a frame.
  - `filter`: crop, pad, rotate/flip, deinterlace, and the timestamp schedule of
    frame-rate conversion.
- `tests/` — tests of the library on concrete values.
- `app/` — the command-line tool (`info`, `probe`, `decode` on H.264 elementary
  streams) and what computes in floating point or needs shared ownership: the
  AAC inverse MDCT and overlap-add, frame-rate conversion by frames per second,
  timestamps in seconds, CPU feature detection, and the shared frame pool.
