# pcm

L16 mono PCM audio (little-endian 16-bit samples at 24 kHz) as a byte buffer,
written in Verus.

- `src/buffer.rs`: the `PCM` type, viewed as its bytes: length, sample count,
  the `i16` sample view and its inverse, base64 text, and the std traits.
- `src/samples.rs`: the little-endian sample layout as spec functions, the
  one-sample codec, and the laws that relate decoding and encoding.
- `src/codec.rs`: the calls into the `base64` crate and what is trusted of them.
- `src/error.rs`: the error type.
- `app/`: what needs floating point or serde: the playback duration as a
  `time::Duration`, `speed_up` / `slow_down`, serde helpers, and the error's
  display message.
