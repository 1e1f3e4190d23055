# vuio-codec-dts

DTS Coherent Acoustics core streams, with the logic verified by Verus.

- `src/` is the library. Verus proves the contract of every function in it but
  one: `fourcc_code` in `registry` states what `oxideav_core` does with a tag.
  - `bits`, `bitreader`: byte strings as bit strings, and a cursor over them.
  - `unpack14`: the 14-bit container transform and its inverse.
  - `header`, `header_codec`, `header_laws`: the frame header in its four
    encodings, what its codes stand for, and that reading undoes writing.
  - `iter`, `iter_laws`: sync scanning and the frame walkers.
  - `audio_header`, `side_info`, `subframe`, `audio_data`, `dsync`: the
    structure of a frame's audio part.
  - `rev2_aux`, `crc16`: the auxiliary chunk at the end of a frame.
  - `subframe_pcm`, `subband_mix`, `gain`, `decoder`, `core_frame`, `stream`: the
    way from a frame to samples. The readers of coded samples, the filters and
    the arithmetic on samples are handed in as `workers`; the contracts say what
    they are given, in which order, and what becomes of their answers.
  - `decode_laws`, `determined`, `lengths`, `mix_laws`: that a frame is the run of
    its subframes, how long it is, and what two decodings have in common.
  - `lfe_interp`, `lfe_synth`, `cos_mod`, `sums`: filters over any kind of
    sample; the arithmetic is handed in.
  - `handle`, `registry`: the decoder handle behind a codec registry, and what
    the registry asks.
- `app/` adds floating-point arithmetic, standard iterators, error texts and the
  registration with the media framework.
- `tests/` runs the library on concrete values.
