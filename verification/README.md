# pulsar

Verified core of a runtime that streams the experts of large language models from disk: the file
format, the reads, the quantized formats, the launch plans of the models, and the chat protocol.

## Layout

- `src/gguf`: the GGUF container. Grammar, parser, encoder, writer, and models split over several
  files.
- `src/stream`: direct reads of expert slabs. Aligned brackets, read plans, bounded buffers, the
  fetch queue and the pipeline of batches.
- `src/quant`: the block formats, their packing and decoding, integer dot products, and the rules
  by which a model file is rewritten tensor by tensor.
- `src/engine`: what each model launches. A program is a list of launches; its meaning is the term
  that every buffer holds at the end, so that contracts can say what a layer computes from what.
- `src/serve`: arguments, HTTP requests, chat documents and streamed replies.
- `src/fp.rs`, `src/narrow.rs`: single, half and narrow precision by their bits.
- `src/words.rs`, `src/bytes.rs`, `src/text.rs`: words, bytes and text.
- `app`: the programs around the library, with files, sockets, the io_uring and floating point.

## What is proved

Every public function of `src` states in its `ensures` what it returns, and when it fails. Public proof
functions named `law_*` state what holds across functions: that a header that was written is read
back, that a bracket covers what was asked for, that a draft that is verified never changes what is
generated, that packed blocks decode to what was packed.

Not proved: what `serde_json` and a few string functions of std do. The items that stand for them
say in their comments what they rely on.
