# lsp_server

Messages of the Language Server Protocol, verified with Verus.

`src/` is the verified library:

- `framing`: the base protocol's framing (`Content-Length` header block, then
  the body). `frame_outcome` and `frame_len` say what reading a stream gives
  and how many bytes it takes. `read_msg_text` reads one message from a
  stream held in memory and `write_msg_text` appends one to a buffer, each
  proved against that model; `next_header_step` and `finish_body` are the
  decisions that reading any stream makes. `lemma_frame_roundtrip` proves that
  reading the bytes `write_msg_text` appends gives back the text and leaves
  what follows.
- `json`: JSON values as the library holds them (`JsonValue`), and object
  member lookup.
- `msg`, `codec`: requests, responses and notifications, how each is written as
  a JSON object and read back; `lemma_message_roundtrip` and
  `lemma_wire_roundtrip` prove that reading gives back what was written.
- `id`, `error_code`: request ids and the protocol's error codes.
- `text`: decimal numbers, ASCII case-insensitive comparison.
- `stream`: the calls into `std::io` and `std` formatting, with the contracts
  their documentation gives.

`app/` is the serde side: JSON text to and from `JsonValue`, typed parameters
and results, and `MessageIo` to read and write whole messages on any stream,
running the read loop over the library's step functions.
