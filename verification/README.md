# protosocket

Message-oriented sockets: a connection reads bytes into a growable buffer,
decodes messages out of it for a reactor, and writes encoded messages from a
queue of buffers. The same pieces serve a readiness-driven server, length-
delimited protocol buffers, framed MessagePack, and a stream transport over
libfabric reliable-datagram endpoints.

## Layout

- `src/` is the library, verified with Verus. Public functions state their
  contracts over mathematical models (`Seq`, `nat`, views), except the
  constructors of marker types and the two that read an OS error's kind;
  cross-function properties are stated as public proof functions
  (`lemma_*`).
  - `receive`, `send`, `codec`: the connection's receive buffer and decode
    pass, its send queue and write bookkeeping, and the codec traits.
    Decoders, reactors, encoders and serializers (and the fabric's source
    and poster) may keep a ghost record of what they were given and what
    they answered, and say so; the receive pass, the send queue, the pooled
    encoder and the fabric's send pass are stated over those records for
    the ones that do.
  - `efa`: the fabric bootstrap header, the per-connection send state and
    framing of the completion driver, and the stream's read and write chunks.
  - `prost_codec`, `messagepack`, `pooled`: codecs and a pooled encoder.
  - `legacy_server`, `legacy_prost`: buffers and pacing of the
    readiness-driven server.
  - `level`, `client`, `listener`, `control`, `text`, `examples`: worker
    selection and naming, client settings, listen settings, rpc control codes,
    decimal rendering, and example messages.
- `tests/`: tests of the library on concrete values.
- `app/`: the I/O around the library (tokio connection future, listeners,
  mio server, per-thread runtime, bootstrap exchange, codec adapters).
