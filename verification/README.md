# tss_lib

Client of an MPC (threshold signature) service that runs its rounds over a
websocket relay server. The library in `src/` is verified with Verus; `app/`
is the command line client around it (websocket I/O, JSON, the CGGMP21
protocol run).

- `src/wire.rs`: protobuf primitives (varints, field keys, skipping unknown
  fields) taken from `prost::encoding`, with spec functions for what they do.
- `src/protos.rs`: the `Envelope` and `Content` messages, their encoders and
  decoders, and the proofs that decoding gives back what was encoded.
- `src/network.rs`: which inbound frames reach the protocol and with what
  header, the stamping of outbound messages with ids, their framing, the room
  URL (parsed by `surf::Url`), and the
  decisions taken on server events.
- `src/message.rs`: the room messages (`SyncMsg`) that the server sends as
  text.

Wire schema (proto2):

```
message Envelope { optional bytes content = 1; optional uint64 timestamp = 2; }
message Content {
  enum Type { BROADCAST = 0; P2P = 1; }
  optional uint64 id = 1;
  optional Type type = 2;
  optional uint32 sender = 3;
  optional uint32 receiver = 4;
  optional bytes message = 5;
}
```
