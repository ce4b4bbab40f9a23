# quiche_multipath

The parts of a QUIC transport that decide what a multipath connection does, written
in Verus: what each function does is stated in its contract and proved.

| Where | What |
| --- | --- |
| `src/cid` | connection IDs of all paths: issuing, announcing, retiring, limits |
| `src/send` | filling packets with frames, in stages; what is done about lost frames |
| `src/multipath` | multipath frames, packet nonces, path schedulers, reinjection |
| `src/capsule` | the Capsule Protocol and the capsules of CONNECT-IP |
| `src/datagram.rs`, `src/registry.rs` | HTTP/3 datagrams; sockets by local address |
| `src/frame.rs`, `src/wire.rs`, `src/varint.rs`, `src/ranges.rs` | frames, their sizes, numbers on the wire, sets of packet numbers |
| `src/buffer.rs` | reading and writing bytes through `octets` |

Contracts speak of views: `IdsView` is what a connection knows of its connection IDs,
`SenderView` is the send side of a connection, `PackingView` is a packet that is being
filled. Each operation has a spec function that says what it makes of a view, and the
executable function is proved to do just that. Properties that span operations are proof
functions whose names begin with `law_`.

What is believed without proof is in `src/buffer.rs`, `src/cid/retired.rs` and
`src/send/lists.rs`: the calls into `octets` and `smallvec`. Each of them says what it
claims of the call.

`app` is ordinary Rust around the library. It turns system addresses and clocks into
plain values, scales times in floating point, and carries out what the library decides
for a packet: it writes frames, moves stream data and encrypts.
