# xen-store

Client side of the XenStore wire protocol, verified with Verus.

The library in `src/` does no input or output. It frames requests, takes received
bytes apart into messages, matches replies to requests, keeps watch events until
they are read, and decides how reads and writes on the transport go on. `app/` is
the client built on it: sockets, the XenBus device, the receiving thread and the
blocking handle.

| Module | Subject |
| --- | --- |
| `error` | failures and their classes |
| `message` | headers on the wire, received messages |
| `writer` | sending buffers through short and interrupted writes |
| `reader` | receiving messages through reads of any size |
| `device` | reads of the XenBus device and their shutdown |
| `transport` | choice between socket and device |
| `text` | strings, lists of strings and numbers in payloads |
| `handle` | operations of the client |
| `laws` | what holds of the client as a whole |

`tests/` runs the library; the proofs are checked by Verus on `src/lib.rs`.
