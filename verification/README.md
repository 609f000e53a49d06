# helloween

Protocol logic for replicated and peer-to-peer services, written and proved in
Verus.

The library is a set of sessions. A session takes events in, keeps a state of
its own, and says what is to be sent or started next. None of them waits: sockets,
timers and tasks belong to the programs under `app/`, which drive the sessions.

| Module | What it holds |
| --- | --- |
| `wire` | The byte format of messages, and that reading gives back what was written |
| `crypto` | Digests and ECDSA signatures over encoded messages |
| `addr`, `replication`, `transport` | The parties, where they are, and who gets a message |
| `pbft` | Messages and sessions of practical Byzantine fault tolerance |
| `unreplicated` | The service with a single replica |
| `kademlia` | Setups of peers, and lookup of those closest to a location |
| `context` | Signing, addressing, timers and events, simulated or on sockets |
| `net` | Nets for indexes, messages and bytes; frames, connections and datagrams |
| `blob` | Transfer of blobs over ephemeral servers |
| `model`, `submit`, `task` | Channels between sessions and tasks in the background |
| `benchmark`, `control` | Closed loops of workloads, and the figures taken of them |

Public proof functions whose names start with `law_` state what holds across
functions: that quorums intersect, that a request runs at most once, that time
does not go back, that a frame is read as it was written, and the like.

Functions marked `external_body` call other crates. The comment of each says which
function it calls and what is believed of it.
