# shatters-relay

The logic of a zero-knowledge relay for end-to-end encrypted messages, in Rust, with its behaviour
stated in contracts and proved by Verus.

Clients speak to the relay over QUIC. They publish opaque envelopes to channels, subscribe to
channels, retrieve envelopes that came while they were away, and leave bundles of keys for those who
want to write to them. All of this takes a login with an Ed25519 key.

The wire protocol has no code for a login yet. The library handles one, as
`Operation::Authenticate`, but no frame asks for it, and `app` offers no other way in: until a code
is settled, its clients are told that they are not authenticated.

## Layout

| Path | What it holds |
|---|---|
| `src/protocol` | messages and their encoding |
| `src/ratelimit` | the token bucket that requests are paid from |
| `src/router` | channels, their subscribers, and what becomes of frames sent to them |
| `src/deaddrop` | envelopes, within limits on their number, size and age |
| `src/prekey` | bundles of keys, of which each one-time key is handed out once |
| `src/auth` | logins and the proofs that open a channel |
| `src/server` | what a request does and how it is answered; whom the relay lets in |
| `src/transport` | frames on a stream; the credentials of the endpoint |
| `src/config.rs` | settings |
| `src/table.rs`, `src/clock.rs`, `src/bytes.rs`, `src/sums.rs` | maps, clocks, bytes and sums |
| `app` | the program around the library: sockets, files, tasks and logging |
| `tests` | tests |

Each part states what its operations do in a `model` of its own, over mathematical maps and
sequences, and what holds over all of them in its `laws`.

## What is taken on trust

Calls into `dashmap`, `tokio`, `ed25519-dalek`, `rustls-pemfile` and the clocks of the standard
library stand behind small functions whose contracts are believed, not proved. Each says in its
comment which call it makes and what is claimed of it. What depends on such a call has a sibling
that takes the result of the call as an argument and is exact for every value of it: `store` has
`store_at`, `publish` has `settle`, `dispatch` has `dispatch_at`. Where signatures and queues are to
be given too, there is `dispatch_with`.

Frames go to queues on the record: `src/router/outlet.rs` is the only way to a queue, and keeps, for
contracts alone, a list of what was offered to whom. So a contract can say that a frame was offered
once, and to nobody else.

The library has no locks. Its types are changed through `&mut` references; `app` puts them behind a
mutex.
