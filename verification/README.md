# vidaptive

Responsive rate control for real-time video, verified with Verus.

A session decouples **encoder output** from the **wire rate**: a pluggable congestion controller
and a pacer decide when bytes leave the sender, dummy padding keeps the feedback loop tight while
the media queue is empty, and an **α optimizer** adapts the encoder target bitrate to the capacity
of the link. Packets come pre-formed; encoding, framing and the network are the application's.

## Layout

| Path | Content |
|------|---------|
| `src/session/` | the session: queueing, transmitting, pausing, capture advice, feedback |
| `src/transport/` | pacer queue, deadlines, bytes in flight, backlog fillers |
| `src/encoder_ctrl/` | encoder pause and the α optimizer |
| `src/metrics/` | service-time samples, percentiles, video bitrate |
| `src/cc/` | congestion controllers: `Copa`, `Rocc`, `NoopCc`, and round-trip time filters |
| `src/config.rs` | tunables and their validation |
| `src/types.rs` | packets, frames, advice, actions |
| `src/binary64/` | binary64 numbers computed on their integer encodings |
| `src/time.rs` | spans and clock readings in whole nanoseconds |
| `app/` | conversions from and to `std`, the system clock, error messages |

Each `laws.rs` states what holds across calls: the order and conservation of payloads, the bytes
in flight, the spacing of sends, when filler may be sent, when the target changes, and the range of
α. `src/session/history.rs` states the laws of a whole sequence of calls, `src/session/replay.rs`
those of two sessions under the same calls.

## Plain values

Every decision is a function of its inputs. Clock readings are passed in as `Instant`; nothing in
`src/` reads a clock. Fractions are `Binary64` values: the operations round once, to nearest with
ties to even, and their contracts state the exact result, so α, percentiles and rates are specified
to the last bit. `app/` converts both from and to the native types.

## What is trusted

Payloads are `Bytes` of the `bytes` crate. Its `copy_from_slice`, `len`, `is_empty`, `clone` and the
conversion from a vector are described by contracts over the bytes that a buffer holds; everything
else is proved.
