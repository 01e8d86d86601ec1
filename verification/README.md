# Audiophore

Audiophore turns the audio analysis of a VJ program into light: it listens to
OSC over UDP, maps the audio to the colors of pixel strips, and sends those as
E1.31 (sACN) packets.

The library under `src/` is written in Rust and verified with
[Verus](https://github.com/verus-lang/verus). The program under `app/` adds the
sockets, the clocks and the command line.

## The library

| Module | What it does |
|---|---|
| `rounding`, `binary32` | IEEE 754 numbers as bit patterns: comparison, clamping, addition, multiplication, conversion, each correctly rounded |
| `types`, `zone_map` | audio frames, zones, payloads |
| `frame` | the builder that keeps the latest audio values, always in range |
| `osc`, `ingress` | decoded OSC packets and where their numbers go |
| `mapping` | the rule from audio to color |
| `bus` | the latest frame, shared between one producer and many consumers |
| `engine` | datagram in, published frame out |
| `run_loop` | the decisions of the loop that drives an output adapter |
| `buffer`, `cid`, `packet` | E1.31 data packets, byte for byte |
| `partition`, `adapter_core`, `adapter` | pixels split across universes, and the adapter that sends them |
| `text`, `monitor` | what `audiophore monitor` prints |

What the library relies on without proof is marked `external_body`,
`external_type_specification` or `assume_specification`, next to a comment that
names the outside function: `rosc` decodes OSC, `bytes` holds the packet under
construction, `uuid` draws component identifiers, `arc-swap` holds the latest
frame, and `String::push` appends a character.

## The program

```sh
audiophore monitor --port 9000 --raw
audiophore run --sacn-host 192.168.1.50 --pixels 300
```
