# brenn_server

What a Brenn server decides while it boots, verified with Verus.

`src/` is the library. Every function in it is proved against its contract, but for the few small
ones that call an outside crate and are believed:

- `surfaces`, `surface_bindings`, `surface_scene`, `surface_rules`, `surface_grants` resolve the
  operator's page surfaces against the channel directory; `surface_laws` says what holds of every
  surface that is accepted.
- `wasm` and `wasm_laws` do the same for WASM consumers.
- `draft` puts both together with the rights they hold by being there, `delivery` and `wiring`
  check that every subscriber can receive and is reachable, `dynamic` brings stored subscriptions
  back.
- `apps`, `channels`, `mqtt`, `egress`, `gc`, `obs_config` and `boot` hold the remaining decisions.
- `drift` watches fields of a stream disappear, `prefix` writes the prefix of a message.
- `model`, `text`, `address`, `directory`, `policy`, `rings`, `clients` are what these are built
  from.

A refused configuration is an error value that names the first fault and its place; the contracts
say exactly which configurations are refused, and with what.

The insertion-ordered collections come from `indexmap`, the clock of a time zone from `chrono` and
`chrono-tz`. What is believed of them stands in the contracts and doc comments of the functions that call them.

`app/` is the server around the library: the boot order, the cleanup loops, the shutdown signal and
the messages to the operator. `tests/` runs the library on concrete configurations.
