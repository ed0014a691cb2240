# WispMQ

An MQTT broker for versions 3.1, 3.1.1 and 5.0 whose logic is verified with
Verus: the functions of the library carry contracts that say what they return
and change, and Verus proves that they do.

## Layout

- `src/` is the library. It holds everything that decides or computes: the
  packets and their bytes, topics, sessions, routing, QoS 1 and 2, retained
  messages, wills, shared subscriptions, policies and passwords, the limits,
  the configuration, the statistics, the admin interface, bridges.
- `tests/` runs the library on concrete values.
- `app/` is the program around it: sockets, TLS, WebSockets, SQLite, telemetry
  export, signals. It performs what the library decides and hands back what
  happened.

## How it is stated

Each type has a view, a mathematical value such as a sequence or a map, and the
contracts speak of views. What a packet does to the broker is a spec function
from one view to the next (`BrokerView::on_connect`, `on_publish`,
`on_subscribe`, `on_closed`, ...), and the executable handlers are proved to do
exactly that. Invariants are spec functions named `wf`.

What holds across functions stands as public proof functions beside them: that
decoding gives back what was encoded, that a QoS 2 publication is routed once,
that one member of each group gets a message, that a session taken over tells
its old connection, that nothing beyond the policy is published, and so on.

## What is taken on trust

A few calls into other crates and the standard library are believed rather than
proved. Each stands in a small function marked `external_body`, or in an
`assume_specification`, whose comment says what is claimed of the call:
`serde_json` (JSON values and text), `ring` (password hashing, random bytes),
`rustls_pemfile` and `x509_parser` (certificates), and `String::push`,
`String::from_utf8_lossy`, `core::str::from_utf8`, the parsing of a socket
address, the quoting of a text and the clock of the standard library.
