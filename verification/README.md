# rust_just_rates

A relay between metric publishers and websocket subscribers. Publishers send
commands in UDP datagrams (`DATA <payload>`, `GET_SUBSCRIBER_COUNT`, `PING`).
The library decides, for each datagram, either one reply or a payload to
publish, and for each published payload one delivery of that text to every
connected websocket client. Handing those texts to the websocket connections
is done by the program in `app/` and is not verified.

- `src/` is the verified library: the protocol (`app`), the subscriber
  registry (`registry`), the page response (`http`) and text helpers
  (`text`), with their contracts and the laws they obey, checked by Verus.
- `app/` is the program around it: sockets, threads and channels.
- `tests/` exercises the library on concrete datagrams.
