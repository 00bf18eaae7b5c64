# ubgp

A Linux, announce-only BGP daemon whose logic is verified with Verus. It exports
ACL-permitted kernel prefixes from selected routing tables to directly connected
eBGP and iBGP neighbors. It never installs routes or redistributes received ones.

## Layout

* `src/` is the verified library. It performs no I/O: bytes, times in milliseconds
  and events come in, bytes and actions go out.
  * `wire`: framing, OPEN, UPDATE, NOTIFICATION and ROUTE-REFRESH, and the checks
    on what peers send.
  * `netlink`: datagrams, route messages, dumps, notifications, ACL-filtered
    exports, and when to read the kernel's routes again.
  * `bgp`: connection selection, sessions, what each peer is told and when,
    retries and listeners.
  * `config`: configuration, export ACLs and validation.
  * `management`: the read-only console. `cli`, `daemon`: starting and stopping.
  * `addr`, `net`, `bytes`, `text`, `clock`: what the others stand on.
* `app/` is the program around it: sockets, threads, timers, signals, the TOML file
  and logging.
* `tests/` runs the library on concrete values.

## What is proved

Every function states exactly what it returns, but for what rests on the byte order
of the machine: `native` may give either order, and what `messages`, `route` and
`dump_status` return holds for one of the two. Beyond that, the `law_` functions state
what holds across functions, among them:

* what is sent is accepted and read back by the checks on received messages;
* the first matching ACL rule decides, and a rule without a range is exact;
* a dump gives each announced prefix once, never more than the limit, and nothing
  after an interruption, a loss, a failure or a malformed record;
* a snapshot is what the replies to all its requests announce, each complete;
* a peer that is up to date knows exactly the permitted kernel prefixes of the
  families exchanged, and nothing once exports are cleared;
* failed refreshes never move the deadline after which exports are cleared;
* two speakers with different identifiers keep the same connection;
* neither console nor error texts depend on a TCP-MD5 key.

## What is trusted

Prefix containment and truncation, the text of prefixes and IPv6 addresses, quoting,
`String::push` and the byte order of the machine come from `ipnet` and the standard
library. Their contracts stand beside the calls in `src/net.rs`, `src/text.rs` and
`src/netlink/message.rs`.
