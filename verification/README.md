# nmdns

Multicast DNS (RFC 6762) responder, record cache and cross-interface repeater,
written and verified with Verus.

* `src/` is the library: every decision of the daemon, with its contract. Domain
  names, records and messages (`dns`, `wire`), the cache (`cache`), rate limiting
  and delays (`timing`), the published records (`services`), responses
  (`responder`), probing, announcing and goodbyes (`announce`), browsing
  (`browser`), relaying (`repeater`), interfaces (`iface`), configuration
  (`config`, `preflight`) and the handling of a datagram (`engine`).
* `src/laws/` states what holds of the library as a whole.
* `tests/` runs the library.
* `app/` is the program around it: command line, configuration file, sockets,
  timers and signals.

Contracts speak of *views*: sequences and integers in place of vectors and machine
words. Operations that depend on the time come in two forms, one that takes the time
as an argument and one that reads the clock. All times are in nanoseconds.

The message format and the text form of names come from `hickory-proto`, random
numbers from `fastrand`, the machine's name from `nix`. What is assumed of these
crates, and of the system's clock, stands in the contracts of the functions marked
`external_body`.
