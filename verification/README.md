# coredns-rust

A DNS server that is configured with a Corefile. A query goes through a chain
of plugins, in the order of their ranks, and back through the same chain in
reverse. The logic is a library whose behaviour is stated in contracts and
proved with Verus; the program around it does the input and output.

## Layout

- `src/config.rs`: the tokens, blocks and zones of a Corefile, and the order of
  the plugin chain
- `src/dns_server.rs`: the listeners, the run of a query through the chain, and
  what is sent back
- `src/plugin/`: the plugins (`cache`, `errors`, `forward`, `health`, `log`,
  `prometheus`, `reload`, `whoami`, `dummy`)
- `src/types.rs`, `src/wire.rs`: messages, and their bytes
- `src/text.rs`, `src/duration.rs`, `src/metrics.rs`: texts, lengths of time,
  measurements
- `src/outside.rs`: the calls into other crates, with the contracts that are
  believed of them
- `app/`: sockets, TLS, timers, the log and the exposed measurements

## Conventions

- A point in time is a number of nanoseconds on a clock that never goes back. A
  length of time is a number of milliseconds, but for the lifetimes of kept
  answers, which are in seconds.
- The library never waits. Where a plugin needs a permit or a reply of an
  upstream server, the run of the query says so in its stage, and goes on when
  it is told the outcome.
- Measurements are returned as values and recorded by the program.

## Example

    .:1053 {
        log
        cache
        forward . 1.1.1.1 8.8.8.8 {
            policy sequential
            failover SERVFAIL
        }
    }
