# n3

The building blocks of a QUIC reverse proxy and of its agent, verified with Verus.

The proxy accepts QUIC connections and redirects each of their streams to a TCP target. The agent does
the reverse: it accepts TCP connections and carries each of them over a QUIC stream to the proxy.

`src/` is the verified library. It holds no socket, no clock and no protocol stack: time comes in as a
number of microseconds, and what the system or the protocol stack has answered comes in as a plain
value. The library decides what follows.

| module | what it holds |
|---|---|
| `timing_wheel`, `driver`, `heap` | timers, and the priority queue behind them |
| `reactor`, `token`, `timeout`, `timers` | the states of event sources and timers, the tasks that wait for them, and timers over time |
| `transfer`, `copy` | moving data from a source to a sink |
| `conn` | the streams of a QUIC connection, and the tasks that wait for them |
| `validator`, `net` | retry tokens, addresses and numbers in network byte order |
| `server`, `client`, `udp_group` | listeners, the handshake of a client, groups of UDP sockets |
| `pool`, `rproxy`, `spawner`, `cli` | the agent's connections, packet routing, thread pool size, command line |
| `errors` | error types |

Each public function states what it returns or changes. The proof functions state what holds across
functions: that no byte is lost, repeated or put out of order by any number of transfers, that a timer is
ready from the tick of its deadline on and not before, that no event is lost, that a retry token proves
the connection that it was minted for, and the address among those of the same family, that a stream is
announced once, that a listener never holds more connections than its maximum.

`app/` is the program around the library: it polls sockets, runs tasks, and drives the protocol stack.

`tests/` runs the library on concrete values.
