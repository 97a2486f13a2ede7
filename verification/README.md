# EntroTunnel

A self-hosted VPN and proxy: a server with an admin API, and clients that reach it
over TCP with Noise, over WebSocket or over QUIC, directly or through a chain of
servers.

`src/` is the library, written in Verus: the protocol and its encoding, the message
channels, sessions, routing and statistics of the server, and what the clients decide
and which commands they run. Each function states what it returns in its contract, and
the properties that relate several functions are public proof functions named `law_*`.
Calls into other crates stand behind small functions whose contracts are trusted; their
doc comments say which function they call and what is claimed of it.

`app/` is the program around it: sockets, TLS, TUN devices, files and processes. It does
what the library decides and reports back what happened.

`tests/` runs the library with the real crates.

| module      | what it holds                                                        |
|-------------|----------------------------------------------------------------------|
| `protocol`  | frames, their encoding, and reading and writing them                 |
| `transport` | message channels: length-delimited, WebSocket, Noise                 |
| `crypto`    | the Noise handshake and TLS material                                 |
| `server`    | configuration, admission, routing, metrics, network setup, admin API |
| `client`    | configuration, sessions, chains, the local HTTP and SOCKS proxy, network setup |
| `desktop`, `mobile`, `cli`, `logs` | what the front ends decide                    |
| `addr`, `bytes`, `text`, `cmd`, `tun`, `config`, `error` | what the rest is built from |
