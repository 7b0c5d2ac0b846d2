# ntz_proto

A UDP tunnel over a TUN interface. A client reads IP packets from its TUN interface and sends them to
a server over UDP; the server hands them to the network and sends the answers back.

`src/` is the library: the logic of both sides, verified with Verus. It decides and computes, and
performs no I/O but for reading the clock.

- `addr`: texts of IPv4, IPv6 and socket addresses, and IPv4 networks
- `text`: numerals, words, trimming and quoting
- `packet`: the one-line description of a packet
- `command`, `setup`: commands, and setups whose later commands depend on earlier answers
- `linux_routes`, `windows_routes`: the client's routes
- `server`: address translation, and what the server does with each packet
- `client`, `relay`: what the client does with each packet, and the record of each hop
- `clock`, `tun`: time stamps, and the parameters of the interface

`app/` is the program around it: arguments, sockets, the TUN device, threads and child processes.
`tests/` runs the library on concrete values.
