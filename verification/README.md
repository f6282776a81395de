# SeedNet

A decentralised private overlay network: devices that know the same seed phrase
find each other on the BitTorrent hash table, shake hands with Noise, and exchange
IP packets over an encrypted mesh, directly or by way of a relay. No accounts, no
servers of its own.

* `src/` is the library. All of it is verified with Verus: the wire formats, the
  identities and addresses derived from a seed, the handshake and session state,
  peers, routes and relays, the decisions of a node for each packet and timer, the
  files of the state directory, and the texts and keys of the command line and the
  full-screen program. Its functions take and give plain values; none of them does
  I/O.
* `app/` is the program around it: sockets, the TUN device, files, processes and the
  terminal.
* `tests/` holds the tests of the library.

Where the library calls another crate (hashes and keys, Noise, randomness, clocks,
buffers, JSON) the call stands in a small function or declaration whose contract
Verus takes on trust. Its doc comment says what is claimed.

The `wf` and `ok` functions are the invariants of the types; every constructor
establishes them and every method keeps them. Properties that relate several
functions stand as public proof functions beside the functions that they speak of.
