# mtr_rs

The verified core of an mtr-style traceroute: the line protocol spoken between the client and
its privileged probe helper, the helper's packet construction, reply parsing and probe
bookkeeping, the client's probing engine, and its per-hop history and statistics. The
functions of `src/` carry contracts that Verus proves; the few that call into std or an outside
crate (`#[verifier::external_body]`) state what that code is documented to do, and that part is
taken on trust.

## Layout

- `src/`: the library.
  - `text`, `tokenize`, `error`: characters, words, numerals and the `<token> <name> [<key>
    <value>]*` line format.
  - `ipaddr`: IPv4/IPv6 addresses, their text in both directions, and the proof that the text
    of an address reads back as the address.
  - `mpls`, `request`, `response`: the protocol's messages, with encoders, parsers and the
    round-trip laws (`lemma_request_round_trip`, `lemma_response_round_trip`,
    `lemma_mpls_round_trip`).
  - `cdecode`: the helper's C-compatible reading of `send-probe`.
  - `construct`, `deconstruct`: the Internet checksum and why it balances a packet, ICMP echo
    requests, UDP datagrams, and the parsing of ICMP replies and RFC 4884 MPLS extensions.
  - `probe_table`, `replies`, `sending`, `stream`, `sockets`: outstanding probes and how replies,
    queued socket errors and finished connects are matched to them.
  - `command`, `backend`: the bounded command buffer and the dispatch of command lines to a
    probe backend.
  - `engine`: the client's probing engine: batches of probes with growing TTL, the per-hop
    cache, replies and timeouts recorded at their hops, the interactive actions, cycles and the
    end of a run, as a step function from event to commands. The clock, the random draws
    (packet size, bit pattern) and the floating-point means of a reply are its arguments.
  - `history`, `hop`, `stats`, `fields`: the client's per-hop view.
- `tests/`: tests of the library.
- `app/`: the helper program: sockets, system calls, privileges, the poll loop; and for the
  client, the floating-point statistics and formatting and a driver that runs the engine on the
  wall clock.
