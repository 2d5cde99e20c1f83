# leaf (verified core)

The decision-making parts of the leaf proxy, written in Verus and proved
against their contracts:

- `domain_trie`, `remote_rule`: domain-suffix tries and remote rule lists
  (suffix and keyword rules, and the retry schedule of their fetch), with
  the laws that tie matching to the rules.
- `fake_dns`, `dns`, `tun`: fake DNS address allocation and answers, the TUN
  device setup, and the TUN inbound's routing of connections and datagrams
  to fake addresses.
- `nat_table`: the UDP session table (open, refresh, expire) and the session
  a new one is dispatched with.
- `routing_history`: the bounded history of routing decisions.
- `rog`, `rog_tcp`: ROG client settings, address parsing, stream read
  buffering, the framed wire format and the encryption of its fields.
- `lifecycle`, `options`, `errors`: start options, lifecycle hooks and the
  result codes of the foreign interface.

`app/` holds part of the asynchronous and I/O plumbing around them: fake DNS
and the NAT table behind locks with their session tasks, frame I/O on
streams, the remote rule fetch loop, and the lifecycle hooks run in a shell.
The runtime, the network stack, the configuration format and the gRPC
protocol that the rest would drive are not part of this crate.
`tests/` exercises the library.
