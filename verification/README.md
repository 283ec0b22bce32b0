# dns

A small DNS server. Questions for listed domains are answered with an address that leads
nowhere; other questions are resolved by asking name servers from the root down, with a cache, or
by forwarding them to public servers in turn.

`src/` is the library, verified with Verus:

- `packet` - what to do about a request, and the replies
- `message`, `record`, `name`, `text` - messages and their parts; their wire form is that of
  `hickory_proto`
- `blocklist` - which domains are not resolved
- `cache`, `cache_util` - what is kept of earlier lookups, for how long and under which key; the
  entries live in a `moka` cache
- `resolver::response`, `resolver::lookup`, `resolver::iterative` - what a response means, the
  steps of one lookup, and the resolution of a question with the lookups nested in it
- `resolver::laws` - what holds of every resolution
- `resolver::recursive` - forwarding
- `resolver::transport` - which response belongs to which request

The library makes no exchange itself: `IterativeResolver::resume` and
`RecursiveForwardResolver::forward` say which request to send where, and are given what came back.

`app/` is the server around it: `dns <port> <0|1>`, where `0` asks name servers from the root down
and `1` forwards. It reads the blocklist from `ads-nl.txt` and its limits from `DNS_MAX_INFLIGHT`,
`DNS_QUEUE_TIMEOUT_MS`, `DNS_UPSTREAM_TIMEOUT_MS` and `DNS_MAX_PENDING_UPSTREAMS`.
