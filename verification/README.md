# mwan4

A multi-WAN failover daemon for Linux. It probes several uplinks, keeps the
kernel's default route on the best ones that work, and deletes the tracked
connections of an uplink that fails.

- `src/` is the library: everything that the daemon decides, and every byte it
  sends to or reads from the kernel. All of it is verified with Verus. Operations
  that take several requests are state machines: a call gives the next request,
  and is called again with the answer.
- `app/` is the daemon around it: sockets, files, command line, event loop, and
  the floating-point averages.
- `tests/` runs the library on concrete values, and whole operations against a
  simulated kernel.

| Module | Subject |
| --- | --- |
| `config` | the configuration and its rules |
| `errno` | error numbers that depend on the machine |
| `lqe` | when a line is up or down |
| `prober` | what a connection attempt says about a line |
| `failover` | which lines are active, and what is due at a tick |
| `plan` | which probe targets need a host route, and through which line |
| `worker` | putting waiting commands together, the route's description |
| `netlink::util`, `message`, `text` | numbers, headers, attributes, texts |
| `netlink::route`, `request` | requests for routes, rules and nexthops |
| `netlink::reply` | answers, dumps, lookups |
| `netlink::manager`, `apply`, `probe_path`, `cleanup` | the operations on the kernel |
| `netlink::link` | link and address events |
| `netlink::conntrack` | deleting tracked connections |
| `netlink::*_laws` | what holds of messages and operations as a whole |
