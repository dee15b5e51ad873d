# ace_tun

A transparent redirect over a virtual network adapter. Traffic enters a TUN
device, a userland TCP/IP stack terminates each flow, and the flow is matched
against rules: it goes through an upstream HTTP or SOCKS5 proxy, straight out, or
nowhere.

```text
  app ──routes──▶ TUN adapter ──▶ userland stack ──┬─▶ proxy ─────────▶ internet
                                                   └─▶ direct socket ─▶ internet
```

## Layout

- `src/` is the library, verified with Verus: rules and globs, DNS snooping, proxy
  handshakes, flow dispatch, the engine's life cycle, address texts, packet
  framing, and what each platform needs to compute (netlink messages, socket
  tables, interface requests, setup and teardown).
- `app/` is what performs input and output: sockets, devices, system calls and
  tasks.
- `tests/` holds the tests of the library.

## What is proved

Every function of the library states what it returns, and Verus proves it. Beyond
that the library states laws, each a proof function named `law_…`: that the first
specific rule wins, that our own traffic is never proxied, that QUIC is dropped
whoever sends it, that a stored hostname is found until it expires, that the split
default routes cover the whole address space, and others.

What the library has from other crates (`regex`, `base64` and the netlink crates)
it trusts. Each such call stands in a small function of its own, whose comment says
what is trusted.
