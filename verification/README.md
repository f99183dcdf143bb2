# nulconnect-helper

The privileged helper of NulConnect, with its logic proved in Verus.

The helper runs as a daemon on macOS and as a service on Windows. It opens a
TUN device, carries packets between the device and the tunnel service, ends
managed TCP and UDP flows in user space, and sets up routes, name resolution
and system proxies.

## Layout

- `src/` is the verified library. Every function states in its contract what it
  returns or changes.
  - Packets and flows: `packet`, `tun_stack`, `tun_tcp`, `tun_udp`, `sockets`,
    `traffic`, `vpn_engine`, `tun_proxy`.
  - macOS: `routes`, `networksetup`, `settings`, `resolver`, `helper`,
    `helper_runtime`.
  - Windows: `windows`, `windows_log`, `windows_net`, `windows_plan`,
    `windows_ipc`, `windows_service_host`.
  - Ground: `text`, `number`, `sorted`, `ipv4`, `encoding`, `error`.
- `app/` is the program around it: devices, threads, sockets, pipes, system
  calls and serialisation. It performs the steps that the library decides on and
  reports what came of them.
- `tests/` runs the library, with the sockets of `smoltcp` behind it.

## What is proved, beyond the single functions

- A round of the transport stack serves every flow by itself, leaves other
  sockets alone, keeps buffers and queues within their limits, and counts what
  it passes on.
- Nothing that a tunnel delivers to a connection is lost: it arrives in order,
  and what finds no room waits. What a connection sent is taken in order.
- An accepted connection becomes a flow, and its target listens again.
- Every request on the Windows pipe gets an answer with its id, and data or an
  error, never both.
- Undoing a network installation on Windows brings the routes back. What has to
  be undone is noted before anything else is done about it, a later helper can
  make up for one that never came to undo it, and a stop or a cleanup leaves no
  record. A stop overtakes whatever was begun before it.
- An installation on Windows leaves the helper and its driver in their directory
  and the service registered and running; one that is refused changes nothing.
  The tunnel interface ends up with its own address alone.
- Once a stop of the engine is over, nothing happens to it any more, and it says
  that it is stopped.
- Setting the system proxy on macOS reaches every service and never writes over
  the settings that were saved, and restoring it brings them back.
- A start that fails is cleaned up, step by step.

## What is trusted

The calls into `smoltcp`, `base64`, `serde_json`, `clap` with `tun2proxy`, and
the texts of errors of `reqwest`, `rsa`, `serde_json`, `url` and the standard
library. Each stands in a small function or declaration whose comment says what
is claimed.
