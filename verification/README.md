# hermit_sys

Sockets for a unikernel, on top of the smoltcp network stack: TCP sockets that block or do not,
event sockets that report what other sockets are ready for, and waker sockets that are woken by hand.

`src/` is the library. It holds every rule of the sockets, and Verus proves that it keeps its
contracts. `app/` puts it to work: the kernel's threads, the network device and the global state.

| module | what it is about |
| --- | --- |
| `net`, `event`, `io`, `endpoint` | addresses, event flags, errors, endpoints of the stack |
| `smol` | what is known of smoltcp's TCP sockets, and the calls that read and change them |
| `nic` | the network interface: its sockets and how it is polled |
| `tcp`, `event_socket`, `waker_socket`, `tcp_backlog` | the kinds of sockets |
| `socket`, `proxy`, `map_entry` | a socket of any kind, and ways to it |
| `socket_map` | the sockets by their numbers, and the tasks that wake those who wait |
| `interest`, `look` | where the interests of event sockets lead, and what there is to report |
| `poll`, `close`, `executor` | waiting for sockets, closing them, running tasks |
| `turn`, `sys`, `sys_tcp`, `legacy` | the calls of the socket interface |

A call that may have to wait is made in turns. Each turn takes the sockets and the interface as
plain values, and says whether the call is done, what it waits for, or that it goes on at once.
Wakers that are to be woken are handed out in a list.

Each socket of the network interface is held by at most one socket of the map, and the interface
counts who holds it. All calls keep this, and so never use a socket that was given up.
