# stormnetboot

The network boot chain, verified. `src/` is a library whose contracts Verus proves;
`app/` is the ordinary Rust around it: sockets, files, processes, firmware calls.

| Module | What it decides |
|---|---|
| `server` | who may boot and from what: host records, claims, iPXE scripts, signed pallets, boot state, metrics, the console feed, `BootHost` status |
| `init` | what PID 1 of the initramfs does with a kernel command line, step by step |
| `agent` | what a booted node reports about itself and about flow-over |
| `firmware` | how a UEFI image attaches an NVMe/TCP namespace and serves it as a disk |
| `handover` | that the initramfs reads back the command line the server wrote |
| `text`, `strings`, `bytes`, `http1` | what the others are stated over |

A function that the outside world interrupts is split there: the library says what to
send or do next, and takes what came back as a value. What holds of several functions
together stands beside them as `law_…` proof functions.
