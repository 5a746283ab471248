# Couch Denon integration

Control of a Denon AVR's main zone over its CR-delimited TCP protocol: power,
volume, mute and input selection.

`src/` is the library. It holds what a connection says and decides, and is
verified with Verus; it reads no clock and opens no socket.

| module | what it holds |
| --- | --- |
| `text` | characters, names of inputs, trimming, UTF-8 |
| `error` | failures and the errors they are reported as |
| `settings` | the address of the receiver, and which addresses are refused |
| `decibels` | levels in tenths of a decibel, from and to single-precision numbers |
| `state` | the receiver's state, and what a line reports of it |
| `command` | commands, their lines, and what confirms them |
| `line` | lines out of the bytes that arrive |
| `sources` | the list of inputs |
| `exchange` | the course of a request |
| `client` | the connection: how a request goes on, step by step |
| `dial` | how the connection comes about, address by address |
| `laws` | what holds of all of them together, proved from their contracts |

A request begins with `Client::status`, `command`, `sources` or `next_event`.
Each returns a `Step`: bytes to wait for, bytes to write after a pause, or the
outcome. The owner of the connection performs it and hands the result to
`received`, `read_failed`, `sent` or `write_failed`, which return the next step.
In the same way `Client::connect` begins to dial, and a `Turn` says which of the
receiver's addresses to try next. Times are nanoseconds of a clock that does not
go back.

`app/` is the program around the library: the socket, the settings file and the
subprocess protocol. It needs `couch-plugin` and `couch-sdk` at one Couch
revision.
