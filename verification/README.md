# zzzcap

A passive capture of Zenless Zone Zero sessions. It reassembles the game's traffic, recovers
the session keys from the login, decodes the messages, keeps the inventory of discs, w-engines
and agents that they describe, and exports it: to a file, or live to an optimizer in the
browser.

The logic is a library whose functions state in contracts what they compute, proved with
Verus. Around it stands a program in ordinary Rust.

## Layout

`src/` is the library.

- Wire: `kcp` (reassembly), `proto` (messages), `protonap` and `xor_fields` (descriptors and
  the masks on integers), `packet`, `capture` and `dump` (datagrams and recordings).
- Keys: `mt19937`, `xorpad`, `netrand`, `rsa`, `ec2b` (with its tables, their arithmetic and
  its laws), `b64`, `session`.
- Inventory: `datamine` (field numbers), `model`, `snapshot`, `scan`.
- Export: `zod`, `json`, `names`, `nanoka`, `settings`.
- Live: `region`, `live`, `changelog`, `console`, `server`, `frame`, `sha1`.
- Data files: `gamedata`, `refresh`, `update`, `version`.
- Reports: `structure`, `report`, `tally`.
- Helpers: `text`, `lookup`, `sort`, `endian`.

The functions named `law_...` say what holds of several functions together: that a message
comes out of the reassembly as it was sent, that the live payload is the export of what is
held, that a refused data file never replaces a working one.

`app/` is the program: the command line, the window, sockets, files and the capture driver.

`tests/` runs the library on examples.
