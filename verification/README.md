# smb2

SMB2 durable handles, and the tools that test and measure them, verified with Verus.

- `src/` is the library. It does no input or output.
  - `durable`, `connection`, `create`, `create_context`: opening a file so that the open survives
    a disconnect, and claiming it back on two independent proofs that it is still the same file.
  - `fault_injection`: servers that stay connected and stop cooperating, and a NAS that goes away
    and comes back.
  - `args`, `config`, `plan`, `report`: the directory-listing probe, up to the numbers it prints.
  - `types`, `header`, `error`, `bytes`, `text`: what the others are made of.
- `tests/` runs the library.
- `app/` is the ordinary Rust around it: sockets, files, clocks, and formatted text. The SMB client
  is handed in through traits.

## What is proved

Every function of `src/` is verified against its contract. The functions named `law_...` state
what holds of the library as a whole. Among them:

- A reclaim succeeds exactly when the server gave the open back and named the file that was
  recorded at open, and however often a handle is reclaimed, it stays a handle to that file.
- Whatever handle a failed reclaim's answer hands out is named for closing.
- A reclaim repeats, byte for byte, the guid that its open put on the wire.
- No two cold measurements of the listing probe list the same directory.

## What is trusted

Two functions of the standard library are taken at their documentation's word: `String::push` (in
`text`) and `slice::sort_unstable` (in `report`).
