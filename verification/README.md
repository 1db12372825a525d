# proc_workshop

The logic of five procedural macros, verified with Verus:

- `#[bitfield]` and `#[derive(BitfieldSpecifier)]`: packed structs whose
  fields are runs of bits (`src/bits.rs`, `src/bitfield_gen.rs`,
  `src/specifier.rs`, `src/checks.rs`, the byte conversions in `src/lib.rs`,
  and the packed struct `MyFourBytes` in `src/four_bytes.rs`);
- `#[derive(Builder)]` (`src/builder.rs`);
- `#[derive(CustomDebug)]` (`src/debug.rs`);
- `seq!` (`src/seq.rs`, over the token model of `src/tokens.rs`);
- `#[sorted]` and `#[sorted::check]` (`src/sorted.rs`, with the string order
  of `src/text.rs`).

Each macro is split in two. The library reads plain values (names, token
trees, the shape of a type or an attribute) and decides what is written or
which error is reported; its contracts state that exactly. The program under
`app/` turns `proc_macro2` streams and `syn` trees into those values, and the
library's answer back into tokens with `quote`.

Verify with Verus from this directory; `tests/` holds the tests of the
library.
