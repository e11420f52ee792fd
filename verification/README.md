# qs_rust

The building blocks of a `qs`-style query-string codec, written in Verus and
proved against their contracts.

## Layout

- `src/` — the verified library.
  - `value.rs` — the value tree (`Value`), with objects as ordered entry lists
    in place of an ordered map: `object_insert` and `object_from_pairs` keep
    one entry per key, as the map would. `ValueModel` is its contents, which
    a clone keeps; `==` compares contents, floats as floats.
  - `temporal.rs` — validated datetimes, their canonical ISO-8601 text and the
    parser for it; the text of every valid datetime parses back to it.
  - `key_path.rs` — shared key paths with cached text and cached dot encoding.
  - `node.rs` — the tree built while decoding, and its shape (`Tree`).
  - `overflow.rs` — canonical numeric keys and the passage from lists to
    overflow objects under the list limit.
  - `merge.rs` — the merge rules, stated on shapes (`merge_tree`), the merge
    that follows them, and the laws they keep (keys stay unique, overflow
    indices never go down, nulls and placeholders). The merge is a loop over
    an explicit stack of pending folds, so deep trees do not grow the call
    stack; `merge_indices_fit` checks a source before it, with a worklist.
  - `structured_scan.rs` — where the structure of a flat key starts, and the
    scan that collects structured keys and their roots (the segment splitter
    of the decoder is handed in as a function).
  - `options/` — decode and encode options (defaults, builders, validation),
    the shared enums and the user callback wrappers.
  - `time_support.rs` — conversions between temporal leaves and the `time`
    crate's datetimes.
  - `chrono_support.rs` — conversions between temporal leaves and `chrono`'s
    naive datetimes and fixed offsets.
  - `error.rs` — decode and encode errors.
- `tests/` — tests of the library.
- `app/` — the serde bridge between serde data and `Value`, serde and
  `thiserror` copies of the value types, and serde field helpers for `time`
  and `chrono` datetimes (a `chrono` `DateTime<FixedOffset>` is joined from
  the naive datetime and offset that the library gives).

Floating-point scalars are held in `Value::F64` as their IEEE-754 bit
pattern; `app/` converts them to and from `f64`.
