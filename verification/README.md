# boa_string

Strings of a JavaScript engine: immutable sequences of UTF-16 code units, stored as Latin1 bytes or
as 16-bit units, shared by reference counting, with a table of common strings that take no space in
the heap. The code is verified with Verus.

- `src/` is the library. The view of a string is the sequence of its code units, and every contract
  speaks of that sequence, so that the two ways of storing it cannot be told apart except by asking.
  - `js_string`, `js_str`, `iter`, `convert` and `compare` hold the string types and what can be
    done with them; `raw` and `common` hold where the units are.
  - `code_point`, `utf16` and `segments` say how code units stand for code points and text.
  - `whitespace` and `order` hold trimming, searching and the dictionary order.
  - `number` says what kind of number a string spells.
  - `builder`, `private` and `layout` build strings piece by piece and account for their memory.
  - `external` holds the contracts of standard library functions that are relied on without proof.
- `tests/` runs the library on concrete values.
- `app/` adds what goes through floating point, formatting, hashing and the iterator traits.
