# squash

A compact binary format for Roblox-style values, as a library verified with
Verus.

Values are pushed forward onto a byte cursor and popped back off its end, last
in first out. `SquashObject` gives each type its own fixed format; `SerDes`
codecs (`codec`) describe formats built at run time: numbers of any width,
VLQs, ranges, literals, strings, buffers, bit arrays, arrays, maps, options and
tuples. Every format is stated as a function from values to bytes and back, and
each type proves what reading its bytes gives back. For most types that is the
value written. The exceptions follow the format itself: `None` is written as
`0x01` and does not read back, a non-empty `Vec` writes its count first and
does not read back, `Axes` exchanges `bottom` and `front`, and a literal reads
back as the first entry equal to the value.

Layout:

- `src/cursor.rs`: the byte cursor and its model.
- `src/object.rs`: `SquashObject`, `serialize` and `deserialize`.
- `src/num/`: little-endian numbers, odd-width integers, VLQs.
- `src/codec/`: the `SerDes` codecs.
- `src/ds/`, `src/roblox/`: packed booleans and the Roblox value types.
- `src/de.rs`: the depth and element-count rules of the serde reader.
- `app/`: floating-point values and the serde `Deserializer`.

Not carried over: the two derive macros of the original (`SquashObject` and
`ReverseDeserialize` derives), which generate code at compile time and cannot
live in a verified library; the impls written out for each Roblox type take
their place. Also not carried over: the serde `Serialize`/`Deserialize` impls
of the library's types (`Vlq`, `Axes`, `Faces`, `Cframe`, the Roblox records):
a serde impl cannot stand inside the verified library, and `app/` may not
implement serde's traits for the library's types.
