# objc2_tools

Verified pieces of an Objective-C bindings toolchain, written in Verus.

- `library` and `module_text`: a framework's generated files, kept by
  name in increasing order, and the exact text of the `mod.rs` that ties
  them together (header, documentation, examples, link attributes, one
  module per file, and the re-exports of each file's types with their
  `cfg` features sorted and without repeats).
- `block` and `debug_struct`: the `Debug` text of a block object's class,
  flag word, descriptor and layout, in the compact (`{:?}`) and pretty
  (`{:#?}`) forms.
- `text` and `sorted`: the string functions these rest on (trimming,
  replacing, numbers, ordering of strings, sorted string sets).

`app/` writes a library's files to disk and adapts the texts to
`Display` and `Debug`.

Scope:

- A block is described by plain values: the caller reads the fields of a
  block's layout and of its descriptor out of the block's memory (and the
  addresses of the three block classes from the runtime) and hands them
  in. Reading raw memory is not part of this library.
- Foundation classes such as `NSDictionary` are not bound here. Every
  operation on them (`count`, `objectForKey:`, `getObjects:andKeys:`, the
  enumerators, the initialisers) is a message sent to the Objective-C
  runtime, so they hold no logic of their own to verify, and the runtime
  binding crate that sends those messages is not a dependency of this
  library.
