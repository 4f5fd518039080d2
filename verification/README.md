# html5ever

An HTML5 tokenizer, the frame of a tree builder, and a tree of owned nodes, written in
Verus.

- `src/util`: strings, interned names, small sets of characters.
- `src/tokenizer`: the tokenizer. `machine`, `rules` and `config` say what every character
  and the end of the input do. `actions`, `steps`, `char_ref` and `buffer_queue` do it, and
  are proved to do just that. `laws`, `names`, `chunks` and `quiet` hold what follows for
  every input: which tokens can come out, what names look like, that it does not matter how the input is cut into
  pieces, and that exact errors change nothing but errors. `entities` holds the named
  character references.
- `src/tree_builder`: what is done with a token before and after the rules of tree
  construction are applied to it. The rules themselves are up to the caller.
- `src/sink`: a tree that is built by a tree builder, and its finished form.
- `src/serialize.rs`: the calls that write a finished tree.
- `src/capi.rs`: the calls that a token becomes in C.
- `app`: what cannot be proved here, such as raw pointers for C and output.
