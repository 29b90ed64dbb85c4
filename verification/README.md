# buffa

A protobuf runtime and code generator whose behaviour is stated in contracts and
proved by Verus.

- `src/` is the library. The runtime modules (`encoding`, `size_cache`,
  `two_pass`, `context`, `merge`, `message`, `options`, `pool`) cover the binary
  wire format and the limits of decoding. `src/codegen/` covers what the generator
  decides around the code of single messages: options, packages, files, module
  trees, re-exports and warnings.
- `tests/` runs the library on concrete values.
- `app/` holds what meets the outside: readers, chunked buffers, the environment,
  the generators of single elements, and errors that print themselves.

Properties that relate several functions are public proof functions whose names
begin with `law_`. Calls into other crates (`bytes`, `proc_macro2`, `syn`, `quote`,
`prettyplease`) stand behind small wrappers marked `external_body`; each says what
is taken on trust.
