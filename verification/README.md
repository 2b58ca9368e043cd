# sift

Will this model run on your machine, and how fast? Answered before you download it.

`sift` measures a machine, reads a model's real header straight off a hub without downloading
the model, and says which quantization fits, how fast it will be and which engine should run it.

- `src/` is the library: everything that is parsed, computed, decided and told. It is written in
  [Verus](https://github.com/verus-lang/verus), and every function in it is proved to do what its
  contract says. It does no I/O.
- `tests/` runs the library on concrete values.
- `app/` is the command-line program around it: arguments, files, requests, threads and clocks.

What is taken on trust is what `serde_json` and a few functions of the standard library do. Each
such function is a small wrapper whose doc comment names what it calls and what is claimed of it.
Numbers that are not whole are kept as exact quotients; only the program, when it prints one,
divides.
