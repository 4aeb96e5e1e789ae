# Machine Elves

A mesh of volunteers' machines that keeps a shared job running: nodes find each
other, notice when one of them leaves or dies, and continue its work from where
it was. A probe tells beforehand what an internet connection can do.

- `src/` is the library, verified with Verus: what a node and the probe decide,
  how jobs are run and what they hand back, what nodes say to each other, and the
  laws that hold of all of it. `src/lib.rs` says which module holds what.
- `tests/` runs the library, with the real sandbox and the real network types.
- `app/` is the program around it: arguments, sockets, clocks and printing. Called
  as `mesh-probe` it is the probe, and called as anything else it is a node.

What the library believes of the crates it calls (wasmtime, libp2p, sha2) stands
as contracts on the functions that call them, in `guest`, `peer` and `digest`;
what it believes of std stands in `text`, `utf8` and `chance`.
