# compiler

The middle end of the coil compiler, written and verified in Verus.

- `manifest`, `lockfile`, `paths`: project files and module resolution.
- `il`: stack code, with the store-cursor and operand-height analyses (`tell`, `sp`), strength
  reduction of loop counters and removal of unused functions.
- `mir`: SSA form for numeric bodies. `infer` and `lower` make it, `valid` says what a valid
  function is and which rewrites keep it, `cse`, `instcombine`, `licm`, `destprop` and `sroa`
  improve it, `emit` and `emit_lir` turn it into dense or stack code, and `gc`, `stackmap` and
  `deopt` record what the collector and the debugger need. `sealing`, `roots`, `forks` and
  `hoisting` state what the builder, the recorded roots and the passes guarantee.

Contracts speak of a mathematical view of each type. Laws that relate several functions are public
proof functions in the module that they are about.

Host calls go by a table of rows that the embedder hands over (`HostNative`). A body becomes dense
code with the strength reduction and the vectorization that the embedder hands over as functions.

Floats appear as bits. Where a pass folds float arithmetic, it reads results from a table
(`FloatOp`), and says which results it would like to have. `app/` computes those, and reads files.
