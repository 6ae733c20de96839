# ccx

Input-deck handling, model summaries, migration catalogs and naming rules of
a CalculiX toolchain, written in Verus: the functions in `src/` carry
contracts that Verus proves, apart from two trusted wrappers of `String::push`
and `str::to_uppercase`.

- `src/` — the verified library: the `.inp` deck grammar (`deck`, `inp`,
  `inp_basic`), `*INCLUDE` expansion as a state machine (`expansion`), deck
  summaries and analysis detection (`model`, `analysis`), node- and
  element-card reading (`mesh_builder`, `mesh`), boundary-condition and
  material cards (`bc_builder`, `bc`, `materials`), the decisions of an
  analysis run and of the validation suite (`pipeline`, `validation`), FRD
  result-file records
  (`frd`, `results`), legacy source catalogs and migration reports
  (`catalog`, `gui_catalog`, `migration`), the symbol rules and routine table of
  the C/Fortran bridge (`compat`, `registry`), Nastran conversion (`converters`),
  report texts (`output`), and the small string routines of the GUI (`gui_string`).
- `tests/` — tests run against the compiled library.
- `app/` — the command-line program: file and directory access, the
  floating-point values (coordinates, loads, material constants, VTK output),
  restart files, and the glue that answers the include expander's requests.
  The finite-element solver itself (element matrices, assembly, linear and
  eigenvalue solves) is not part of this project: `solve` and `validate`
  set the model up and stop where the solve would start.
