# centinel_core

The decisions of Centinel, a civic-transparency archiver, as a verified library: what each
verb decides, counts and says. Each function in `src/` carries a Verus contract that says
what it returns, and Verus proves it; where a result comes from an outside crate, the
trusted declaration that makes the call says what is assumed of it.

- `src/` — the library. `text`, `counts`, `page`, `address` and `domain` are the shared
  vocabulary (numbers and sizes as text, named counts in key order, the lines a report is
  written to, parsed addresses, liveness and notes). `op` holds the shapes every verb
  shares. `ops/` holds one module per verb: its arguments, the choices it makes, the
  report it returns and how that report reads.
- `tests/` — the library's tests, run against the compiled crate.
- `app/` — the host side: the reports in their JSON form, and for several verbs the loop
  that alternates fetching with the library's decisions. The store, the config, the model
  registry and the chunker are not part of this crate; the loops reach them through
  traits a host implements, and some verbs have no loop here yet.

Reports render to a `Page`: a list of lines at a depth, with glyphs for marks. Every
`render` states the exact lines it writes, so what a report says is part of its contract.

## Maps as vectors

Named counts (`Counts`) are a vector of pairs kept in key order, not a `BTreeMap`; the
hosts a crumb pass knows and the chunk counts per source are plain vectors, not a
`BTreeSet` or a `HashMap`. The keys are text, and with a `String` key vstd's
specifications of those maps prove nothing about what a lookup returns after an insert.
A vector lets every contract say exactly which entry sits under which name: `Counts`
keeps its keys strictly increasing as a type invariant, so a report lists them in one
order however the counting went, and the others are searched in full.
