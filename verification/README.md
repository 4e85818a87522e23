# hegselmann_opinion_simulation

Bounded-confidence opinion dynamics driven by various ways of averaging
(Hegselmann & Krause, 2005).

- `src/` is the verified core: parsing of the start profile and of the
  list of averaging operators, phase classification, counting occupied
  opinion classes, the seed coordinates of a trial (FNV-1a label hash),
  the terminal row of a run, convergence bookkeeping.
- `app/` is the command-line program (`run` / `sweep`) around it: the
  floating-point dynamics on the socsim engine, random draws, and the
  records written through runvault.
- `tests/` exercises the library on concrete values.
