# py_uv_audit

A vulnerability auditor for uv-managed Python projects. It reads the
requirements of `pyproject.toml` and the packages of `uv.lock`, walks the
dependency graph, asks the OSV database about every package it reaches, and
prints a report of the vulnerable packages with remediation advice.

The library under `src/` is verified with Verus; `app/` is the command-line
program around it.

- `names`, `version`: requirement strings, package-name normalisation, release
  numbers and how far an upgrade reaches.
- `lock`, `graph`, `collect`: the lock file's packages and edges, the depth-first
  walks behind the dependency tree, and the packages a scan queries.
- `osv`, `scan`, `store`: OSV records, the batches of queries and the tables built
  from the answers.
- `audit`, `fix`, `report`: the vulnerability report, the remediation advice and
  the texts printed for them.
- `laws`: properties of the library as a whole, proved over the specifications:
  each package of the tree is queried, once, including what a requested extra
  adds; the report walk follows the query walk, so each queried package with a
  listed vulnerability whose record was not withdrawn is reported, once, and
  each reported package was queried; withdrawn vulnerabilities are left out of
  the report and the advice; each report's path is a simple chain of
  dependencies from a requirement, empty exactly when a requirement names the
  package; the advice is determined by the scan, is the same whether asked for
  in one call or from the scan, and picks the latest fix version.
- `text`: character-level helpers and the few `std` string routines the library
  relies on.

`app/` parses the two files, performs the HTTP requests and prints; the logic
between those steps is the library's.
