# sim_ledger

Yearly double-entry ledger books with exact money: year-local accounts,
vouchers and posting lines, imports from LibreOffice Base `.odb` exports and
CSV exports, cross-year balance reports, and fiscal-year close tables.

- `src/` is the library, written in Verus: every function there carries a
  contract that the verifier proves. The trusted edges are a handful of calls
  into `std`, `time`, `zip`, `csv` and `sim-codec-sql`, each documented where it is declared.
- `tests/` runs the library on concrete books.
- `app/` is the `ledger` command: argument handling, host directories, TOML
  manifests and profiles, and the relational year-file store.
