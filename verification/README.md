# omc_registry

A package registry client for npm and PyPI whose decisions are verified with
Verus: reading requirement files and lockfiles, comparing and choosing
versions, matching wheels to interpreters, building npm registry requests,
checking archive digests, checking a lock against the project's requests,
and the verdicts that linking and installing take.

- `src/` is the verified library. Each module states its behaviour as
  `requires`/`ensures` over spec functions, and proves the laws that span
  functions (orderings, what a check ignores, what a run keeps).
- `tests/` exercises the library on concrete inputs.
- `app/` is the thin layer around it: reading files and the environment,
  serde records for the registry documents, and the calls out to the system.

Outside crates are called through small trusted wrappers whose contracts
name what the crate computes (URL parsing, semver, chrono, sha2, base64,
serde_json, urlencoding).
