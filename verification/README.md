# nix-hapi-provider-ldap

An LDAP provider for nix-hapi: it compares the desired directory (users and
groups, each field managed, written once, unmanaged or derived) with the
live directory, and plans the add, modify and delete operations that bring
the directory in line, as a runbook of `ldapadd`/`ldapmodify`/`ldapdelete`
steps with LDIF bodies.

- `src/` is the library, verified with Verus: the comparison (`reconcile`),
  the runbook (`runbook`), the settings (`config`), ignore patterns
  (`ignore`, over the `regex` crate), the decisions taken on server answers
  (`operations`), and the properties the plan keeps (`laws`), among them
  that planning again after an apply shows no change.
- `app/` is the program around it: the JSON protocol on standard input and
  output, and the LDAP connection (`ldap3`).
- `tests/` runs the library on concrete values.
