# params

Parameter access-conflict checking, verified with Verus.

A *resource* has a structural identity: a key (`Sig<NAME_HASH, Args>`) and a
containment path (`PCons`/`PNil`, root ancestor first; `Part<R, K>` is the
`K`-partition of `R`). A *parameter* declares what it touches as a type-level
list of `Read`/`Write` markers (`Access`); `Option<P>`, `&R`, `&mut R` and tuples
of parameters have their lists built for them. `has_conflict::<P>()` tells
whether two accesses in `P`'s list overlap with at least one of them a write.

Layout:

- `src/model.rs` — the mathematical model (keys, paths, accesses, conflicts)
  and the laws proved over it.
- `src/conflict_check.rs`, `src/hlist.rs`, `src/access.rs`, `src/param.rs` —
  the type-level machinery; each trait's exec method is proved against the model.
- `src/system.rs` — `has_conflict` and the assertion helpers.
- `src/hash.rs` — FNV-1a name hashing for keys.
- `src/codegen.rs`, `src/text.rs` — what the declaration macros decide, over
  plain models of the syntax they read.
- `app/` — the macros' `syn`/`quote` token plumbing around `src/codegen.rs`.
- `tests/` — scenarios and laws on concrete parameters.
