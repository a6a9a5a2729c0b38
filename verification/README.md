# caph

Industry planning for EVE Online, as a library whose behaviour is stated in
contracts and proved with Verus.

- `src/project/dependency*` — production trees: quantities and runs, material
  and time bonuses, build orders, raw materials and components collected into
  groups, and trees built from the blueprint cache.
- `src/project`, `src/structure.rs` — projects, storage requests, structures,
  rigs and the choice of the rig or structure that gives a product its bonus.
- `src/services`, `src/account`, `src/universe.rs` — the decisions of the web
  services: grouping assets, market slots and volumes, names, routes,
  stations, what a project still needs, image links of characters.
- `src/time.rs`, `src/timed_cache.rs`, `src/utils.rs`, `src/eve.rs` — market
  run times, a cache whose entries expire, login tokens, paging headers.
- `app/` — a small command line front with the float-valued bonus and market
  figures, and the serde copies of library types.

The tests under `tests/` run against the compiled library.
