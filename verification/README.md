# warp

Schema analysis, HOP plan handling and rewrite logic for an optimizer that
translates linear-algebra plans to relational algebra, optimizes them by
equality saturation, and translates them back.

Layout:

- `src/` — the verified library (Verus):
  - `dims.rs` dimension maps (name to size) with their volume;
  - `schema.rs` schemas and the analysis data of an e-class;
  - `math.rs` the expression language and its node costs;
  - `analysis.rs` the schema analysis of nodes, merging and plan cost;
  - `text.rs`, `hop.rs` reading HOP lines; `dag.rs` loading a HOP plan;
    `show.rs` writing HOP lines;
  - `rules.rs`, `fused.rs` what the schema-dependent rewrites add;
  - `saturate.rs` when saturation stops;
  - `laws.rs` properties over several functions, among them that the
    rewrites keep schemas: the schema-dependent ones of `rules.rs` and the
    fixed ones of the rule tables in `app/`, except the renamings inside
    calls of user-defined functions (`subst-udf*`, `subst-rix`).
- `tests/` — tests of the library.
- `app/` — the e-graph side (`egg` language, analysis, rule sets, extraction,
  reading and printing plans), which runs the library's decisions.
