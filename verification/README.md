# metrique

Metric entries, their values and units, and the formats they are written in, verified with Verus.

* `src/` is the library. An entry hands over a list of items (`entry`), a value hands over what it
  is written as (`value`, `traits`). The formats turn items into text:
  * `emf`: CloudWatch embedded metric format. `emf::model` says what is written, `emf::format`
    writes it, and `emf::laws`, `emf::valid`, `emf::refusals` and `emf::acceptance` hold what is
    true of all output.
  * `json`: one plain JSON object per line. Where an entry stands for several (`sampling`), `weigh`
    makes each of its observations count that often.
  * `local`: text, JSON or a table for people to read, with percentiles.
  * `otel`: records for OpenTelemetry instruments.

  Around them stand units and conversions (`unit`, `unit_tags`, `with_unit`), dimensions
  (`dimension`), formatters (`formatter`), descriptions of entries (`descriptor`), aggregation
  (`aggregate`), guards that emit an entry once (`guard`), captured entries for tests (`test_util`)
  and the plans behind generated code (`derive`). `grammar` says what counts as JSON.
* `app/` is ordinary Rust around the library: floating-point arithmetic, clocks, streams, sinks,
  guards that act when they are dropped, and the tokens of generated code.
* `tests/` runs the library.

## Doubles

Floating point is not verified. A double is known by its bits, its decimal text and its display
text; arithmetic on doubles is handed in as functions, and contracts say which results of them go
where.

## Traits

The traits that users implement (`Entry`, `Value`, `ObjectValue`, `CloseValue`, `Merge` and others)
have ghost functions that say what their methods return. Verified implementations define them;
ordinary Rust can leave them out.

## What is trusted

Calls into other crates (`itoa`, `serde_json`, `hashbrown`, `smallvec`, `bit-set`, `jiff`) and into
parts of std stand behind small functions whose contracts are believed. Each says in its
documentation what it claims of the call.
