# dodam_sql

The SQL layer of the Dodam query engine, verified with Verus.

`src/` holds what the layer decides and computes:

* reading a statement (`sql_bridge`, `channel_flush`, `sql_reading`, `ast`) and planning it
  (`query_parser` and the modules that it is made of),
* recognising the statements that have kernels of their own (`recognized`, `rules`,
  `rule_context`, `projection_expression`, `query_routing`),
* the kernels over batches of columns: collecting keys (`batch_collect`, `pair_collect`,
  `batch_rows`), selecting rows (`primitive_selection`, `ordered_selection`,
  `late_selection`), grouping (`part_groups`, `supplier_*`, `pricing_summary`, `profit*`,
  `decimal_batches`, `discounted_revenue`, `dense_sums`) and ordering (`topk`, `streaming_topk`, `output_*`).

Statements are parsed by the `sqlparser` crate. `sql_bridge` is the one place where its
values are read, each function with a contract that names what it returns.

`app/` runs the plans on a storage engine: it reads settings from the environment, hands
work to threads with `rayon`, and computes sums in floating point.
