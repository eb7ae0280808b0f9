//! SQL front end and columnar kernels of the Dodam query engine.
//!
//! The crate holds the decisions and computations that sit between SQL text and
//! the storage engine: reading a parsed statement into a query plan, choosing
//! among the registered execution rules, and the row selection, grouping and
//! ordering kernels that the rules run over column batches.

pub mod aggregates;
pub mod ast;
pub mod batch_collect;
pub mod batch_rows;
pub mod calendar;
pub mod channel_flush;
pub mod collect_laws;
pub mod columns;
pub mod conjuncts;
pub mod decimal_batches;
pub mod dense_revenue_query;
pub mod dense_sums;
pub mod discounted_revenue;
pub mod error;
pub mod filter_parser;
pub mod filters;
pub mod join_laws;
pub mod joins;
pub mod key_ranges;
pub mod late_payload;
pub mod late_selection;
pub mod literals;
pub mod named_rows;
pub mod names;
pub mod order_laws;
pub mod order_years;
pub mod ordered_selection;
pub mod output_order;
pub mod output_plan;
pub mod output_sort;
pub mod output_utils;
pub mod pair_collect;
pub mod part_groups;
pub mod part_supplier_query;
pub mod paths;
pub mod plan;
pub mod plan_laws;
pub mod predicate_pushdown;
pub mod predicates;
pub mod pricing_summary;
pub mod primitive_buffers;
pub mod primitive_selection;
pub mod product_expression;
pub mod profit;
pub mod profit_batch;
pub mod profit_rows;
pub mod projection;
pub mod projection_expression;
pub mod projection_parser;
pub mod query_features;
pub mod query_laws;
pub mod query_modifiers;
pub mod query_parser;
pub mod query_routing;
pub mod recognized;
pub mod returned_customers;
pub mod revenue_laws;
pub mod row_laws;
pub mod row_scan;
pub mod rule_context;
pub mod rule_laws;
pub mod rules;
pub mod scalar;
pub mod scan_laws;
pub mod select_laws;
pub mod settings;
pub mod sort_laws;
pub mod sql_bridge;
pub mod sql_reading;
pub mod streaming_topk;
pub mod subquery_literals;
pub mod supplier_bitset;
pub mod supplier_counts;
pub mod supplier_rows;
pub mod table_laws;
pub mod tables;
pub mod tables_from;
pub mod text;
pub mod topk;
pub mod trial_laws;
pub mod typed_reading;
