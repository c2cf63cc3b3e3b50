//! Approximate nearest-neighbor search over a layered proximity graph:
//! point eligibility under deletion state and an optional per-search
//! predicate, entry-point selection, a graph builder, a link store whose
//! plain and compressed encodings answer lookups identically, and the
//! greedy-descent-then-beam search that runs over any of them.

pub mod deletion;
pub mod entry_points;
pub mod graph_layers_builder;
pub mod graph_links;
pub mod graph_search;
pub mod packed_ids;
pub mod point_filterer;
pub mod score_key;
