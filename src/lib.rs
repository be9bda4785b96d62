//! Core of a personal knowledge base: the enrichment pipeline that embeds
//! captured items, proposes relationships between similar ones, and keeps a
//! small cache of semantic searches.
//!
//! Similarity scores are integers ordered as the similarities they stand
//! for; confidences are whole parts per million; vectors
//! are carried in their stored encoding, four little-endian bytes per
//! component. Reading and writing storage and calling the providers is left
//! to the caller, which hands the results to the functions here.
mod edges;
mod embedding;
mod graph;
mod items;
mod jar;
mod models;
mod ranking;
mod relations;
mod scheduler;
mod search_cache;
mod similarity;
mod status;
mod text;

pub use edges::{
    apply_relations, law_reextract_keeps_human_edges, law_reextract_stage_keeps_human_edges, law_upsert_same_pair_no_duplicate, Edge,
    EdgeOrigin, EdgeTable,
};
pub use embedding::{
    default_chat_model, default_embedding_model, find_setting, gemini_model_path,
    resolve_embedding_config, EmbeddingConfig, EmbeddingProvider, EmbeddingTaskType,
};
pub use graph::{expand_node, get_graph, get_node_neighbors, GraphData, GraphEdge};
pub use items::{
    distill_items, law_vector_present_when_linked, reset_items_for_reembed,
    reset_items_for_reextract, settle_items, Item, ItemView,
};
pub use jar::{
    build_candidates, first_touched_targets, isolated_items, merge_similar_pairs,
    missing_summary_ids,
};
pub use models::{
    auth_status, filter_admits, is_valid_category, pipeline_status, provider_switch_needed,
    update_progress, validate_classification, AuthStatus, ClassifyResponse, GraphFilters,
    GraphNode, Mash, PipelineProgress, PipelineStatus, RecentSearch,
};
pub use relations::{
    candidate_batches, is_known_relation, validate_relations, ExtractedRelation, ProposedRelation,
    RelationCandidate, MAX_CONFIDENCE, RELATION_BATCH_SIZE,
};
pub use scheduler::{
    interval_or_default, law_backfill_every_fifth_run, law_manual_run_releases,
    law_one_run_at_a_time, validate_interval,
    PipelineSchedulerState, TickDecision, BACKFILL_EVERY, DEFAULT_INTERVAL_MIN, MAX_INTERVAL_MIN,
    MAX_NOW_MS, MIN_INTERVAL_MIN,
};
pub use search_cache::{
    law_cache_bounded, law_miss_then_hit, CacheEntry, CacheLookup, SearchCache, MAX_CACHE_SIZE,
};
pub use similarity::{find_similar_in_batch, find_similar_mashes, ScoredItem, SimilarPair};
pub use status::Status;
