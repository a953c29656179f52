pub mod adopt;
pub mod ansi;
pub mod bounds;
pub mod branch;
pub mod clean_animation;
pub mod clean_apply;
pub mod clean_plan;
pub mod clean_render;
pub mod clean_rules;
pub mod cli_args;
pub mod clean_types;
pub mod commit;
pub mod deleted_local;
pub mod error;
pub mod gh;
pub mod ids;
pub mod git;
pub mod graph;
pub mod layout;
pub mod merge;
pub mod migrate;
pub mod model;
pub mod options;
pub mod orphan;
pub mod ordering;
pub mod pending;
pub mod plain_lineage;
pub mod pr;
pub mod reparent;
pub mod repo_pairs;
pub mod restack;
pub mod restack_laws;
pub mod store;
pub mod summary;
pub mod switch;
pub mod sync_render;
pub mod sync_rows;
pub mod sync_session;
pub mod sync_summary;
pub mod text;
pub mod tree_build;
pub mod tree_view;
