pub mod chunk;
pub mod geometry;
pub mod topology;
pub mod mesh_topology;
pub mod surface;
pub mod payload;
pub mod assets;
pub mod text;
pub mod seam;
pub mod config;
pub mod strategy;
pub mod build_order;
pub mod metadata;
pub mod pool;
pub mod order;
pub mod lod_balance;
pub mod commit;
pub mod engine;
pub mod render_state;
pub mod frame;
pub mod render_commit;
pub mod requests;
pub mod jobs;
pub mod asset_groups;
