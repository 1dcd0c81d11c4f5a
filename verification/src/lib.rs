pub mod clean;
pub mod config;
pub mod discovery;
pub mod doctor;
pub mod inspect;
pub mod paths;
pub mod porcelain;
pub mod text;
pub mod worktree;
