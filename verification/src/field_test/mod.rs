pub mod audit;
pub mod baseline;
pub mod corpus;
pub mod diff;
pub mod fetch;
pub mod mode;
pub mod report;
pub mod runner;
pub mod surface;
pub mod sweep;
pub mod worktree;
