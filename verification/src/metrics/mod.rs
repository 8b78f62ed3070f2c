pub mod callgraph;
pub mod churn;
pub mod complexity;
pub mod coupling;
