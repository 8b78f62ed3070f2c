pub mod field_test;
pub mod json;
pub mod metrics;
pub mod sorted;
pub mod text;
