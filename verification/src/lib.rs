pub mod assemble;
pub mod audit;
pub mod fetch;
pub mod laws;
pub mod markdown;
pub mod notes;
pub mod record;
pub mod release;
pub mod report;
pub mod search;
pub mod text;
pub mod tracking;
