pub mod builder;
pub mod course;
pub mod csvio;
pub mod errors;
pub mod record;
pub mod resolve;
pub mod rounding;
pub mod translate;
