pub mod program;
pub mod compute;
