pub mod input_handler;
pub mod direction;
