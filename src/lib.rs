pub mod breakpoints;
pub mod core_data;
pub mod error;
pub mod poll;
pub mod session_data;
