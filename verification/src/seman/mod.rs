pub mod recordexp;
pub mod stringexp;
