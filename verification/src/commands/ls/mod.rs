pub mod args;
pub mod entry;
pub mod layout;
pub mod listing;
pub mod mode;
pub mod order;
