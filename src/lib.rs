pub mod plan;
pub mod scheduler;
pub mod scheduler_lemmas;
pub mod key_error;
pub mod key_helper;
pub mod key_parser;
