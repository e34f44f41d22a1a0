//! Rules of the kernel language front end.
pub mod alias_laws;
pub mod aliases;
pub mod answer_laws;
pub mod check_laws;
pub mod entry;
pub mod entry_laws;
pub mod frame_laws;
pub mod frames;
pub mod global_laws;
pub mod globals;
pub mod hint_laws;
pub mod hints;
pub mod item_laws;
pub mod items;
pub mod message_laws;
pub mod meta;
pub mod obligations;
pub mod statics;
pub mod syntax;
pub mod typing;
pub mod validate;
pub mod validate_laws;
