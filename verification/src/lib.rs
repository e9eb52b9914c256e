//! Verified core of a compose-key engine: the grammars of X11 keysym and
//! compose definitions, the sequence tables built from them, and the
//! decisions of the keyboard hook and translator.
pub mod text;
pub mod keysym;
pub mod assoc;
pub mod error;
pub mod order;
pub mod mapped;
pub mod compose;
pub mod composer;
pub mod factory;
pub mod fst_map;
pub mod cldr;
pub mod key;
pub mod keyboard_hook;
pub mod keyboard_translator;
pub mod notify_icon;
pub mod resource;
pub mod search;
pub mod sender;
pub mod standalone;
pub mod utf16;
pub mod sequence_definition;
