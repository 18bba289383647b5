//! Safe construction and validation of MarkdownV2-formatted text.
//!
//! The library guarantees that text built through it is well-formed
//! in the MarkdownV2 dialect and bounded in length before it is ever
//! handed to a transport that rejects malformed markup: a validator
//! proves a template structurally well-formed, the `MarkdownString`
//! value can only be produced by escaping or by pre-validated
//! construction, and every construction passes through one length
//! guard with deterministic truncation.

pub mod callback_key;
pub mod command;
pub mod decimal;
pub mod format;
pub mod markdown;
pub mod scan;
pub mod storage;
pub mod validate;

pub use callback_key::CallbackDataKey;
pub use command::ButtonData;
pub use command::EmptyArg;
pub use command::NoopCommand;
pub use command::screen_spaces;
pub use command::split_with_screened_spaces;
pub use format::FormatArg;
pub use format::markdown_format;
pub use markdown::MarkdownString;
pub use markdown::markdown_string;
pub use scan::CharCategory;
pub use scan::MarkdownError;
pub use storage::decode_filename_to_key;
pub use storage::encode_key_to_filename;
pub use validate::validate_markdownv2_format;
