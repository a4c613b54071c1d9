//! A single-user todo list, persisted as a pretty-printed JSON array of
//! tasks.  The codec for the persisted document, the prompter's and the
//! dispatcher's decisions, and the store's value-level operations are all
//! verified; reading and writing the file, and the terminal, stay with the
//! caller.

use vstd::prelude::*;

mod codec;
mod dispatch;
mod prompt;
mod roundtrip;
mod store;
mod task;
mod text;

pub use codec::ParseError;
pub use codec::json_of;
pub use codec::parse_doc;
pub use codec::parse_tasks;
pub use codec::serialize_tasks;
pub use dispatch::Cmd;
pub use dispatch::complete_reply;
pub use dispatch::confirmation_message;
pub use dispatch::confirmation_of;
pub use dispatch::parse_cmd;
pub use dispatch::read_reply;
pub use dispatch::read_reply_of;
pub use prompt::PromptStep;
pub use prompt::importance_of_token;
pub use prompt::law_importance_normalization;
pub use prompt::prompt_step;
pub use prompt::task_from_input;
pub use prompt::token_importance;
pub use roundtrip::law_append_only;
pub use roundtrip::law_empty_file;
pub use roundtrip::law_round_trip;
pub use store::add_task;
pub use store::load_from_text;
pub use store::loaded_of;
pub use store::save_to_text;
pub use task::Importance;
pub use task::Task;
pub use task::TaskView;
pub use task::label_of;
pub use task::views_of;
pub use text::trim_of;
pub use text::upper_of;

verus! {

} // verus!
