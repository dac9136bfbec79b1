//! Session multiplexer for pseudo-terminals: the registry of sessions, the
//! decisions of the reader and writer pumps, the chunked UTF-8 decoding of a
//! terminal's output, and the setup sequence of a session, each with a proved
//! contract. The host program performs the terminal I/O and runs the pumps.
//!
//! Beside it stand the rules of the editor's file views: which files a text
//! search reads and what it reports, the order of a directory listing, and
//! the sorted list of font families.

mod error;
mod channel;
mod decode;
mod registry;
mod pump;
mod setup;
mod text;
mod search;
mod names;
mod listing;

pub use error::{TerminalError, message_of};
pub use channel::{
    event_channel, channel_of, exit_channel, exit_channel_of, lemma_channels_distinct,
    lemma_exit_channels_distinct,
};
pub use decode::{
    Utf8Stream, lossy_text, announced_width, unfinished_len, unfinished_tail,
    lemma_pieces_decode_as_whole, lemma_valid_stream_holds_nothing_back,
};
pub use registry::{
    Geometry, Session, Registry, map_of, new_session, resized, ended, registered_all,
    lemma_distinct_registrations, lemma_duplicate_create_refused, lemma_resize_recorded,
    lemma_ended_accepts_no_input, INITIAL_ROWS, INITIAL_COLS,
};
pub use pump::{
    ReadOutcome, ReaderAction, ReaderPump, WriterPump, emission, write_for, delivered, joined,
    lemma_writes_keep_order,
};
pub use setup::{
    SetupStage, SetupOutcome, first_stage, stage_after, failure_of, shell_running_at, begin_setup,
    after_stage, shell_program, setup_failure_text, setup_failure_message,
};
pub use search::{
    SearchResult, SearchHits, MAX_RESULTS, occurs_in, occurs,
    first_hit_line, hit_snippet, is_blank_query, is_text_extension, is_searchable_extension,
    first_hit_index, file_hit, display_name,
};
pub use names::{lex_lt, name_lt, strictly_sorted, texts, sorted_unique};
pub use listing::{FileEntry, listed_before, in_listing_order, order_entries};
pub use text::{lower_of, trimmed_of, lines_of};
