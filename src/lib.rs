//! Builds the tree of move sequences of a line-oriented game record: one main
//! line and any number of variations, each able to branch again at any move.

pub mod move_vec;
pub mod record;
pub mod tree;
pub mod driver;
pub mod text;
pub mod laws;

pub use move_vec::MoveVec;
pub use record::{MoveRecord, parse_i32, parse_move};
pub use tree::{ParserContext, Sequence, SequenceId, TreeError, ROOT};
pub use driver::{
    Ingestion,
    IngestError,
    ParserState,
    SectionMarkers,
    has_prefix,
    parse_lines,
    parse_number_from_line,
};
pub use text::{decode_lines, split_lines};
