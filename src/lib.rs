//! Explains why two build recipes ("derivations") differ: a byte-level parser
//! for the textual derivation format, a structural diff engine over two parsed
//! derivations, and a renderer for the resulting diff tree.

pub mod bytes;
pub mod delta;
pub mod diff;
pub mod drvpath;
pub mod equal;
pub mod grammar;
pub mod laws;
pub mod parser;
pub mod render;
pub mod sorted;
pub mod store;
pub mod types;

pub use diff::{diff_contents, line_diff, shared_references, DiffContext};
pub use grammar::{Expected, ParseError};
pub use parser::{parse_derivation_bytes, parse_derivation_string};
pub use render::Renderer;
pub use store::FileStore;
pub use types::{
    ArgumentsDiff, ColorMode, Derivation, DerivationDiff, DerivationPath, DiffLine,
    DiffOrientation, EnvVarDiff, EnvironmentDiff, InputDiff, InputsDiff, Output,
    OutputDetailDiff, OutputDiff, OutputSetDiff, OutputsDiff, SourceDiff, SourcesDiff, StringDiff,
    TextDiff,
};
