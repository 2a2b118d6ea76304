//! Decoder and pretty-printer for BBScript, the bytecode of a fighting-game
//! scripting engine.
//!
//! A script is a flat run of instructions behind a jump table. What an
//! instruction looks like is not fixed by this crate: a [`ScriptConfig`]
//! supplies the instruction catalogue, the tags of accessed values and the
//! name tables. [`ScriptConfig::parse`] turns bytes into instructions and
//! [`ScriptConfig::render`] turns instructions into indented text;
//! [`ScriptConfig::parse_to_string`] does both.
//!
//! Every function here is verified against a contract over a mathematical
//! model of its module: [`ScriptConfig::decode`] for the binary format and
//! [`ScriptConfig::program_text`] for the text. What is taken on trust is the
//! behaviour of the byte buffer, of the small vectors and of the hex encoder,
//! each stated where it is used.

pub mod assoc;
pub mod cursor;
pub mod error;
pub mod game_config;
pub mod parser;
pub mod render;
pub mod small;
pub mod text;

pub use cursor::ByteCursor;
pub use error::{BBScriptError, ErrorModel};
pub use game_config::{
    ArgType, BBSNumber, CodeBlock, EnumGroups, InstructionInfo, NameTable, ScriptConfig,
    SizedInstruction, TaggedValue, UnsizedInstruction,
};
pub use parser::{process_string_buf, ArgModel, ArgValue, InstructionModel, InstructionValue};
pub use render::{arg_to_string, IndentModel, Indenter};
pub use small::{ArgList, RawData};
