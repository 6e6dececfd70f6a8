use vstd::prelude::*;

verus! {

/// A command line: one of the four operations of the program.
pub struct Cli {
    pub command: Command,
}

/// The operations that the program offers on a PNG file.
pub enum Command {
    /// Hide a message in a new chunk of the given type.
    Encode(EncodeArgs),
    /// Print the message held by the first chunk of the given type.
    Decode(DecodeArgs),
    /// Remove the first chunk of the given type.
    Remove(RemoveArgs),
    /// List the types of all chunks, in file order.
    Print(PrintArgs),
}

/// Arguments of the encode operation.
pub struct EncodeArgs {
    /// Path of the input file.
    pub file_path: String,
    /// Four-letter type of the new chunk.
    pub chunk_type: String,
    /// Text to hide.
    pub message: String,
    /// Where to write the result, if anywhere.
    pub out_path: Option<String>,
}

/// Arguments of the decode operation.
pub struct DecodeArgs {
    pub file_path: String,
    pub chunk_type: String,
}

/// Arguments of the remove operation.
pub struct RemoveArgs {
    pub file_path: String,
    pub chunk_type: String,
}

/// Arguments of the print operation.
pub struct PrintArgs {
    pub file_path: String,
}

} // verus!
