//! The command-line option set.
//!
//! The flags themselves are read by an ordinary argument parser outside
//! the library; this module holds the option record and the one rule that
//! shapes it: a missing output path is filled in from the first input
//! when compressing.

use crate::file_io::{default_output_path, spec_default_output_path};
use vstd::prelude::*;

verus! {

/// The parsed command-line options: input paths, optional output path,
/// operation direction, compression level, directory recursion, and the
/// format name ("xz" for the single-stream format, "rsz" for the archive).
pub struct Cli {
    pub inputs: Vec<String>,
    pub output: Option<String>,
    pub decompress: bool,
    pub level: u32,
    pub recursive: bool,
    pub format: String,
}

impl Cli {
    /// Assemble the option set from the raw parsed arguments. When
    /// compressing without an explicit output, the output path defaults
    /// to the first input with an ".xz" suffix.
    pub fn parse_args(
        inputs: Vec<String>,
        output: Option<String>,
        decompress: bool,
        level: u32,
        recursive: bool,
        format: String,
    ) -> (c: Cli)
        requires
            inputs@.len() > 0,
        ensures
            c.inputs@ == inputs@,
            c.decompress == decompress,
            c.level == level,
            c.recursive == recursive,
            c.format@ == format@,
            (output is Some || decompress) ==> c.output == output,
            (output is None && !decompress) ==> c.output is Some && c.output->Some_0@
                == spec_default_output_path(inputs@[0]@, true),
    {
        let out = if output.is_none() && !decompress {
            let first = &inputs[0];
            Some(default_output_path(first.as_str(), true))
        } else {
            output
        };
        Cli { inputs, output: out, decompress, level, recursive, format }
    }
}

} // verus!
