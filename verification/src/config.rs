use vstd::prelude::*;

verus! {

/// Configuration for piping an alignment stream through an injection step
/// and a surjection step: where the records come from, where they go, and
/// an optional path under which the intermediate output is saved.
///
/// A `"-"` path stands for the standard stream, as the external I/O layer
/// interprets it.
pub struct FiberJectArgs {
    /// Alignment stream to process (`"-"` for standard input).
    pub bam: String,
    /// Where the processed stream goes (`"-"` for standard output).
    pub out: String,
    /// Optional file that keeps the intermediate (injected) output.
    pub gam: Option<String>,
}

impl Default for FiberJectArgs {
    /// Both streams default to the standard streams, and the intermediate
    /// output is not kept.
    fn default() -> (result: Self)
        ensures
            result.bam@ == "-"@,
            result.out@ == "-"@,
            result.gam is None,
    {
        FiberJectArgs { bam: "-".to_owned(), out: "-".to_owned(), gam: None }
    }
}

} // verus!
