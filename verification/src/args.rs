use vstd::prelude::*;

verus! {

/// A resume request: the ids of the downloads to pick up again. The id
/// `auto` stands for the most recent record still pending.
#[derive(Clone, Debug)]
pub struct ResumeArgs {
    pub download_ids: Vec<String>,
}

/// A history request: show the records, or clear them.
#[derive(Clone, Copy, Debug, PartialEq, Eq, Structural)]
pub struct HistoryArgs {
    pub show: bool,
    pub clear: bool,
}

} // verus!
