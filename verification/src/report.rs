//! What a tool reports while and after it runs: progress counters and
//! issues.

use vstd::prelude::*;
use crate::geode_buttons::{progress_done_as_u32, progress_total_as_u32};

verus! {

/// How serious an issue is.
#[derive(Debug, Clone, Copy, PartialEq, Eq, Structural)]
pub enum ReportLevel {
    Info,
    Warning,
    Error,
}

/// Something a tool noticed about a file (or about the run).
#[derive(Debug, PartialEq, Eq)]
pub struct ReportIssue {
    pub level: ReportLevel,
    pub message: String,
    pub file: Option<String>,
}

/// An issue as plain values: level, message and file.
pub open spec fn issue_view(i: ReportIssue) -> (ReportLevel, Seq<char>, Option<Seq<char>>) {
    (
        i.level,
        i.message@,
        match i.file {
            Some(f) => Some(f@),
            None => None,
        },
    )
}

/// The issues of a list as plain values.
pub open spec fn issues_view(v: Seq<ReportIssue>) -> Seq<(ReportLevel, Seq<char>, Option<Seq<char>>)> {
    v.map_values(|i: ReportIssue| issue_view(i))
}

/// One progress update of a run.
#[derive(Debug, Clone, PartialEq, Eq)]
pub struct OperationProgress {
    pub gamesheet_name: String,
    pub sprites_completed: u32,
    pub sprites_total: u32,
    pub plists_completed: u32,
    pub plists_total: u32,
}

/// A progress update: the sprite counters brought into `u32` (the total at
/// least 1, the done count at most the total), the sheet counters as given.
pub fn operation_progress(
    gamesheet_name: String,
    sprites_done: usize,
    sprites_total: usize,
    plists_done: u32,
    plists_total: u32,
) -> (r: OperationProgress)
    ensures
        r.gamesheet_name == gamesheet_name,
        r.sprites_total == if sprites_total < 1 {
            1
        } else if sprites_total > u32::MAX {
            u32::MAX as int
        } else {
            sprites_total as int
        },
        ({
            let t: int = if sprites_total < 1 { 1 } else { sprites_total as int };
            let d: int = if sprites_done < t { sprites_done as int } else { t };
            r.sprites_completed == if d > u32::MAX { u32::MAX as int } else { d }
        }),
        r.plists_completed == plists_done,
        r.plists_total == plists_total,
{
    OperationProgress {
        gamesheet_name,
        sprites_completed: progress_done_as_u32(sprites_done, sprites_total),
        sprites_total: progress_total_as_u32(sprites_total),
        plists_completed: plists_done,
        plists_total,
    }
}

} // verus!
