//! The decisions around running a planned tool: the input check, which
//! sheets the splitter takes, the notes about borrowed vanilla `.plist`
//! files, and how the weighted job queue splits its workers.

use vstd::prelude::*;
use crate::discovery::SheetCandidate;
use crate::errors::AppError;
use crate::facts::PathFacts;
use crate::legacy_icons::{sheet_is_under_icons, under_icons_spec};
use crate::report::{issue_view, issues_view, ReportIssue, ReportLevel};
use crate::sheet_lookup::{external_plist_spec, sheet_uses_external_plist};
use crate::paths::opt_str;
use crate::text::{chars_of, concat_str, string_from_chars};

verus! {

/// The input folder of a run must exist and be a folder.
pub fn check_operation_input(input_dir: &str, facts: &PathFacts) -> (r: Result<(), AppError>)
    ensures
        !facts.has_path(input_dir@) ==> r == Err::<(), AppError>(AppError::InvalidPath("input directory does not exist")),
        facts.has_path(input_dir@) && !facts.has_dir(input_dir@) ==> r == Err::<(), AppError>(
            AppError::InvalidPath("input path is not a directory"),
        ),
        facts.has_dir(input_dir@) ==> r is Ok,
{
    if !facts.path_exists(input_dir) {
        return Err(AppError::InvalidPath("input directory does not exist"));
    }
    if !facts.is_dir(input_dir) {
        return Err(AppError::InvalidPath("input path is not a directory"));
    }
    Ok(())
}

/// The sheets the splitter splits: all of them, or those outside `icons`
/// folders when icons are skipped, in discovery order.
pub fn splitter_sheets(pairs: &Vec<SheetCandidate>, skip_icons: bool) -> (r: Vec<SheetCandidate>)
    ensures
        r@ == pairs@.filter(|p: SheetCandidate| !(skip_icons && under_icons_spec(p.relative_dir@))),
{
    let ghost pred = |p: SheetCandidate| !(skip_icons && under_icons_spec(p.relative_dir@));
    let mut out: Vec<SheetCandidate> = Vec::new();
    let mut i: usize = 0;
    while i < pairs.len()
        invariant
            i <= pairs@.len(),
            pred == (|p: SheetCandidate| !(skip_icons && under_icons_spec(p.relative_dir@))),
            out@ == pairs@.subrange(0, i as int).filter(pred),
        decreases pairs@.len() - i,
    {
        let p = &pairs[i];
        proof {
            assert(pairs@.subrange(0, i + 1) =~= pairs@.subrange(0, i as int).push(*p));
            pairs@.subrange(0, i as int).lemma_filter_push(*p, pred);
        }
        if !(skip_icons && sheet_is_under_icons(p.relative_dir.as_str())) {
            out.push(p.clone());
        }
        i = i + 1;
    }
    proof {
        assert(pairs@.subrange(0, pairs@.len() as int) =~= pairs@);
    }
    out
}

/// The notes for the sheets whose `.plist` came from the vanilla resources,
/// in order.
pub open spec fn fallback_notes_spec(
    input_dir: Seq<char>,
    input_canon: Option<Seq<char>>,
    pairs: Seq<SheetCandidate>,
    plist_canons: Seq<Option<String>>,
) -> Seq<(ReportLevel, Seq<char>, Option<Seq<char>>)>
    decreases pairs.len(),
{
    if pairs.len() == 0 || plist_canons.len() < pairs.len() {
        Seq::empty()
    } else {
        let n = (pairs.len() - 1) as int;
        let prev = fallback_notes_spec(input_dir, input_canon, pairs.drop_last(), plist_canons.subrange(0, n));
        let p = pairs.last();
        if external_plist_spec(input_dir, input_canon, p.plist_path@, opt_str(plist_canons[n])) {
            prev.push((ReportLevel::Info, "Using vanilla plist for "@ + p.stem@, Some(p.png_path@)))
        } else {
            prev
        }
    }
}

/// The notes for the sheets whose `.plist` came from the vanilla resources.
/// `input_canon` and `plist_canons[i]` are the canonical forms the file
/// system gave for the input folder and for sheet `i`'s `.plist`, when it
/// gave them.
pub fn vanilla_plist_fallback_issues(
    input_dir: &str,
    input_canon: &Option<String>,
    pairs: &Vec<SheetCandidate>,
    plist_canons: &Vec<Option<String>>,
) -> (r: Vec<ReportIssue>)
    requires
        plist_canons@.len() == pairs@.len(),
    ensures
        issues_view(r@) == fallback_notes_spec(input_dir@, opt_str(*input_canon), pairs@, plist_canons@),
{
    let mut out: Vec<ReportIssue> = Vec::new();
    let mut i: usize = 0;
    proof {
        assert(pairs@.subrange(0, 0) =~= Seq::<SheetCandidate>::empty());
        assert(issues_view(out@) =~= Seq::empty());
    }
    while i < pairs.len()
        invariant
            i <= pairs@.len(),
            plist_canons@.len() == pairs@.len(),
            issues_view(out@) == fallback_notes_spec(
                input_dir@,
                opt_str(*input_canon),
                pairs@.subrange(0, i as int),
                plist_canons@.subrange(0, i as int),
            ),
        decreases pairs@.len() - i,
    {
        let p = &pairs[i];
        proof {
            assert(pairs@.subrange(0, i + 1).drop_last() =~= pairs@.subrange(0, i as int));
            assert(plist_canons@.subrange(0, i + 1).subrange(0, i as int) =~= plist_canons@.subrange(0, i as int));
        }
        let canon = plist_canons[i].clone();
        if sheet_uses_external_plist(input_dir, input_canon.clone(), p, canon) {
            let a = chars_of("Using vanilla plist for ");
            let m = concat_str(a.as_slice(), p.stem.as_str());
            let issue = ReportIssue {
                level: ReportLevel::Info,
                message: string_from_chars(m.as_slice()),
                file: Some(p.png_path.clone()),
            };
            proof {
                assert(issues_view(out@.push(issue)) =~= issues_view(out@).push(issue_view(issue)));
            }
            out.push(issue);
        }
        i = i + 1;
    }
    proof {
        assert(pairs@.subrange(0, pairs@.len() as int) =~= pairs@);
        assert(plist_canons@.subrange(0, pairs@.len() as int) =~= plist_canons@);
    }
    out
}

/// How the weighted job queue splits its workers: the concurrency brought
/// into `1..=64`, half of it (rounded up) taking the heaviest jobs first and
/// the rest the lightest first.
pub fn job_queue_workers(concurrency: u32) -> (r: (usize, usize))
    ensures
        ({
            let w: int = if concurrency < 1 { 1 } else if concurrency > 64 { 64 } else { concurrency as int };
            r.0 == (w + 1) / 2 && r.1 == w - (w + 1) / 2
        }),
{
    let w: usize = if concurrency < 1 {
        1
    } else if concurrency > 64 {
        64
    } else {
        concurrency as usize
    };
    let large = (w + 1) / 2;
    (large, w - large)
}

} // verus!
