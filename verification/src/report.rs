//! Rendering a plan for the user, section by section.
//!
//! Before anything is applied the plan is presented in three sections, in
//! this fixed order: the additions, the overwrites, the removals, each
//! listing the destination paths it touches.  A section with no entries is
//! omitted entirely; a non-empty one is preceded by a blank line.  The
//! caller turns these lines into styled text.

use vstd::prelude::*;

use crate::copy_bytes;
use crate::plan::{Add, Overwrite, Remove};

verus! {

/// One line of the rendered plan.
#[derive(Debug, Clone, PartialEq, Eq)]
pub enum ReportLine {
    /// An empty line between sections.
    Blank,
    /// The heading of the additions section.
    AddHeader,
    /// The heading of the overwrites section.
    OverwriteHeader,
    /// The heading of the removals section.
    RemoveHeader,
    /// One destination path under the current heading.
    Path(Vec<u8>),
}

/// The number of lines a section of `n` entries occupies: its blank line
/// and heading, or nothing at all.
pub open spec fn section_len(n: int) -> int {
    if n == 0 {
        0
    } else {
        n + 2
    }
}

/// Renders a plan: the additions, overwrites and removals sections in that
/// order, each omitted when empty and otherwise preceded by a blank line,
/// headed, and listing its destination paths in plan order.
pub fn report_lines(adds: &Vec<Add>, overwrites: &Vec<Overwrite>, removes: &Vec<Remove>) -> (r:
    Vec<ReportLine>)
    ensures
        r@.len() == section_len(adds@.len() as int) + section_len(overwrites@.len() as int) + section_len(removes@.len() as int),
        adds@.len() > 0 ==> r@[0] == ReportLine::Blank && r@[1] == ReportLine::AddHeader,
        forall|k: int|
            0 <= k < adds@.len() ==> ((#[trigger] r@[2 + k]) matches ReportLine::Path(p) && p@
                == adds@[k].to@),
        overwrites@.len() > 0 ==> r@[section_len(adds@.len() as int)] == ReportLine::Blank
            && r@[section_len(adds@.len() as int) + 1] == ReportLine::OverwriteHeader,
        forall|k: int|
            0 <= k < overwrites@.len() ==> ((#[trigger] r@[section_len(adds@.len() as int) + 2 + k])
                matches ReportLine::Path(p) && p@ == overwrites@[k].to@),
        removes@.len() > 0 ==> r@[section_len(adds@.len() as int) + section_len(overwrites@.len() as int)]
            == ReportLine::Blank && r@[section_len(adds@.len() as int) + section_len(overwrites@.len() as int)
            + 1] == ReportLine::RemoveHeader,
        forall|k: int|
            0 <= k < removes@.len() ==> ((#[trigger] r@[section_len(adds@.len() as int) + section_len(overwrites@.len() as int) + 2 + k]) matches ReportLine::Path(p) && p@ == removes@[k].0@),
{
    let mut r: Vec<ReportLine> = Vec::new();
    let ghost sa = section_len(adds@.len() as int);
    let ghost so = section_len(overwrites@.len() as int);

    if adds.len() > 0 {
        r.push(ReportLine::Blank);
        r.push(ReportLine::AddHeader);
        let mut k: usize = 0;
        while k < adds.len()
            invariant
                k <= adds@.len(),
                r@.len() == 2 + k,
                r@[0] == ReportLine::Blank,
                r@[1] == ReportLine::AddHeader,
                forall|j: int|
                    0 <= j < k ==> ((#[trigger] r@[2 + j]) matches ReportLine::Path(p) && p@
                        == adds@[j].to@),
            decreases adds@.len() - k,
        {
            r.push(ReportLine::Path(copy_bytes(&adds[k].to)));
            k = k + 1;
        }
    }

    if overwrites.len() > 0 {
        r.push(ReportLine::Blank);
        r.push(ReportLine::OverwriteHeader);
        let mut k: usize = 0;
        while k < overwrites.len()
            invariant
                k <= overwrites@.len(),
                sa == section_len(adds@.len() as int),
                r@.len() == sa + 2 + k,
                adds@.len() > 0 ==> r@[0] == ReportLine::Blank && r@[1] == ReportLine::AddHeader,
                forall|j: int|
                    0 <= j < adds@.len() ==> ((#[trigger] r@[2 + j]) matches ReportLine::Path(p)
                        && p@ == adds@[j].to@),
                r@[sa] == ReportLine::Blank,
                r@[sa + 1] == ReportLine::OverwriteHeader,
                forall|j: int|
                    0 <= j < k ==> ((#[trigger] r@[sa + 2 + j]) matches ReportLine::Path(p) && p@
                        == overwrites@[j].to@),
            decreases overwrites@.len() - k,
        {
            r.push(ReportLine::Path(copy_bytes(&overwrites[k].to)));
            k = k + 1;
        }
    }

    if removes.len() > 0 {
        r.push(ReportLine::Blank);
        r.push(ReportLine::RemoveHeader);
        let mut k: usize = 0;
        while k < removes.len()
            invariant
                k <= removes@.len(),
                sa == section_len(adds@.len() as int),
                so == section_len(overwrites@.len() as int),
                r@.len() == sa + so + 2 + k,
                adds@.len() > 0 ==> r@[0] == ReportLine::Blank && r@[1] == ReportLine::AddHeader,
                forall|j: int|
                    0 <= j < adds@.len() ==> ((#[trigger] r@[2 + j]) matches ReportLine::Path(p)
                        && p@ == adds@[j].to@),
                overwrites@.len() > 0 ==> r@[sa] == ReportLine::Blank && r@[sa + 1]
                    == ReportLine::OverwriteHeader,
                forall|j: int|
                    0 <= j < overwrites@.len() ==> ((#[trigger] r@[sa + 2 + j]) matches
                        ReportLine::Path(p) && p@ == overwrites@[j].to@),
                r@[sa + so] == ReportLine::Blank,
                r@[sa + so + 1] == ReportLine::RemoveHeader,
                forall|j: int|
                    0 <= j < k ==> ((#[trigger] r@[sa + so + 2 + j]) matches ReportLine::Path(p)
                        && p@ == removes@[j].0@),
            decreases removes@.len() - k,
        {
            r.push(ReportLine::Path(copy_bytes(&removes[k].0)));
            k = k + 1;
        }
    }
    r
}

} // verus!
