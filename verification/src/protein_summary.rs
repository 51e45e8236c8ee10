//! Per-turn bookkeeping of protein movements: what was spent on growth and
//! what came in from harvesting and absorbing, counted per protein kind.

use vstd::prelude::*;
use crate::protein::{self, Protein};

verus! {

pub struct ProteinSummary {
    from_growth: Vec<u32>,
    from_harvest: Vec<u32>,
    from_absorb: Vec<u32>,
}

/// Four counters, one per protein kind.
pub open spec fn report_wf(v: Seq<u32>) -> bool {
    v.len() == 4
}

/// Builds a zeroed four-counter report.
fn new_report() -> (r: Vec<u32>)
    ensures
        report_wf(r@),
        forall|i: int| 0 <= i < 4 ==> r@[i] == 0,
{
    let mut v: Vec<u32> = Vec::new();
    v.push(0);
    v.push(0);
    v.push(0);
    v.push(0);
    v
}

/// Adds `n` to the counter of `protein` in one report.
fn save(report: &mut Vec<u32>, protein: Protein, n: u32)
    requires
        report_wf(old(report)@),
        old(report)@[protein::protein_id(protein)] + n <= u32::MAX,
    ensures
        report_wf(final(report)@),
        final(report)@ == old(report)@.update(
            protein::protein_id(protein),
            (old(report)@[protein::protein_id(protein)] + n) as u32,
        ),
{
    let idx = protein.to_id() as usize;
    let cur = report[idx];
    report.set(idx, cur + n);
}

impl ProteinSummary {
    /// The growth-spending counters, per protein id.
    pub closed spec fn spec_from_growth(&self) -> Seq<u32> {
        self.from_growth@
    }

    /// The harvest-income counters, per protein id.
    pub closed spec fn spec_from_harvest(&self) -> Seq<u32> {
        self.from_harvest@
    }

    /// The absorb-income counters, per protein id.
    pub closed spec fn spec_from_absorb(&self) -> Seq<u32> {
        self.from_absorb@
    }

    /// The summary's structural invariant: four counters per report.
    pub open spec fn inv(&self) -> bool {
        &&& report_wf(self.spec_from_growth())
        &&& report_wf(self.spec_from_harvest())
        &&& report_wf(self.spec_from_absorb())
    }

    /// Creates a summary with all counters zero.
    pub fn new() -> (s: ProteinSummary)
        ensures
            s.inv(),
            forall|i: int| 0 <= i < 4 ==> s.spec_from_growth()[i] == 0,
            forall|i: int| 0 <= i < 4 ==> s.spec_from_harvest()[i] == 0,
            forall|i: int| 0 <= i < 4 ==> s.spec_from_absorb()[i] == 0,
    {
        ProteinSummary {
            from_growth: new_report(),
            from_harvest: new_report(),
            from_absorb: new_report(),
        }
    }

    /// Resets every counter to zero.
    pub fn clear(&mut self)
        ensures
            final(self).inv(),
            forall|i: int| 0 <= i < 4 ==> final(self).spec_from_growth()[i] == 0,
            forall|i: int| 0 <= i < 4 ==> final(self).spec_from_harvest()[i] == 0,
            forall|i: int| 0 <= i < 4 ==> final(self).spec_from_absorb()[i] == 0,
    {
        self.from_growth = new_report();
        self.from_harvest = new_report();
        self.from_absorb = new_report();
    }

    /// Counts `n` units of `protein` spent on growth.
    pub fn lose_from_growth(&mut self, protein: Protein, n: u32)
        requires
            old(self).inv(),
            old(self).spec_from_growth()[protein::protein_id(protein)] + n <= u32::MAX,
        ensures
            final(self).inv(),
            final(self).spec_from_growth() == old(self).spec_from_growth().update(
                protein::protein_id(protein),
                (old(self).spec_from_growth()[protein::protein_id(protein)] + n) as u32,
            ),
            final(self).spec_from_harvest() == old(self).spec_from_harvest(),
            final(self).spec_from_absorb() == old(self).spec_from_absorb(),
    {
        save(&mut self.from_growth, protein, n);
    }

    /// Counts `n` units of `protein` gained from harvesting.
    pub fn get_from_harvest(&mut self, protein: Protein, n: u32)
        requires
            old(self).inv(),
            old(self).spec_from_harvest()[protein::protein_id(protein)] + n <= u32::MAX,
        ensures
            final(self).inv(),
            final(self).spec_from_harvest() == old(self).spec_from_harvest().update(
                protein::protein_id(protein),
                (old(self).spec_from_harvest()[protein::protein_id(protein)] + n) as u32,
            ),
            final(self).spec_from_growth() == old(self).spec_from_growth(),
            final(self).spec_from_absorb() == old(self).spec_from_absorb(),
    {
        save(&mut self.from_harvest, protein, n);
    }

    /// Counts `n` units of `protein` gained from absorbing.
    pub fn get_from_absorb(&mut self, protein: Protein, n: u32)
        requires
            old(self).inv(),
            old(self).spec_from_absorb()[protein::protein_id(protein)] + n <= u32::MAX,
        ensures
            final(self).inv(),
            final(self).spec_from_absorb() == old(self).spec_from_absorb().update(
                protein::protein_id(protein),
                (old(self).spec_from_absorb()[protein::protein_id(protein)] + n) as u32,
            ),
            final(self).spec_from_growth() == old(self).spec_from_growth(),
            final(self).spec_from_harvest() == old(self).spec_from_harvest(),
    {
        save(&mut self.from_absorb, protein, n);
    }
}

} // verus!
