//! Chain variants, chain parameters and proposals.

use vstd::prelude::*;
use crate::double::Double;
use crate::vectors;

verus! {

/// How a chain picks districts and draws spanning trees.
#[derive(Clone, Copy, Debug, PartialEq, Eq, Structural)]
pub enum RecomVariant {
    Reversible,
    CutEdgesUST,
    DistrictPairsUST,
    CutEdgesRMST,
    DistrictPairsRMST,
    CutEdgesRegionAware,
    DistrictPairsRegionAware,
}

/// The parameters of a chain run.
#[derive(Clone, Debug)]
pub struct RecomParams {
    /// The smallest population of a district.
    pub min_pop: u32,
    /// The largest population of a district.
    pub max_pop: u32,
    /// The number of output records of the run, the seed plan among them.
    pub num_steps: u64,
    pub rng_seed: u64,
    /// The bound on the number of balanced cuts (reversible chains).
    pub balance_ub: u32,
    pub variant: RecomVariant,
    /// The surcharge of each region column (region-aware chains).
    pub region_weights: Vec<(String, Double)>,
    /// Edge attributes that are added to edge weights.
    pub edge_weight_keys: Vec<String>,
}

/// A redrawing of two districts.
#[derive(Debug)]
pub struct RecomProposal {
    pub a_label: usize,
    pub b_label: usize,
    pub a_pop: u32,
    pub b_pop: u32,
    pub a_nodes: Vec<usize>,
    pub b_nodes: Vec<usize>,
}

/// The contents of a proposal.
#[verifier::ext_equal]
pub struct Redraw {
    pub a_label: nat,
    pub b_label: nat,
    pub a_pop: nat,
    pub b_pop: nat,
    pub a_nodes: Seq<usize>,
    pub b_nodes: Seq<usize>,
}

impl View for RecomProposal {
    type V = Redraw;

    open spec fn view(&self) -> Redraw {
        Redraw {
            a_label: self.a_label as nat,
            b_label: self.b_label as nat,
            a_pop: self.a_pop as nat,
            b_pop: self.b_pop as nat,
            a_nodes: self.a_nodes@,
            b_nodes: self.b_nodes@,
        }
    }
}

impl Clone for RecomProposal {
    fn clone(&self) -> (r: RecomProposal)
        ensures
            r@ == self@,
    {
        RecomProposal {
            a_label: self.a_label,
            b_label: self.b_label,
            a_pop: self.a_pop,
            b_pop: self.b_pop,
            a_nodes: vectors::copied(&self.a_nodes),
            b_nodes: vectors::copied(&self.b_nodes),
        }
    }
}

} // verus!
