pub mod analysis;
pub mod compare;
pub mod db;
pub mod handlers;
pub mod order;
pub mod report;
pub mod text;
pub mod trusted;

use vstd::prelude::*;

verus! {

/// Fixed-point scale: measurement values, ratios and thresholds are stored
/// as integer multiples of one millionth.
pub const SCALE: u64 = 1_000_000;

/// The default noise threshold (0.002), in millionths.
pub const DEFAULT_NOISE_THRESHOLD: u64 = 2_000;

/// One side of a comparison: a branch, the commit to measure, and where to
/// clone it from.
pub struct RepoAndSha {
    pub branch_name: String,
    pub commit_sha: String,
    pub clone_url: String,
}

/// Mathematical value of a comparison side.
#[verifier::ext_equal]
pub ghost struct RepoAndShaModel {
    pub branch_name: Seq<char>,
    pub commit_sha: Seq<char>,
    pub clone_url: Seq<char>,
}

impl View for RepoAndSha {
    type V = RepoAndShaModel;

    open spec fn view(&self) -> RepoAndShaModel {
        RepoAndShaModel {
            branch_name: self.branch_name@,
            commit_sha: self.commit_sha@,
            clone_url: self.clone_url@,
        }
    }
}

impl RepoAndSha {
    /// A field-for-field copy.
    pub fn duplicate(&self) -> (r: RepoAndSha)
        ensures
            r@ == self@,
    {
        RepoAndSha {
            branch_name: self.branch_name.clone(),
            commit_sha: self.commit_sha.clone(),
            clone_url: self.clone_url.clone(),
        }
    }
}

/// The two sides of a pull-request comparison.
pub struct PrBranches {
    pub baseline: RepoAndSha,
    pub candidate: RepoAndSha,
}

/// Mathematical value of the two sides.
#[verifier::ext_equal]
pub ghost struct PrBranchesModel {
    pub baseline: RepoAndShaModel,
    pub candidate: RepoAndShaModel,
}

impl View for PrBranches {
    type V = PrBranchesModel;

    open spec fn view(&self) -> PrBranchesModel {
        PrBranchesModel { baseline: self.baseline@, candidate: self.candidate@ }
    }
}

impl PrBranches {
    /// A field-for-field copy.
    pub fn duplicate(&self) -> (r: PrBranches)
        ensures
            r@ == self@,
    {
        PrBranches { baseline: self.baseline.duplicate(), candidate: self.candidate.duplicate() }
    }
}

} // verus!
