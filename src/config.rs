//! Settings of a run.

use vstd::prelude::*;
use crate::policy::InfrastructureConcentrationAffects;

verus! {

/// Settings of one run of the stake rebalancer.
#[derive(Clone, Debug)]
pub struct Config {
    /// Name of the cluster operated on ("mainnet-beta", "testnet" or "unknown").
    pub cluster: String,
    /// When set, operations are only logged, never submitted.
    pub dry_run: bool,
    /// Quality validators produce within this percentage of the skip-rate floor.
    pub quality_block_producer_percentage: usize,
    /// Slots of grace (from the current slot) before a delinquent validator is
    /// fully destaked.
    pub delinquent_grace_slot_distance: u64,
    /// A validator whose root is further behind the current slot than this,
    /// but within the grace distance, keeps its current stake.
    pub delinquent_hold_slot_distance: u64,
    /// Never remove stake for poor block production from more than this
    /// percentage of the validators at one time.
    pub max_poor_block_producer_percentage: usize,
    /// Vote accounts with a larger commission than this are not staked.
    pub max_commission: u8,
    /// When present, validators running an older release are destaked, subject
    /// to `max_old_release_version_percentage`.
    pub min_release_version: Option<String>,
    /// Never remove stake for an old release from more than this percentage of
    /// the validators at one time.
    pub max_old_release_version_percentage: usize,
    /// Infrastructure concentration ceiling, in percent.
    pub max_infrastructure_concentration: u64,
    /// What happens to validators above the concentration ceiling.
    pub infrastructure_concentration_affects: InfrastructureConcentrationAffects,
    /// Use the cluster-average skip rate as the floor of the quality test.
    pub use_cluster_average_skip_rate: bool,
    /// Cluster-average skip rate above which operators are notified.
    pub bad_cluster_average_skip_rate: usize,
}

impl Config {
    /// The settings used by tests: mainnet defaults, dry run, no cluster floor.
    pub fn default_for_test() -> (r: Config)
        ensures
            r.cluster@ == "mainnet-beta"@,
            r.dry_run,
            r.quality_block_producer_percentage == 15,
            r.delinquent_grace_slot_distance == 21_600,
            r.delinquent_hold_slot_distance == 256,
            r.max_poor_block_producer_percentage == 20,
            r.max_commission == 100,
            r.min_release_version is None,
            r.max_old_release_version_percentage == 10,
            r.max_infrastructure_concentration == 100,
            r.infrastructure_concentration_affects is WarnAll,
            !r.use_cluster_average_skip_rate,
            r.bad_cluster_average_skip_rate == 50,
    {
        Config {
            cluster: String::from_str("mainnet-beta"),
            dry_run: true,
            quality_block_producer_percentage: 15,
            delinquent_grace_slot_distance: 21_600,
            delinquent_hold_slot_distance: 256,
            max_poor_block_producer_percentage: 20,
            max_commission: 100,
            min_release_version: None,
            max_old_release_version_percentage: 10,
            max_infrastructure_concentration: 100,
            infrastructure_concentration_affects: InfrastructureConcentrationAffects::WarnAll,
            use_cluster_average_skip_rate: false,
            bad_cluster_average_skip_rate: 50,
        }
    }
}

} // verus!
