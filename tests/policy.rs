use solana_sdk::pubkey::Pubkey;
use stake_o_matic::config::Config;
use stake_o_matic::identity::Identity;
use stake_o_matic::policy::{InfrastructureConcentrationAffectKind, InfrastructureConcentrationAffects};
use stake_o_matic::release::{is_release_version, release_version_text};
use stake_o_matic::text::append_decimal;

fn config_with_ceiling(max: u64) -> Config {
    Config { max_infrastructure_concentration: max, ..Config::default_for_test() }
}

#[test]
fn default_config_values() {
    let config = Config::default_for_test();
    assert_eq!(config.cluster, "mainnet-beta");
    assert!(config.dry_run);
    assert_eq!(config.quality_block_producer_percentage, 15);
    assert_eq!(config.delinquent_grace_slot_distance, 21_600);
    assert_eq!(config.delinquent_hold_slot_distance, 256);
    assert_eq!(config.max_poor_block_producer_percentage, 20);
    assert_eq!(config.max_commission, 100);
    assert_eq!(config.min_release_version, None);
    assert_eq!(config.max_old_release_version_percentage, 10);
    assert_eq!(config.max_infrastructure_concentration, 100);
    assert!(matches!(
        config.infrastructure_concentration_affects,
        InfrastructureConcentrationAffects::WarnAll
    ));
    assert!(!config.use_cluster_average_skip_rate);
    assert_eq!(config.bad_cluster_average_skip_rate, 50);
}

#[test]
fn decimal_text() {
    let mut s = String::from("n=");
    append_decimal(&mut s, 0);
    assert_eq!(s, "n=0");
    let mut s = String::new();
    append_decimal(&mut s, 1_234_567_890);
    assert_eq!(s, "1234567890");
    let mut s = String::new();
    append_decimal(&mut s, u64::MAX);
    assert_eq!(s, u64::MAX.to_string());
}

#[test]
fn destake_all_memo() {
    let key = Pubkey::new_unique();
    let config = config_with_ceiling(30);
    let verdict =
        InfrastructureConcentrationAffects::DestakeAll.memo(&Identity::new(key.to_bytes()), 355, &config);
    match verdict {
        InfrastructureConcentrationAffectKind::Destake(m) => assert_eq!(
            m,
            format!(
                "🏟️ `{}` infrastructure concentration 35.5% is too high. Max concentration is 30%. Removed stake",
                key
            )
        ),
        InfrastructureConcentrationAffectKind::Warn(_) => panic!("expected a destake verdict"),
    }
}

#[test]
fn warn_all_memo() {
    let key = Pubkey::new_unique();
    let config = config_with_ceiling(10);
    let verdict =
        InfrastructureConcentrationAffects::WarnAll.memo(&Identity::new(key.to_bytes()), 120, &config);
    match verdict {
        InfrastructureConcentrationAffectKind::Warn(m) => assert_eq!(
            m,
            format!(
                "🗺  `{}` infrastructure concentration 12.0% is too high. Max concentration is 10%. No stake removed. Consider finding a new data center",
                key
            )
        ),
        InfrastructureConcentrationAffectKind::Destake(_) => panic!("expected a warning"),
    }
}

#[test]
fn destake_listed_memo() {
    let listed = Pubkey::new_unique();
    let other = Pubkey::new_unique();
    let policy =
        InfrastructureConcentrationAffects::DestakeListed(vec![Identity::new(listed.to_bytes())]);
    let config = config_with_ceiling(10);
    assert!(matches!(
        policy.memo(&Identity::new(listed.to_bytes()), 200, &config),
        InfrastructureConcentrationAffectKind::Destake(_)
    ));
    assert!(matches!(
        policy.memo(&Identity::new(other.to_bytes()), 200, &config),
        InfrastructureConcentrationAffectKind::Warn(_)
    ));
}

#[test]
fn policy_keywords() {
    assert!(matches!(
        InfrastructureConcentrationAffects::from_keyword("warn"),
        Some(InfrastructureConcentrationAffects::WarnAll)
    ));
    assert!(matches!(
        InfrastructureConcentrationAffects::from_keyword("WaRn"),
        Some(InfrastructureConcentrationAffects::WarnAll)
    ));
    assert!(matches!(
        InfrastructureConcentrationAffects::from_keyword("DESTAKE"),
        Some(InfrastructureConcentrationAffects::DestakeAll)
    ));
    assert!(InfrastructureConcentrationAffects::from_keyword("warning").is_none());
    assert!(InfrastructureConcentrationAffects::from_keyword("/tmp/list.yml").is_none());
    assert!(InfrastructureConcentrationAffects::from_keyword("").is_none());
}

#[test]
fn destake_list_from_yaml() {
    let a = Pubkey::new_unique();
    let b = Pubkey::new_unique();
    let text = format!("---\n- {}\n- not-a-key\n- {}\n", a, b);
    match InfrastructureConcentrationAffects::from_yaml_list(&text) {
        Some(InfrastructureConcentrationAffects::DestakeListed(list)) => {
            assert_eq!(list, vec![Identity::new(a.to_bytes()), Identity::new(b.to_bytes())]);
        }
        _ => panic!("expected a destake list"),
    }
    assert!(InfrastructureConcentrationAffects::from_yaml_list("key: value").is_none());
}

#[test]
fn release_version_texts() {
    assert!(is_release_version("1.6.7"));
    assert!(is_release_version("v1.6.7"));
    assert!(is_release_version("1.7.0-rc.1"));
    assert!(!is_release_version("v"));
    assert!(!is_release_version("1.6"));
    assert!(!is_release_version("vv1.6.7"));
    assert_eq!(release_version_text("v1.6.7"), "1.6.7");
    assert_eq!(release_version_text("1.6.7"), "1.6.7");
    assert_eq!(release_version_text(""), "");
}
