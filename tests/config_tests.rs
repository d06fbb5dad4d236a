use aggregator::adapters::Adapter;
use aggregator::config::{adapter_kind, AdapterKind, DexConfig, Resolver};

fn pairs(v: &[(&str, &str)]) -> Vec<(String, String)> {
    v.iter().map(|(a, b)| (a.to_string(), b.to_string())).collect()
}

const MGMT: &str = "aaaaa-aa";
const OTHER: &str = "2vxsx-fae";

#[test]
fn build_skips_invalid_endpoints() {
    let dex = pairs(&[("D_FACTORY", MGMT), ("BAD_ROUTER", "not a principal")]);
    let cfg = DexConfig::build(&dex, &Vec::new(), &Vec::new());
    let mut r = Resolver::new(cfg);
    assert_eq!(r.resolve(&"D_FACTORY".to_string()), Some(MGMT.to_string()));
    assert_eq!(r.resolve(&"BAD_ROUTER".to_string()), None);
    assert_eq!(r.resolve(&"UNKNOWN".to_string()), None);
}

#[test]
fn environment_overrides_file() {
    let dex = pairs(&[("ICPSWAP_FACTORY", MGMT)]);
    let ctrls = pairs(&[("ICPSWAP_FACTORY", MGMT)]);
    let env = pairs(&[("ICPSWAP_FACTORY", OTHER), ("SONIC_ROUTER", MGMT), ("NOT_KNOWN", MGMT)]);
    let cfg = DexConfig::build(&dex, &ctrls, &env);
    let e = cfg.entries.get(&"ICPSWAP_FACTORY".to_string()).unwrap();
    assert_eq!(e.id, OTHER);
    assert_eq!(e.controller.as_deref(), Some(MGMT));
    assert!(e.enabled);
    let s = cfg.entries.get(&"SONIC_ROUTER".to_string()).unwrap();
    assert_eq!(s.id, MGMT);
    assert!(s.controller.is_none());
    assert!(cfg.entries.get(&"NOT_KNOWN".to_string()).is_none());
}

#[test]
fn sanity_probes_disable() {
    let dex = pairs(&[("A_FACTORY", MGMT), ("B_VAULT", MGMT), ("C_ROUTER", MGMT)]);
    let ctrls = pairs(&[("B_VAULT", OTHER), ("C_ROUTER", OTHER)]);
    let mut r = Resolver::new(DexConfig::build(&dex, &ctrls, &Vec::new()));
    assert_eq!(r.resolve(&"A_FACTORY".to_string()), Some(MGMT.to_string()));
    r.probe(&"A_FACTORY".to_string(), false, &None);
    r.probe(&"B_VAULT".to_string(), true, &Some(vec![MGMT.to_string()]));
    r.probe(&"C_ROUTER".to_string(), true, &Some(vec![OTHER.to_string()]));
    assert_eq!(r.resolve(&"A_FACTORY".to_string()), None);
    assert_eq!(r.resolve(&"B_VAULT".to_string()), None);
    assert_eq!(r.resolve(&"C_ROUTER".to_string()), Some(MGMT.to_string()));
    let reg = r.config.registry();
    assert_eq!(reg.len(), 1);
    assert_eq!(reg[0].name, "C_ROUTER");
    assert_eq!(reg[0].kind, AdapterKind::Router);
}

#[test]
fn hot_reload_switches_endpoint() {
    let old = DexConfig::build(&pairs(&[("A", MGMT)]), &Vec::new(), &Vec::new());
    let mut r = Resolver::new(old);
    assert_eq!(r.resolve(&"A".to_string()), Some(MGMT.to_string()));
    let mut adapter = Adapter::from_entry(&aggregator::config::AdapterEntry {
        name: "A_VAULT".to_string(),
        kind: AdapterKind::Vault,
        endpoint: MGMT.to_string(),
    });
    if let Adapter::Vault(v) = &mut adapter {
        v.ledger_meta.store(&MGMT.to_string(), ("AAA".to_string(), 2, 10), 0);
        assert!(v.ledger_meta.lookup(&MGMT.to_string(), 1).is_some());
    }
    let new = DexConfig::build(&pairs(&[("A", OTHER)]), &Vec::new(), &Vec::new());
    r.reload(new);
    adapter.clear_cache();
    assert_eq!(r.resolve(&"A".to_string()), Some(OTHER.to_string()));
    if let Adapter::Vault(v) = &adapter {
        assert!(v.ledger_meta.lookup(&MGMT.to_string(), 1).is_none());
    }
}

#[test]
fn adapter_kinds_by_name() {
    assert_eq!(adapter_kind("D_FACTORY"), Some(AdapterKind::Factory));
    assert_eq!(adapter_kind("ICPSWAP_FACTORY"), Some(AdapterKind::Factory));
    assert_eq!(adapter_kind("SONIC_ROUTER"), Some(AdapterKind::Router));
    assert_eq!(adapter_kind("INFINITY_VAULT"), Some(AdapterKind::Vault));
    assert_eq!(adapter_kind("SNS_DISTRIBUTOR"), Some(AdapterKind::Distributor));
    assert_eq!(adapter_kind("LEDGER"), None);
}

#[test]
fn registry_and_ids_in_table_order() {
    let dex = pairs(&[("X_VAULT", MGMT), ("PLAIN", OTHER), ("SNS_ONE", OTHER)]);
    let cfg = DexConfig::build(&dex, &Vec::new(), &Vec::new());
    let reg = cfg.registry();
    let names: Vec<&str> = reg.iter().map(|a| a.name.as_str()).collect();
    assert!(names.contains(&"X_VAULT"));
    assert!(names.contains(&"SNS_ONE"));
    assert!(!names.contains(&"PLAIN"));
    assert_eq!(cfg.enabled_ids().len(), 3);
}
