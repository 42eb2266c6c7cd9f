use std::collections::HashMap;

use sinfo::sensors::poller::{
    discover_all_sources, new_poll_stats, record_source_duration, slow_sources, ChipSupport,
    Poller, SourceKind,
};

#[test]
fn durations_accumulate_per_name() {
    let mut d: Vec<(String, u64)> = Vec::new();
    record_source_duration(&mut d, "hwmon", 5);
    record_source_duration(&mut d, "rapl", 2);
    record_source_duration(&mut d, "hwmon", 7);
    assert_eq!(d, vec![("hwmon".to_string(), 12), ("rapl".to_string(), 2)]);
}

#[test]
fn slow_cycle_report() {
    let d = vec![("hwmon".to_string(), 120), ("ipmi".to_string(), 100), ("gpu".to_string(), 400)];
    assert_eq!(slow_sources(&d, 500), None);
    assert_eq!(
        slow_sources(&d, 501),
        Some(vec![("hwmon".to_string(), 120), ("gpu".to_string(), 400)])
    );
    assert_eq!(slow_sources(&vec![("a".to_string(), 1)], 900), Some(vec![]));
}

#[test]
fn poll_stats_after_a_cycle() {
    let mut stats = new_poll_stats();
    assert_eq!(stats.cycle_duration_ms, 0);
    assert!(stats.source_durations.is_empty());
    let d = vec![("hwmon".to_string(), 3)];
    stats.record_cycle(42, &d);
    assert_eq!(stats.cycle_duration_ms, 42);
    assert_eq!(stats.source_durations, d);
}

#[test]
fn sources_without_direct_io() {
    let chips = vec![ChipSupport { nct67xx: true, ite87xx: false }];
    let plan = discover_all_sources(false, &chips);
    assert_eq!(
        plan.sources,
        vec![
            SourceKind::Hwmon,
            SourceKind::CpuFreq,
            SourceKind::CpuUtil,
            SourceKind::Gpu,
            SourceKind::Rapl,
            SourceKind::DiskActivity,
            SourceKind::NetworkStats,
            SourceKind::Hsmp,
            SourceKind::Ipmi,
        ]
    );
    assert_eq!((plan.nct_count, plan.ite_count), (0, 0));
}

#[test]
fn sources_with_direct_io() {
    let chips = vec![
        ChipSupport { nct67xx: false, ite87xx: true },
        ChipSupport { nct67xx: false, ite87xx: false },
        ChipSupport { nct67xx: true, ite87xx: true },
    ];
    let plan = discover_all_sources(true, &chips);
    assert_eq!(
        plan.sources[7..],
        [
            SourceKind::Ite87xx(0),
            SourceKind::Nct67xx(2),
            SourceKind::Spd5118,
            SourceKind::Pmbus,
            SourceKind::Hsmp,
            SourceKind::Ipmi,
        ]
    );
    assert_eq!((plan.nct_count, plan.ite_count), (1, 1));
}

#[test]
fn poller_settings() {
    let mut labels = HashMap::new();
    labels.insert("hwmon/nct6798/in0".to_string(), "Vcore".to_string());
    let p = Poller::new(1u8, 2u16, 750, true, false, labels);
    assert_eq!(*p.state(), 1);
    assert_eq!(*p.poll_stats(), 2);
    assert_eq!(p.interval_ms(), 750);
    assert!(p.no_nvidia());
    assert!(!p.direct_io());
    assert_eq!(p.label_overrides()["hwmon/nct6798/in0"], "Vcore");
}
