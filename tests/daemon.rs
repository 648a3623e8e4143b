use chainsaw::daemon::{
    combine_lookups, preferred_mode, record_outcome, step_of, Daemon, DaemonError, Gpu, Mode, Step,
    Target,
};
use chainsaw::maps::{BlockError, BlockMaps, MemoryBlockMaps};
use chainsaw::pci::pci_key;

fn gpu(id: u32, pci: &str, render: u32, card: u32, is_default: bool) -> Gpu {
    Gpu {
        id,
        name: format!("GPU {}", id),
        pci_address: pci.to_string(),
        render_node: format!("/dev/dri/renderD{}", render),
        card_node: format!("/dev/dri/card{}", card),
        is_default,
    }
}

fn two_gpus() -> Vec<Gpu> {
    vec![
        gpu(2, "0000:01:00.0", 129, 1, false),
        gpu(1, "0000:00:02.0", 128, 0, true),
    ]
}

fn three_gpus() -> Vec<Gpu> {
    vec![
        gpu(1, "0000:00:02.0", 128, 0, true),
        gpu(2, "0000:01:00.0", 129, 1, false),
        gpu(3, "0000:02:00.0", 130, 2, false),
    ]
}

fn blocked_flags(d: &mut Daemon<MemoryBlockMaps>) -> Vec<(u32, bool)> {
    let (rows, failures) = d.list_gpus();
    assert!(failures.is_empty());
    rows.iter().map(|r| (r.0, r.5)).collect()
}

#[test]
fn integrated_then_list_and_override_boot_gpu() {
    let mut d = Daemon::new(Mode::Hybrid, two_gpus(), MemoryBlockMaps::new());
    let failures = d.set_mode("integrated".to_string()).ok().unwrap();
    assert!(failures.is_empty());
    let (rows, failures) = d.list_gpus();
    assert!(failures.is_empty());
    assert_eq!(rows.len(), 2);
    assert_eq!(rows[0].0, 1);
    assert_eq!(rows[0].2, "0000:00:02.0");
    assert_eq!(rows[0].3, "/dev/dri/renderD128");
    assert!(rows[0].4);
    assert!(!rows[0].5);
    assert_eq!(rows[1].0, 2);
    assert_eq!(rows[1].2, "0000:01:00.0");
    assert!(!rows[1].4);
    assert!(rows[1].5);

    let (effective, failures) = d.set_gpu_block(1, true).ok().unwrap();
    assert!(failures.is_empty());
    assert!(effective);
    assert_eq!(blocked_flags(&mut d), vec![(1, true), (2, true)]);
}

#[test]
fn startup_applies_persisted_integrated() {
    let (mut d, failures) =
        Daemon::start(Some("integrated".to_string()), two_gpus(), MemoryBlockMaps::new());
    assert!(failures.is_empty());
    assert_eq!(d.get_mode(), "integrated");
    assert_eq!(blocked_flags(&mut d), vec![(1, false), (2, true)]);
}

#[test]
fn startup_defaults_to_hybrid() {
    let (mut d, _) = Daemon::start(None, two_gpus(), MemoryBlockMaps::new());
    assert_eq!(d.get_mode(), "hybrid");
    assert_eq!(blocked_flags(&mut d), vec![(1, false), (2, false)]);
    let (d2, _) = Daemon::start(Some("turbo".to_string()), two_gpus(), MemoryBlockMaps::new());
    assert_eq!(d2.get_mode(), "hybrid");
}

#[test]
fn preferred_mode_reads_persisted_name() {
    assert_eq!(preferred_mode(Some("integrated".to_string())), Mode::Integrated);
    assert_eq!(preferred_mode(Some("hybrid".to_string())), Mode::Hybrid);
    assert_eq!(preferred_mode(Some("Integrated".to_string())), Mode::Hybrid);
    assert_eq!(preferred_mode(None), Mode::Hybrid);
}

#[test]
fn integrated_blocks_every_non_boot_gpu() {
    let mut d = Daemon::new(Mode::Hybrid, three_gpus(), MemoryBlockMaps::new());
    assert!(d.set_mode("integrated".to_string()).is_ok());
    assert_eq!(blocked_flags(&mut d), vec![(1, false), (2, true), (3, true)]);
    assert!(d.blocker.is_id_blocked(129).ok().unwrap());
    assert!(d.blocker.is_id_blocked(1).ok().unwrap());
    assert!(d.blocker.is_pci_blocked("0000:02:00.0").ok().unwrap());
    assert!(!d.blocker.is_id_blocked(128).ok().unwrap());
    assert!(!d.blocker.is_pci_blocked("0000:00:02.0").ok().unwrap());
}

#[test]
fn hybrid_unblocks_previously_blocked() {
    let mut d = Daemon::new(Mode::Hybrid, three_gpus(), MemoryBlockMaps::new());
    assert!(d.set_mode("integrated".to_string()).is_ok());
    assert!(d.set_mode("hybrid".to_string()).is_ok());
    assert_eq!(d.get_mode(), "hybrid");
    assert_eq!(blocked_flags(&mut d), vec![(1, false), (2, false), (3, false)]);
    assert!(!d.blocker.is_id_blocked(130).ok().unwrap());
    assert!(!d.blocker.is_pci_blocked("0000:01:00.0").ok().unwrap());
}

#[test]
fn set_mode_twice_matches_once() {
    let mut once = Daemon::new(Mode::Hybrid, three_gpus(), MemoryBlockMaps::new());
    let mut twice = Daemon::new(Mode::Hybrid, three_gpus(), MemoryBlockMaps::new());
    assert!(once.set_mode("integrated".to_string()).is_ok());
    assert!(twice.set_mode("integrated".to_string()).is_ok());
    assert!(twice.set_mode("integrated".to_string()).is_ok());
    assert_eq!(once.get_mode(), twice.get_mode());
    assert_eq!(blocked_flags(&mut once), blocked_flags(&mut twice));
    for id in [128u32, 129, 130, 0, 1, 2] {
        assert_eq!(
            once.blocker.is_id_blocked(id).ok(),
            twice.blocker.is_id_blocked(id).ok()
        );
    }
}

#[test]
fn unknown_mode_is_rejected() {
    let mut d = Daemon::new(Mode::Hybrid, two_gpus(), MemoryBlockMaps::new());
    match d.set_mode("discrete".to_string()) {
        Err(DaemonError::UnknownMode(m)) => assert_eq!(m, "discrete"),
        _ => panic!("expected an unknown-mode error"),
    }
    assert_eq!(d.get_mode(), "hybrid");
    assert_eq!(blocked_flags(&mut d), vec![(1, false), (2, false)]);
}

#[test]
fn unknown_gpu_is_rejected_without_change() {
    let mut d = Daemon::new(Mode::Hybrid, two_gpus(), MemoryBlockMaps::new());
    match d.set_gpu_block(7, true) {
        Err(DaemonError::UnknownGpu(id)) => assert_eq!(id, 7),
        _ => panic!("expected an unknown-gpu error"),
    }
    assert_eq!(blocked_flags(&mut d), vec![(1, false), (2, false)]);
    for id in [128u32, 129, 0, 1] {
        assert!(!d.blocker.is_id_blocked(id).ok().unwrap());
    }
    assert!(!d.blocker.is_pci_blocked("0000:01:00.0").ok().unwrap());
}

#[test]
fn gpu_override_unblocks_in_integrated_mode() {
    let mut d = Daemon::new(Mode::Hybrid, two_gpus(), MemoryBlockMaps::new());
    assert!(d.set_mode("integrated".to_string()).is_ok());
    let (effective, _) = d.set_gpu_block(2, false).ok().unwrap();
    assert!(!effective);
    assert_eq!(d.get_mode(), "integrated");
    assert_eq!(blocked_flags(&mut d), vec![(1, false), (2, false)]);
}

#[test]
fn list_mode_names_both_modes() {
    let d = Daemon::new(Mode::Integrated, two_gpus(), MemoryBlockMaps::new());
    assert_eq!(d.list_mode(), vec!["integrated".to_string(), "hybrid".to_string()]);
    assert_eq!(d.get_mode(), "integrated");
    assert_eq!(d.get_current_hardware_mode(), Mode::Hybrid);
}

#[test]
fn mode_parse_and_name() {
    assert_eq!(Mode::parse("integrated"), Some(Mode::Integrated));
    assert_eq!(Mode::parse("hybrid"), Some(Mode::Hybrid));
    assert_eq!(Mode::parse("hybrid "), None);
    assert_eq!(Mode::parse(""), None);
    assert_eq!(Mode::Integrated.name(), "integrated");
    assert_eq!(Mode::Hybrid.name(), "hybrid");
}

#[test]
fn gpu_lookup_by_id() {
    let d = Daemon::new(Mode::Hybrid, two_gpus(), MemoryBlockMaps::new());
    assert_eq!(d.gpu_by_id(1), Some(1));
    assert_eq!(d.gpu_by_id(2), Some(0));
    assert_eq!(d.gpu_by_id(3), None);
}

#[test]
fn gpu_without_node_ids_is_blocked_by_pci() {
    let mut odd = gpu(4, "0000:03:00.0", 0, 0, false);
    odd.render_node = "/dev/dri/renderDx".to_string();
    odd.card_node = "/dev/other/card3".to_string();
    let mut d = Daemon::new(Mode::Hybrid, vec![odd], MemoryBlockMaps::new());
    assert!(d.set_mode("integrated".to_string()).is_ok());
    assert_eq!(blocked_flags(&mut d), vec![(4, true)]);
    assert!(!d.blocker.is_id_blocked(3).ok().unwrap());
}

fn flaky(ids: Vec<u32>, pcis: &[&str]) -> MemoryBlockMaps {
    MemoryBlockMaps::refusing(ids, pcis.iter().map(|p| pci_key(p)).collect())
}

#[test]
fn failed_steps_do_not_stop_the_others() {
    let flaky = flaky(vec![129], &["0000:02:00.0"]);
    let mut d = Daemon::new(Mode::Hybrid, three_gpus(), flaky);
    let failures = d.set_mode("integrated".to_string()).ok().unwrap();
    assert_eq!(failures.len(), 2);
    assert_eq!(failures[0].gpu_id, 2);
    assert_eq!(failures[0].target, Target::RenderNode);
    assert_eq!(failures[0].step, Step::Block);
    assert_eq!(failures[1].gpu_id, 3);
    assert_eq!(failures[1].target, Target::Pci);
    assert_eq!(d.get_mode(), "integrated");
    assert!(!d.blocker.is_id_blocked(129).ok().unwrap());
    assert!(d.blocker.is_id_blocked(1).ok().unwrap());
    assert!(d.blocker.is_pci_blocked("0000:01:00.0").ok().unwrap());
    assert!(d.blocker.is_id_blocked(130).ok().unwrap());
    assert!(d.blocker.is_id_blocked(2).ok().unwrap());
    assert!(!d.blocker.is_pci_blocked("0000:02:00.0").ok().unwrap());
    assert!(!d.blocker.is_id_blocked(128).ok().unwrap());
    assert_eq!(blocked_flags(&mut d), vec![(1, false), (2, true), (3, true)]);
}

#[test]
fn override_reports_what_took_effect() {
    let flaky = flaky(vec![129, 1], &["0000:01:00.0"]);
    let mut d = Daemon::new(Mode::Hybrid, two_gpus(), flaky);
    let (effective, failures) = d.set_gpu_block(2, true).ok().unwrap();
    assert_eq!(failures.len(), 3);
    assert!(!effective);
    let (effective, failures) = d.set_gpu_block(1, true).ok().unwrap();
    assert!(failures.is_empty());
    assert!(effective);
}

#[test]
fn hybrid_over_unblocked_gpus_records_nothing() {
    let mut d = Daemon::new(Mode::Hybrid, three_gpus(), MemoryBlockMaps::new());
    let failures = d.set_mode("hybrid".to_string()).ok().unwrap();
    assert!(failures.is_empty());
}

#[test]
fn only_the_boot_gpu_means_no_failures() {
    let flaky = flaky(vec![128, 0], &["0000:00:02.0"]);
    let mut d = Daemon::new(Mode::Hybrid, vec![gpu(1, "0000:00:02.0", 128, 0, true)], flaky);
    let failures = d.set_mode("integrated".to_string()).ok().unwrap();
    assert!(failures.is_empty());
    assert_eq!(blocked_flags(&mut d), vec![(1, false)]);
}


#[test]
fn refused_change_reports_refused() {
    let mut m = flaky(vec![9], &["0000:09:00.0"]);
    assert!(matches!(m.block_id(9), Err(BlockError::Refused)));
    assert!(matches!(m.unblock_pci("0000:09:00.0"), Err(BlockError::Refused)));
    assert!(!m.is_id_blocked(9).ok().unwrap());
    assert!(m.block_id(8).is_ok());
}

#[test]
fn a_successful_lookup_that_finds_its_key_decides() {
    assert!(combine_lookups(&Err(BlockError::Refused), &Some(Ok(true)), &None));
    assert!(combine_lookups(&Ok(true), &Some(Err(BlockError::Refused)), &Some(Err(BlockError::Refused))));
    assert!(combine_lookups(&Ok(false), &None, &Some(Ok(true))));
    assert!(!combine_lookups(&Ok(false), &Some(Ok(false)), &Some(Err(BlockError::Refused))));
    assert!(!combine_lookups(&Err(BlockError::Refused), &None, &None));
}

#[test]
fn outcomes_are_recorded_only_on_failure() {
    let g = gpu(5, "0000:05:00.0", 131, 3, false);
    let mut failures = Vec::new();
    assert_eq!(record_outcome(Ok(7u32), &mut failures, &g, Target::CardNode, Step::Block), Some(7));
    assert!(failures.is_empty());
    let none: Option<()> =
        record_outcome(Err(BlockError::Refused), &mut failures, &g, Target::Pci, step_of(false));
    assert!(none.is_none());
    assert_eq!(failures.len(), 1);
    assert_eq!(failures[0].gpu_id, 5);
    assert_eq!(failures[0].target, Target::Pci);
    assert_eq!(failures[0].step, Step::Unblock);
    assert!(matches!(failures[0].error, BlockError::Refused));
}
