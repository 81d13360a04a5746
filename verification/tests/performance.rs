use greppy::performance::{
    linux_cpu_for_worker, linux_discovered_cpus, linux_highest_scored_cpus, linux_performance_candidates,
    parse_linux_cpu_list, select_linux_performance_cpus, CpuError, CpuScore, LinuxCpuInfo,
};

fn linux_cpu(
    cpu: usize,
    core_type: Option<u64>,
    package: Option<i64>,
    core: Option<i64>,
) -> LinuxCpuInfo {
    LinuxCpuInfo {
        cpu,
        core_type,
        capacity: None,
        max_frequency: None,
        physical_package_id: package,
        core_id: core,
    }
}

#[test]
fn parses_linux_cpu_lists() {
    assert_eq!(
        parse_linux_cpu_list("0-3,8,10-11\n").expect("parse CPU list"),
        vec![0, 1, 2, 3, 8, 10, 11]
    );
    assert!(parse_linux_cpu_list("3-1").is_err());
    assert!(parse_linux_cpu_list("").is_err());
}

#[test]
fn selects_one_logical_cpu_per_physical_performance_core() {
    let cpus = [
        linux_cpu(1, Some(2), Some(0), Some(0)),
        linux_cpu(0, Some(2), Some(0), Some(0)),
        linux_cpu(3, Some(2), Some(0), Some(1)),
        linux_cpu(2, Some(2), Some(0), Some(1)),
        linux_cpu(4, Some(1), Some(0), Some(2)),
        linux_cpu(6, Some(2), Some(1), Some(0)),
    ];

    assert_eq!(
        select_linux_performance_cpus(&cpus, &[0, 1, 2, 3, 4, 6])
            .expect("select performance CPUs"),
        vec![0, 2, 6]
    );
}

#[test]
fn selection_respects_restricted_affinity_without_using_efficiency_cores() {
    let cpus = [
        linux_cpu(0, Some(2), Some(0), Some(0)),
        linux_cpu(1, Some(2), Some(0), Some(0)),
        linux_cpu(2, Some(2), Some(0), Some(1)),
        linux_cpu(4, Some(1), Some(0), Some(2)),
    ];

    assert_eq!(
        select_linux_performance_cpus(&cpus, &[1, 2, 4]).expect("select allowed performance CPUs"),
        vec![1, 2]
    );
    assert!(select_linux_performance_cpus(&cpus, &[4]).is_err());
}

#[test]
fn selection_falls_back_when_classification_and_topology_are_absent() {
    let cpus = [
        linux_cpu(7, None, None, None),
        linux_cpu(2, None, None, None),
        linux_cpu(4, None, None, None),
    ];

    assert_eq!(
        select_linux_performance_cpus(&cpus, &[7, 2]).expect("select allowed CPUs"),
        vec![2, 7]
    );
}

#[test]
fn selection_uses_capacity_when_core_type_is_absent() {
    let mut cpus = [
        linux_cpu(0, None, Some(0), Some(0)),
        linux_cpu(1, None, Some(0), Some(0)),
        linux_cpu(2, None, Some(0), Some(1)),
    ];
    cpus[0].capacity = Some(1024);
    cpus[1].capacity = Some(1024);
    cpus[2].capacity = Some(512);

    assert_eq!(
        select_linux_performance_cpus(&cpus, &[0, 1, 2]).expect("select capacity-ranked CPUs"),
        vec![0]
    );
}

#[test]
fn homogeneous_complete_core_type_ignores_frequency_variation() {
    let mut cpus = [
        linux_cpu(0, Some(2), Some(0), Some(0)),
        linux_cpu(1, Some(2), Some(0), Some(1)),
    ];
    cpus[0].max_frequency = Some(4_800_000);
    cpus[1].max_frequency = Some(4_700_000);

    assert_eq!(
        select_linux_performance_cpus(&cpus, &[0, 1]).expect("select homogeneous CPUs"),
        vec![0, 1]
    );
}

#[test]
fn maps_each_worker_to_one_distinct_cpu() {
    let cpus = [3, 7, 11];

    assert_eq!(linux_cpu_for_worker(&cpus, 0), Some(3));
    assert_eq!(linux_cpu_for_worker(&cpus, 1), Some(7));
    assert_eq!(linux_cpu_for_worker(&cpus, 2), Some(11));
    assert_eq!(linux_cpu_for_worker(&cpus, 3), None);
}

#[test]
fn cpu_list_errors_name_their_cause() {
    assert_eq!(parse_linux_cpu_list("3-1"), Err(CpuError::InvalidRange));
    assert_eq!(parse_linux_cpu_list("1-x"), Err(CpuError::InvalidRange));
    assert_eq!(parse_linux_cpu_list("7a"), Err(CpuError::InvalidId));
    assert_eq!(parse_linux_cpu_list(",,"), Err(CpuError::EmptyList));
    assert_eq!(parse_linux_cpu_list(" , ,"), Err(CpuError::InvalidId));
    assert_eq!(parse_linux_cpu_list(""), Err(CpuError::EmptyList));
}

#[test]
fn cpu_list_skips_empty_entries_and_keeps_order() {
    assert_eq!(parse_linux_cpu_list(" 5,,2-3, ").unwrap(), vec![5, 2, 3]);
    assert_eq!(parse_linux_cpu_list("+4").unwrap(), vec![4]);
    assert_eq!(parse_linux_cpu_list("9-9").unwrap(), vec![9]);
}

#[test]
fn empty_online_list_is_an_error() {
    assert_eq!(select_linux_performance_cpus(&[], &[0]), Err(CpuError::NoOnlineCpus));
}

#[test]
fn mixed_classification_is_an_error() {
    let cpus = [linux_cpu(0, Some(2), None, None), linux_cpu(1, None, None, None)];
    assert_eq!(linux_performance_candidates(&cpus), Err(CpuError::IncompleteMetadata));
}

#[test]
fn highest_scored_keeps_only_the_top_score() {
    let mut cpus = [
        linux_cpu(0, None, None, None),
        linux_cpu(1, None, None, None),
        linux_cpu(2, None, None, None),
    ];
    cpus[0].max_frequency = Some(3);
    cpus[1].max_frequency = Some(5);
    cpus[2].max_frequency = Some(5);
    let best = linux_highest_scored_cpus(&cpus, CpuScore::MaxFrequency).unwrap();
    let ids: Vec<usize> = best.iter().map(|c| c.cpu).collect();
    assert_eq!(ids, vec![1, 2]);
    assert!(linux_highest_scored_cpus(&cpus, CpuScore::Capacity).is_none());
}

fn cpu_set_entry(id: u32, efficiency: u8) -> Vec<u8> {
    let mut e = vec![0u8; 32];
    e[0..4].copy_from_slice(&32u32.to_le_bytes());
    e[8..12].copy_from_slice(&id.to_le_bytes());
    e[18] = efficiency;
    e
}

#[test]
fn windows_cpu_sets_pick_the_fastest_class() {
    let mut buffer = Vec::new();
    buffer.extend(cpu_set_entry(256, 1));
    buffer.extend(cpu_set_entry(257, 0));
    let mut other = vec![0u8; 16];
    other[0..4].copy_from_slice(&16u32.to_le_bytes());
    other[4] = 1;
    buffer.extend(other);
    buffer.extend(cpu_set_entry(258, 1));
    let entries = greppy::performance::windows_cpu_set_entries(&buffer, buffer.len()).unwrap();
    assert_eq!(entries, vec![(256, 1), (257, 0), (258, 1)]);
    assert_eq!(greppy::performance::select_windows_cpu_sets(&entries).unwrap(), vec![256, 258]);
    assert_eq!(
        greppy::performance::select_windows_cpu_sets(&[]).unwrap_err(),
        greppy::performance::CpuError::NoCpuSets
    );
    let mut bad = cpu_set_entry(1, 0);
    bad[0..4].copy_from_slice(&4u32.to_le_bytes());
    assert_eq!(
        greppy::performance::windows_cpu_set_entries(&bad, bad.len()).unwrap_err(),
        greppy::performance::CpuError::MalformedCpuSets
    );
    assert!(greppy::performance::windows_cpu_set_entries(&buffer, 7).unwrap().is_empty());
}

#[test]
fn discovered_cpus_merge_online_and_allowed() {
    let online = vec![4, 0, 1, 2, 2];
    let allowed = vec![7, 1];
    assert_eq!(linux_discovered_cpus(Some(&online), &allowed), vec![0, 1, 2, 4, 7]);
    assert_eq!(linux_discovered_cpus(None, &allowed), vec![1, 7]);
    assert_eq!(linux_discovered_cpus(Some(&[]), &[]), Vec::<usize>::new());
}
