use app_bootstrap::app_config::{AppConfig, ConfigError, EnvEntry};
use app_bootstrap::num::Decimal;
use app_bootstrap::supervisor::{
    BootstrapReport, Phase, StartupError, StartupOutcome, SubsystemDescriptor, SubsystemHandle,
    Supervisor,
};

fn registry() -> Vec<SubsystemDescriptor> {
    vec![
        SubsystemDescriptor { name: "order-management".to_string() },
        SubsystemDescriptor { name: "data-management".to_string() },
    ]
}

fn loaded_config() -> AppConfig {
    AppConfig { debug: false, fixversion: Decimal { neg: false, mantissa: 15, scale: 1 } }
}

#[test]
fn all_launched_in_registration_order() {
    let mut sup = Supervisor::new(registry());
    sup.start_config();
    sup.finish_config(Ok(loaded_config()));
    let cfg = sup.start_launch();
    assert_eq!(cfg, loaded_config());

    let outcomes = vec![
        StartupOutcome::Success(SubsystemHandle { id: 32576 }),
        StartupOutcome::Success(SubsystemHandle { id: 32577 }),
    ];
    let report = sup.finish_launch(&outcomes);
    match report {
        BootstrapReport::AllLaunched(handles) => {
            assert_eq!(handles.len(), 2);
            assert_eq!(handles[0].id, 32576);
            assert_eq!(handles[1].id, 32577);
        }
        BootstrapReport::PartialFailure(_, _) => panic!("both launches succeeded"),
    }
    assert!(matches!(sup.phase, Phase::AllLaunched(_)));
}

#[test]
fn config_failure_launches_nothing() {
    let mut sup = Supervisor::new(registry());
    let mut launcher_invocations: usize = 0;

    sup.start_config();
    let loaded = AppConfig::load(&None, &Vec::<EnvEntry>::new());
    assert_eq!(loaded, Err(ConfigError::SourceUnavailable));
    sup.finish_config(loaded);

    if matches!(sup.phase, Phase::ConfigLoaded(_)) {
        sup.start_launch();
        for _ in 0..sup.descriptor_count() {
            launcher_invocations += 1;
        }
    }

    assert!(matches!(sup.phase, Phase::ConfigFailed(ConfigError::SourceUnavailable)));
    assert_eq!(launcher_invocations, 0);
    assert_eq!(sup.launches_started, 0);
}

#[test]
fn one_failure_still_reports_the_other_outcome() {
    let mut sup = Supervisor::new(registry());
    sup.start_config();
    sup.finish_config(Ok(loaded_config()));
    sup.start_launch();

    let outcomes = vec![
        StartupOutcome::Failure(StartupError { code: 7 }),
        StartupOutcome::Success(SubsystemHandle { id: 32577 }),
    ];
    let report = sup.finish_launch(&outcomes);
    match report {
        BootstrapReport::AllLaunched(_) => panic!("one launch failed"),
        BootstrapReport::PartialFailure(failures, handles) => {
            assert_eq!(failures.len(), 1);
            assert_eq!(failures[0].name, "order-management");
            assert_eq!(failures[0].error.code, 7);
            assert_eq!(handles.len(), 1);
            assert_eq!(handles[0].id, 32577);
        }
    }
}

#[test]
fn both_failures_are_reported_by_name() {
    let mut sup = Supervisor::new(registry());
    sup.start_config();
    sup.finish_config(Ok(loaded_config()));
    sup.start_launch();

    let outcomes = vec![
        StartupOutcome::Failure(StartupError { code: 3 }),
        StartupOutcome::Failure(StartupError { code: 4 }),
    ];
    match sup.finish_launch(&outcomes) {
        BootstrapReport::AllLaunched(_) => panic!("both launches failed"),
        BootstrapReport::PartialFailure(failures, handles) => {
            assert_eq!(failures.len(), 2);
            assert_eq!(failures[0].name, "order-management");
            assert_eq!(failures[0].error.code, 3);
            assert_eq!(failures[1].name, "data-management");
            assert_eq!(failures[1].error.code, 4);
            assert!(handles.is_empty());
        }
    }
}

#[test]
fn descriptor_names_in_registration_order() {
    let sup = Supervisor::new(registry());
    assert_eq!(sup.descriptor_count(), 2);
    assert_eq!(sup.descriptor_name(0), "order-management");
    assert_eq!(sup.descriptor_name(1), "data-management");
}
