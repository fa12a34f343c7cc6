use std::sync::mpsc;

use jetson_flasher::discovery::{
    descriptor_from_fields, instance_from_listing, sysfs_field_path, trim_text,
};
use jetson_flasher::devicetree::patch::DtbTarget;
use jetson_flasher::jetson::{FlashStatus, Signal};
use jetson_flasher::pipeline::{Pipeline, PipelineState};
use jetson_flasher::provision::{check_env, patching_line, setup_stages, workspace_present};
use jetson_flasher::status::{flash_worker_done, next_flash_status, next_install_status, InstallStatus};

fn rank(s: InstallStatus) -> u8 {
    match s {
        InstallStatus::NotInstalled => 0,
        InstallStatus::Installing(_) => 1,
        InstallStatus::Installed => 2,
    }
}

#[test]
fn install_status_never_moves_back() {
    let sigs = vec![
        Signal::Message("x\n".to_string()),
        Signal::EnvironmentInstalling(5),
        Signal::FlashFail,
        Signal::EnvironmentInstalled,
        Signal::EnvironmentInstalling(9),
        Signal::EnvironmentPass,
    ];
    let mut s = InstallStatus::NotInstalled;
    let mut seen = vec![s];
    for sig in &sigs {
        let n = next_install_status(s, sig);
        assert!(rank(n) >= rank(s));
        s = n;
        seen.push(s);
    }
    assert_eq!(seen[2], InstallStatus::Installing(5));
    assert_eq!(s, InstallStatus::Installed);
}

#[test]
fn flash_status_transitions() {
    assert_eq!(next_flash_status(FlashStatus::Wait, &Signal::Flashing), FlashStatus::Flashing);
    assert_eq!(next_flash_status(FlashStatus::Wait, &Signal::FlashFail), FlashStatus::Wait);
    assert_eq!(next_flash_status(FlashStatus::Flashing, &Signal::FlashFail), FlashStatus::Failed);
    assert_eq!(next_flash_status(FlashStatus::Flashing, &Signal::FlashSuccess), FlashStatus::Finished);
    assert_eq!(next_flash_status(FlashStatus::Finished, &Signal::Flashing), FlashStatus::Finished);
    assert_eq!(next_flash_status(FlashStatus::Failed, &Signal::Flashing), FlashStatus::Failed);
    assert_eq!(flash_worker_done(FlashStatus::Flashing), FlashStatus::Finished);
    assert_eq!(flash_worker_done(FlashStatus::Failed), FlashStatus::Failed);
}

fn stages() -> Vec<String> {
    vec!["one\n".to_string(), "two\n".to_string(), "three\n".to_string()]
}

#[test]
fn failed_stage_aborts_pipeline() {
    let mut p = Pipeline::new(stages());
    let mut log: Vec<Signal> = Vec::new();
    log.push(p.start_next().unwrap());
    p.stage_succeeded();
    log.push(p.start_next().unwrap());
    log.push(p.stage_failed("exit status 2").unwrap());
    for _ in 0..3 {
        if let Some(s) = p.start_next() {
            log.push(s);
        }
        p.stage_succeeded();
        if let Some(s) = p.stage_failed("again") {
            log.push(s);
        }
    }
    assert_eq!(p.state, PipelineState::Aborted);
    assert!(p.is_finished());
    let failures: Vec<&Signal> = log
        .iter()
        .filter(|s| matches!(s, Signal::Message(m) if m.starts_with("Stage failed")))
        .collect();
    assert_eq!(failures.len(), 1);
    assert_eq!(
        *failures[0],
        Signal::Message("Stage failed: two\n (exit status 2)\n".to_string())
    );
    assert!(!log.contains(&Signal::Message("three\n".to_string())));
    assert_eq!(log.len(), 3);
}

#[test]
fn pipeline_runs_every_stage_in_order() {
    let mut p = Pipeline::new(stages());
    let mut seen = Vec::new();
    while let Some(Signal::Message(m)) = p.start_next() {
        seen.push(m);
        assert!(p.start_next().is_none());
        p.stage_succeeded();
    }
    assert_eq!(seen, stages());
    assert_eq!(p.state, PipelineState::Completed);
    assert!(p.stage_failed("late").is_none());
}

#[test]
fn setup_stage_lines() {
    let s = setup_stages();
    assert_eq!(s.len(), 7);
    assert_eq!(s[0], "[1/7] Download Jetson Linux...\n");
    assert_eq!(s[6], "[7/7] Generating massflash package for release environment...\n");
    assert_eq!(patching_line(DtbTarget::XavierNx), "Patchingtegra194-p3668-0001-p3509-0000.dtb\n");
}

#[test]
fn environment_check_reports_installed() {
    let (tx, rx) = mpsc::channel();
    assert!(!check_env(&tx, true, false));
    assert!(rx.try_recv().is_err());
    assert!(check_env(&tx, true, true));
    assert_eq!(rx.try_recv().ok(), Some(Signal::EnvironmentInstalled));
    assert_eq!(workspace_present("0\n"), Some(false));
    assert_eq!(workspace_present(" 1 "), Some(true));
    assert_eq!(workspace_present("2\n"), None);
    assert_eq!(workspace_present("00"), Some(false));
    assert_eq!(workspace_present("01\n"), Some(true));
    assert_eq!(workspace_present("+1"), Some(true));
    assert_eq!(workspace_present("+"), None);
    assert_eq!(workspace_present("10"), None);
    assert_eq!(workspace_present("1a"), None);
    assert_eq!(workspace_present(""), None);
}

#[test]
fn discovery_line_gives_instance() {
    assert_eq!(
        instance_from_listing("/sys/bus/usb/devices/1-2/idVendor:0955"),
        Some("1-2".to_string())
    );
    assert_eq!(
        instance_from_listing("/sys/bus/usb/devices/3-1.4.2/idVendor:0955"),
        Some("3-1.4.2".to_string())
    );
    assert_eq!(instance_from_listing("/sys/bus/usb/devices/usb1/idVendor:1d6b"), None);
    assert_eq!(sysfs_field_path("1-2", "busnum"), "/sys/bus/usb/devices/1-2/busnum");
}

#[test]
fn descriptor_fields_are_trimmed_and_checked() {
    let d = descriptor_from_fields("1-2".to_string(), "1\n", " 12\n", "7323\n").unwrap();
    assert_eq!(d.bus, "1");
    assert_eq!(d.dev, "12");
    assert_eq!(d.product, "7323");
    assert_eq!(d.vendor, "0955");
    assert_eq!(d.instance, "1-2");
    assert!(descriptor_from_fields("1-2".to_string(), "x\n", "12", "7323").is_none());
    assert!(descriptor_from_fields("1-2".to_string(), "1", "", "7323").is_none());
    assert!(descriptor_from_fields("1-2".to_string(), "1", "2", " \n").is_none());
    assert_eq!(trim_text("\t a b \r\n"), "a b");
    assert_eq!(trim_text("   "), "");
}
