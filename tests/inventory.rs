use jetson_flasher::app::{App, DeviceDescriptor};
use jetson_flasher::jetson::{FlashStatus, Jetson, JetsonModuleType, Signal};
use jetson_flasher::logger::Logger;
use jetson_flasher::provision::EnterOutcome;
use jetson_flasher::status::InstallStatus;
use jetson_flasher::ui_selection::{UISelection, UISelectionModel};

fn desc(instance: &str, product: &str) -> DeviceDescriptor {
    DeviceDescriptor {
        bus: "1".to_string(),
        dev: "7".to_string(),
        vendor: "0955".to_string(),
        product: product.to_string(),
        instance: instance.to_string(),
    }
}

#[test]
fn module_type_table() {
    assert_eq!(Jetson::new("1", "2", "0955", "7323", "1-1").module_type, JetsonModuleType::OrinNX16GB);
    assert_eq!(Jetson::new("1", "2", "0955", "7423", "1-1").module_type, JetsonModuleType::OrinNX8GB);
    assert_eq!(Jetson::new("1", "2", "0955", "7e19", "1-1").module_type, JetsonModuleType::XavierNX);
    assert_eq!(Jetson::new("1", "2", "0955", "7523", "1-1").module_type, JetsonModuleType::OrinNano8GB);
    assert_eq!(Jetson::new("1", "2", "0955", "7623", "1-1").module_type, JetsonModuleType::OrinNano4GB);
    assert_eq!(Jetson::new("1", "2", "0955", "7019", "1-1").module_type, JetsonModuleType::Unknown);
    assert_eq!(Jetson::new("1", "2", "0955", "abcd", "1-1").module_type, JetsonModuleType::Unrecognized);
    assert_eq!(Jetson::new("1", "2", "0955", "7e19", "1-1").module_name, "Jetson Xavier NX");
    assert_eq!(Jetson::new("1", "2", "0955", "7223", "1-1").module_name, "Unknown USB Device");
}

#[test]
fn device_line_text() {
    let j = Jetson::new("3", "12", "0955", "7323", "3-1.2");
    assert_eq!(j.to_string(), "Jetson Orin NX 16GB (Bus 3 Device 12: ID 0955:7323)");
    assert_eq!(j.status, FlashStatus::Wait);
    assert_eq!(j.logger.as_ref().unwrap().name, "Jetson Orin NX 16GB");
}

#[test]
fn device_status_setters() {
    let mut j = Jetson::new("1", "2", "0955", "7323", "1-2");
    j.set_flashing();
    assert!(j.is_flashing() && !j.is_flashed());
    j.set_flashed();
    assert!(j.is_flashed() && !j.is_flashing());
    j.reset_flashing();
    assert_eq!(j.status, FlashStatus::Failed);
    j.reset_flashed();
    assert_eq!(j.status, FlashStatus::Wait);
}

#[test]
fn device_log_through_publisher() {
    let mut j = Jetson::new("1", "2", "0955", "7323", "1-2");
    let tx = j.create_new_publisher();
    tx.send("first\n".to_string()).unwrap();
    tx.send("second\n".to_string()).unwrap();
    assert_eq!(j.get_logger_output(), "first\nsecond\n");
    j.clear_logger_buffer();
    assert_eq!(j.get_logger_output(), "");
    j.open_logger("other");
    assert_eq!(j.logger.as_ref().unwrap().name, "other");
    j.close_logger();
    assert!(!j.logger.as_ref().unwrap().opened);
}

#[test]
fn log_keeps_most_recent_sixty() {
    let mut l = Logger::new("t");
    l.init();
    let tx = l.create_new_publisher();
    for i in 0..75 {
        tx.send(format!("line {}\n", i)).unwrap();
    }
    let out = l.output().to_string();
    assert_eq!(out.lines().count(), 60);
    assert_eq!(out.lines().next(), Some("line 15"));
    assert_eq!(out.lines().last(), Some("line 74"));
    let again = l.output().to_string();
    assert_eq!(out, again);
    l.append("extra\n".to_string());
    let third = l.output().to_string();
    assert_eq!(third.lines().count(), 60);
    assert_eq!(third.lines().next(), Some("line 16"));
    assert_eq!(third.lines().last(), Some("extra"));
}

#[test]
fn log_under_capacity_keeps_all() {
    let mut l = Logger::new("t");
    l.init();
    l.absorb(vec!["a\n".to_string(), "b\n".to_string()]);
    assert_eq!(l.output(), "a\nb\n");
    l.clear();
    assert_eq!(l.output(), "");
    l.open();
    assert!(l.opened);
    l.close();
    assert!(!l.opened);
    let tx = l.create_new_publisher();
    Logger::kill_tx(tx);
}

#[test]
fn refresh_retains_busy_device_and_refreshes_idle() {
    let mut app = App::new();
    app.refresh_devlist(vec![desc("1-2", "7323"), desc("1-3", "7423")]);
    assert_eq!(app.devlist.len(), 2);
    app.devlist[0].set_flashing();
    let x_tx = app.devlist[0].create_new_publisher();
    app.refresh_devlist(vec![desc("1-3", "7423")]);
    assert_eq!(app.devlist.len(), 2);
    assert_eq!(app.devlist[0].instance_number, "1-2");
    assert_eq!(app.devlist[0].status, FlashStatus::Flashing);
    assert_eq!(app.devlist[1].instance_number, "1-3");
    assert_eq!(app.devlist[1].status, FlashStatus::Wait);
    x_tx.send("still here\n".to_string()).unwrap();
    assert_eq!(app.devlist[0].get_logger_output(), "still here\n");
}

#[test]
fn refresh_keeps_finished_drops_failed_and_unrecognized() {
    let mut app = App::new();
    app.refresh_devlist(vec![desc("1-1", "7323"), desc("1-2", "7e19"), desc("1-3", "7019")]);
    assert_eq!(app.devlist.len(), 3);
    app.devlist[1].set_flashed();
    app.devlist[2].reset_flashing();
    app.refresh_devlist(vec![desc("1-4", "ffff"), desc("1-5", "7623")]);
    assert_eq!(app.devlist.len(), 2);
    assert_eq!(app.devlist[0].instance_number, "1-2");
    assert_eq!(app.devlist[1].instance_number, "1-5");
}

#[test]
fn refresh_selects_first_device_when_nothing_selected() {
    let mut app = App::new();
    app.refresh_devlist(vec![]);
    assert_eq!(app.selected_device_index(), None);
    app.refresh_devlist(vec![desc("1-1", "7323"), desc("1-2", "7423")]);
    assert_eq!(app.selected_device_index(), Some(0));
    app.change_current(UISelection::DeviceList(Some(1)));
    app.refresh_devlist(vec![desc("1-1", "7323"), desc("1-2", "7423")]);
    assert_eq!(app.selected_device_index(), Some(1));
    app.refresh_devlist(vec![desc("1-1", "7323")]);
    assert_eq!(app.selected_device_index(), Some(0));
    app.refresh_devlist(vec![]);
    assert_eq!(app.selected_device_index(), None);
}

#[test]
fn selection_wraps_both_ways() {
    let mut app = App::new();
    app.refresh_devlist(vec![desc("1-1", "7323"), desc("1-2", "7423"), desc("1-3", "7523")]);
    assert_eq!(app.previous_device(), Some(2));
    assert_eq!(app.next_device(), Some(0));
    assert_eq!(app.next_device(), Some(1));
    assert_eq!(app.previous_device(), Some(0));
    app.select(UISelectionModel { focused: UISelection::Main, current: UISelection::FlashTerminal });
    assert_eq!(app.next_device(), None);
    app.change_focused(UISelection::Quit);
    assert_eq!(app.selection.focused, UISelection::Quit);
}

#[test]
fn lookup_by_instance_and_listing() {
    let mut app = App::new();
    app.refresh_devlist(vec![desc("1-1", "7323"), desc("1-2", "7423")]);
    app.get_device_from_instance_number("1-2").unwrap().set_flashed();
    assert!(app.devlist[1].is_flashed());
    assert!(app.get_device_from_instance_number("9-9").is_none());
    let rows = app.list();
    assert_eq!(rows.len(), 2);
    assert_eq!(rows[0], ("Jetson Orin NX 16GB (Bus 1 Device 7: ID 0955:7323)".to_string(), true));
    assert!(!rows[1].1);
    assert!(!app.has_flashing_device());
    app.devlist[0].set_flashing();
    assert!(app.has_flashing_device());
}

#[test]
fn clear_devlist_keeps_order_of_busy_devices() {
    let mut app = App::new();
    app.refresh_devlist(vec![desc("1-1", "7323"), desc("1-2", "7423"), desc("1-3", "7523")]);
    app.devlist[0].set_flashed();
    app.devlist[2].set_flashing();
    app.clear_devlist();
    assert_eq!(app.devlist.len(), 2);
    assert_eq!(app.devlist[0].instance_number, "1-1");
    assert_eq!(app.devlist[1].instance_number, "1-3");
}

#[test]
fn signals_drive_status_and_main_log() {
    let mut app = App::new();
    app.main_terminal.init();
    let tx = app.create_new_publisher();
    tx.send(Signal::Message("hello\n".to_string())).unwrap();
    tx.send(Signal::EnvironmentInstalling(42)).unwrap();
    app.drain_signals();
    assert_eq!(app.install_status, InstallStatus::Installing(42));
    assert_eq!(app.main_terminal.output(), "hello\n");
    tx.send(Signal::EnvironmentInstalled).unwrap();
    tx.send(Signal::EnvironmentInstalling(50)).unwrap();
    app.drain_signals();
    assert_eq!(app.install_status, InstallStatus::Installed);
    app.handle_signal(Signal::Flashing);
    assert_eq!(app.flash_status, FlashStatus::Flashing);
    app.handle_signal(Signal::FlashFail);
    assert_eq!(app.flash_status, FlashStatus::Failed);
}

#[test]
fn flash_run_start_and_finish() {
    let mut app = App::new();
    app.main_terminal.init();
    app.refresh_devlist(vec![desc("1-1", "7323"), desc("1-2", "7e19")]);
    assert_eq!(app.flash_device(true), Some("./test/Linux_for_Tegra"));
    assert_eq!(app.flash_status, FlashStatus::Flashing);
    assert!(app.devlist[0].is_flashing());
    assert_eq!(app.flash_device(false), None);
    assert_eq!(app.enter_device_list(), EnterOutcome::Refused);
    app.flash_worker_finished(true);
    assert_eq!(app.flash_status, FlashStatus::Finished);
    assert!(app.devlist[0].is_flashed());
    assert!(!app.devlist[1].is_flashed());
    assert_eq!(app.main_terminal.output(), "Flashing in progress.\nFlashing complete\n");
    app.change_current(UISelection::DeviceList(Some(1)));
    assert_eq!(app.flash_device(false), None);
    assert_eq!(app.enter_device_list(), EnterOutcome::Refused);
    assert!(app.main_terminal.output().ends_with("Please restart program.\n"));
}

#[test]
fn enter_opens_mode_select_when_idle() {
    let mut app = App::new();
    app.main_terminal.init();
    app.refresh_devlist(vec![desc("1-1", "7323")]);
    assert_eq!(app.enter_device_list(), EnterOutcome::SelectMode);
    assert_eq!(app.index, 1);
    app.index = 0;
    app.handle_signal(Signal::EnvironmentInstalling(1));
    assert_eq!(app.enter_device_list(), EnterOutcome::Refused);
    assert_eq!(app.main_terminal.output(), "Please wait for environment setup finished.\n");
    assert_eq!(app.index, 0);
    assert!(!app.may_start_setup(false, false));
}

#[test]
fn setup_may_start_only_when_nothing_installed() {
    let app = App::new();
    assert!(app.may_start_setup(false, false));
    assert!(!app.may_start_setup(true, false));
    assert!(!app.may_start_setup(false, true));
}

#[test]
fn failed_flash_run_marks_device_failed() {
    let mut app = App::new();
    app.main_terminal.init();
    app.refresh_devlist(vec![desc("1-1", "7323")]);
    assert_eq!(app.flash_device(false), Some("./release/Linux_for_Tegra"));
    app.flash_worker_finished(false);
    assert_eq!(app.flash_status, FlashStatus::Failed);
    assert_eq!(app.devlist[0].status, FlashStatus::Failed);
    assert_eq!(app.main_terminal.output(), "Flashing failed\n");
    app.refresh_devlist(vec![]);
    assert!(app.devlist.is_empty());
}

#[test]
fn empty_refresh_keeps_selection_off_the_list() {
    let mut app = App::new();
    app.change_current(UISelection::Main);
    app.refresh_devlist(vec![]);
    assert_eq!(app.selection.current, UISelection::Main);
    app.refresh_devlist(vec![desc("1-1", "7323")]);
    assert_eq!(app.selected_device_index(), Some(0));
}

#[test]
fn unknown_family_codes_are_listed_by_policy() {
    let mut app = App::new();
    app.refresh_devlist(vec![desc("1-1", "7023"), desc("1-2", "0000")]);
    assert_eq!(jetson_flasher::app::LIST_UNKNOWN_MODULES, true);
    assert_eq!(app.devlist.len(), 1);
    assert_eq!(app.devlist[0].module_type, JetsonModuleType::Unknown);
    assert_eq!(app.devlist[0].module_name, "Unknown USB Device");
    assert!(app.devlist[0].ip_v4.is_none());
}

#[test]
fn clear_keeps_lines_still_queued() {
    let mut l = Logger::new("t");
    l.init();
    let tx = l.create_new_publisher();
    tx.send("old\n".to_string()).unwrap();
    assert_eq!(l.output(), "old\n");
    tx.send("queued\n".to_string()).unwrap();
    l.clear();
    assert_eq!(l.output(), "queued\n");
}

#[test]
fn apply_signals_in_order() {
    let mut app = App::new();
    app.main_terminal.init();
    app.apply_signals(vec![
        Signal::Message("a\n".to_string()),
        Signal::Flashing,
        Signal::EnvironmentInstalling(7),
        Signal::Message("b\n".to_string()),
        Signal::FlashSuccess,
    ]);
    assert_eq!(app.install_status, InstallStatus::Installing(7));
    assert_eq!(app.flash_status, FlashStatus::Finished);
    assert_eq!(app.main_terminal.output(), "a\nb\n");
}

#[test]
fn device_log_reopen_is_empty_and_closed() {
    let mut j = Jetson::new("1", "2", "0955", "7323", "1-2");
    let tx = j.create_new_publisher();
    tx.send("x\n".to_string()).unwrap();
    j.open_logger("fresh");
    let l = j.logger.as_ref().unwrap();
    assert_eq!(l.scroll, 0);
    assert!(!l.opened);
    assert_eq!(j.get_logger_output(), "");
    assert_eq!(j.bus, "1");
}
