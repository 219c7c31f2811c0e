use std::collections::{HashMap, HashSet};

use pam_linuxcampam::hardware_manager::{HardwareId, HardwareManager, SysfsAccess, SysfsAnswer, SysfsStep};

/// A sysfs tree held in memory: writable files, directories and links.
#[derive(Default)]
struct MockSysfs {
    files: HashMap<String, String>,
    dirs: HashMap<String, Vec<String>>,
    links: HashMap<String, String>,
    writable: HashSet<String>,
}

impl SysfsAccess for MockSysfs {
    fn write_value(&mut self, path: &str, value: &str) -> bool {
        if self.writable.contains(path) {
            self.files.insert(path.to_string(), value.to_string());
            true
        } else {
            false
        }
    }

    fn list_dir(&self, path: &str) -> Option<Vec<String>> {
        self.dirs.get(path).cloned()
    }

    fn link_target_name(&self, path: &str) -> Option<String> {
        self.links.get(path).cloned()
    }
}

const SYS_I2C: &str = "/tmp/sys/bus/i2c/devices";
const SYS_HID: &str = "/tmp/sys/bus/hid/devices";
const DEV: &str = "/tmp/dev";

fn sensor_tree() -> MockSysfs {
    let mut fs = MockSysfs::default();
    fs.writable
        .insert(format!("{SYS_I2C}/test_addr/power/wakeup"));
    fs.dirs.insert(
        format!("{SYS_I2C}/test_addr"),
        vec!["power".to_string(), "0018:ABCD:1234.0001".to_string()],
    );
    fs
}

#[test]
fn constructor_and_destructor() {
    let hm = HardwareManager::new("test_addr", SYS_I2C, SYS_HID, DEV);
    assert_eq!(hm.hid_id(), "");
}

#[test]
fn seize_sensor_fails_if_path_missing() {
    let mut fs = MockSysfs::default();
    let mut hm = HardwareManager::new("missing_addr", SYS_I2C, SYS_HID, DEV);
    assert!(!hm.seize_sensor(&mut fs));
}

#[test]
fn seize_sensor_succeeds_with_mock_dirs() {
    let mut fs = sensor_tree();
    let mut hm = HardwareManager::new("test_addr", SYS_I2C, SYS_HID, DEV);
    assert!(hm.seize_sensor(&mut fs));
    assert_eq!(hm.hid_id(), "0018:ABCD:1234.0001");
    assert_eq!(
        fs.files.get(&format!("{SYS_I2C}/test_addr/power/wakeup")).map(String::as_str),
        Some("disabled")
    );
}

#[test]
fn seize_then_release_restores_wakeup() {
    let mut fs = sensor_tree();
    fs.links.insert(
        format!("{SYS_HID}/0018:ABCD:1234.0001/driver"),
        "i2c_hid_acpi".to_string(),
    );
    let mut hm = HardwareManager::new("test_addr", SYS_I2C, SYS_HID, DEV);
    assert!(hm.seize_sensor(&mut fs));
    assert_eq!(hm.previous_hid_driver(), "i2c_hid_acpi");
    hm.release_sensor(&mut fs);
    assert_eq!(
        fs.files.get(&format!("{SYS_I2C}/test_addr/power/wakeup")).map(String::as_str),
        Some("enabled")
    );
}

#[test]
fn release_without_seize_writes_nothing() {
    let mut fs = sensor_tree();
    let mut hm = HardwareManager::new("test_addr", SYS_I2C, SYS_HID, DEV);
    hm.release_sensor(&mut fs);
    assert!(fs.files.is_empty());
}

#[test]
fn seize_fails_without_hid_device() {
    let mut fs = sensor_tree();
    fs.dirs
        .insert(format!("{SYS_I2C}/test_addr"), vec!["power".to_string()]);
    let mut hm = HardwareManager::new("test_addr", SYS_I2C, SYS_HID, DEV);
    assert!(!hm.seize_sensor(&mut fs));
    assert_eq!(hm.hid_id(), "");
}

#[test]
fn hardware_id_validation() {
    assert!(HardwareId::new("ITE8353").is_ok());
    assert_eq!(HardwareId::new("ITE8353").unwrap().str(), "ITE8353");
    assert!(HardwareId::new("").is_err());
    assert!(HardwareId::new("ITE 8353").is_err());
    assert!(HardwareId::new("../etc").is_err());
    assert!(HardwareId::new(&"A".repeat(33)).is_err());
    assert!(HardwareId::new(&"A".repeat(32)).is_ok());
}

#[test]
fn seize_steps_follow_the_answers() {
    let mut hm = HardwareManager::new("i2c-ABC", "/sys/i2c", "/sys/hid", "/dev");
    assert_eq!(
        hm.seize_first(),
        SysfsStep::Write { path: "/sys/i2c/i2c-ABC/power/wakeup".to_string(), value: "disabled".to_string() }
    );
    assert_eq!(hm.seize_next(SysfsAnswer::Written(false)), SysfsStep::Done(false));
    assert_eq!(
        hm.seize_next(SysfsAnswer::Written(true)),
        SysfsStep::List("/sys/i2c/i2c-ABC".to_string())
    );
    let names = vec!["power".to_string(), "0018:AAAA:0001.0002".to_string(), "0018:B".to_string()];
    assert_eq!(hm.seize_next(SysfsAnswer::Listed(Some(vec!["power".to_string()]))), SysfsStep::Done(false));
    assert_eq!(hm.hid_id(), "");
    assert_eq!(hm.release_write(), None);
    assert_eq!(
        hm.seize_next(SysfsAnswer::Listed(Some(names))),
        SysfsStep::ReadLink("/sys/hid/0018:AAAA:0001.0002/driver".to_string())
    );
    assert_eq!(hm.hid_id(), "0018:AAAA:0001.0002");
    assert_eq!(hm.seize_next(SysfsAnswer::LinkName(Some("hid-sensor-hub".to_string()))), SysfsStep::Done(true));
    assert_eq!(hm.previous_hid_driver(), "hid-sensor-hub");
    assert_eq!(
        hm.release_write(),
        Some(("/sys/i2c/i2c-ABC/power/wakeup".to_string(), "enabled".to_string()))
    );
}
