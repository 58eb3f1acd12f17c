use rad::merge::{atomic_tmp_path, tmp_extension};

#[test]
fn temporary_extension() {
    assert_eq!(tmp_extension(&Some("so".to_string())), "so.rad_new");
    assert_eq!(tmp_extension(&None), ".rad_new");
}

#[test]
fn temporary_paths() {
    assert_eq!(atomic_tmp_path("/usr/lib/libz.so"), "/usr/lib/libz.so.rad_new");
    assert_eq!(atomic_tmp_path("/usr/lib/libz.so.1"), "/usr/lib/libz.so.1.rad_new");
    assert_eq!(atomic_tmp_path("/usr/bin/make"), "/usr/bin/make..rad_new");
    assert_eq!(atomic_tmp_path("/etc/.bashrc"), "/etc/.bashrc..rad_new");
}
