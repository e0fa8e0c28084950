use microhop::cmdline::CmdLine;

fn strings(v: &[&str]) -> Vec<String> {
    v.iter().map(|x| x.to_string()).collect()
}

#[test]
fn cmdline_root_parameters() {
    let c = CmdLine::new("console=ttyS0 root=/dev/vda1 rootfstype=ext4 rootflags=noatime,ro quiet\n");
    assert_eq!(c.get_root_device(), Some("/dev/vda1"));
    assert_eq!(c.get_root_fstype(), Some("ext4"));
    assert_eq!(c.get_root_options(), Some("noatime,ro"));
}

#[test]
fn cmdline_missing_parameters() {
    let c = CmdLine::new("quiet splash");
    assert_eq!(c.get_root_device(), None);
    assert_eq!(c.get_root_fstype(), None);
    assert_eq!(c.get_root_options(), None);
}

#[test]
fn cmdline_empty() {
    let c = CmdLine::new("");
    assert_eq!(c.get_root_device(), None);
}

#[test]
fn cmdline_flag_without_value_is_empty() {
    let c = CmdLine::new("root rootfstype=");
    assert_eq!(c.get_root_device(), Some(""));
    assert_eq!(c.get_root_fstype(), Some(""));
}

#[test]
fn cmdline_splits_at_first_equals() {
    let c = CmdLine::new("root=UUID=1234-abcd");
    assert_eq!(c.get_root_device(), Some("UUID=1234-abcd"));
}

#[test]
fn cmdline_last_parameter_wins() {
    let c = CmdLine::new("root=/dev/sda1 root=/dev/sdb2");
    assert_eq!(c.get_root_device(), Some("/dev/sdb2"));
}

#[test]
fn cmdline_whitespace_of_all_kinds() {
    let c = CmdLine::new("\troot=/dev/sda1\t\trootfstype=xfs\r\n");
    assert_eq!(c.get_root_device(), Some("/dev/sda1"));
    assert_eq!(c.get_root_fstype(), Some("xfs"));
}

#[test]
fn cmdline_masked_keys_absent() {
    let mask = strings(&["root", "rootflags"]);
    let c = CmdLine::new_with_mask("root=/dev/sda1 rootfstype=btrfs rootflags=ro root", &mask);
    assert_eq!(c.get_root_device(), None);
    assert_eq!(c.get_root_fstype(), Some("btrfs"));
    assert_eq!(c.get_root_options(), None);
}

#[test]
fn cmdline_mask_matches_whole_key() {
    let mask = strings(&["roo"]);
    let c = CmdLine::new_with_mask("root=/dev/sda1", &mask);
    assert_eq!(c.get_root_device(), Some("/dev/sda1"));
}
