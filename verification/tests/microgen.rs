use microhop::config::{DiskConfig, MhConfig};
use microhop::gui::{
    fdt_readable_through, find_simpledrm_framebuffer, framebuffer_for, init_and_render_gui, is_simpledrm_compatible,
};
use microhop::microgen::{
    check_profile, choose_kernel, classify_device, is_valid_log_level, kconfig_verdict,
    needs_kernel_info, DeviceFormat, KConfigVerdict, KernelChoiceError, ProfileCheck,
};

fn s(x: &str) -> String {
    x.to_string()
}

fn config(disks: Result<Vec<&str>, &str>, log: Option<&str>) -> MhConfig {
    MhConfig {
        modules: Vec::new(),
        disks: disks
            .map(|v| {
                v.into_iter()
                    .map(|d| DiskConfig { device: s(d), fstype: s("ext4"), mountpoint: s("/"), mode: s("rw") })
                    .collect()
            })
            .map_err(s),
        overlayfs: None,
        init: s("/sbin/init"),
        sysroot: s("/sysroot"),
        log: log.map(s),
        mask_cmdline: Vec::new(),
        firmware: None,
        firmware_base: s("/lib/firmware"),
    }
}

#[test]
fn device_formats() {
    assert_eq!(classify_device("uuid=0a1b"), DeviceFormat::Preferred);
    assert_eq!(classify_device("label=root"), DeviceFormat::Preferred);
    assert_eq!(classify_device("/dev/sda1"), DeviceFormat::Legacy);
    assert_eq!(classify_device("0a1b2c3d-4e5f-6789-abcd-ef0123456789"), DeviceFormat::PlainUuid);
    assert_eq!(classify_device("----xxxxxxxxxxxxxxxxxxxxxxxxxxxxxxxx"), DeviceFormat::PlainUuid);
    assert_eq!(classify_device("0a1b2c3d-4e5f-6789-abcd-ef012345678"), DeviceFormat::Unknown);
    assert_eq!(classify_device("UUID=0a1b"), DeviceFormat::Unknown);
    assert_eq!(classify_device("rootfs"), DeviceFormat::Unknown);
}

#[test]
fn device_format_counts_bytes() {
    // 35 characters, one of them two bytes long: 36 bytes.
    let d = "\u{e9}a1b2c3d-4e5f-6789-abcd-ef012345678";
    assert_eq!(d.len(), 36);
    assert_eq!(classify_device(d), DeviceFormat::PlainUuid);
}

#[test]
fn log_levels() {
    assert!(is_valid_log_level("debug"));
    assert!(is_valid_log_level("info"));
    assert!(is_valid_log_level("quiet"));
    assert!(!is_valid_log_level("verbose"));
    assert!(!is_valid_log_level("DEBUG"));
    assert!(!is_valid_log_level(""));
}

#[test]
fn profile_checks() {
    assert_eq!(
        check_profile(&config(Ok(vec!["uuid=1", "label=x"]), Some("debug"))),
        ProfileCheck { has_errors: false, has_warnings: false }
    );
    assert_eq!(
        check_profile(&config(Ok(vec!["uuid=1", "/dev/sda1"]), None)),
        ProfileCheck { has_errors: false, has_warnings: true }
    );
    assert_eq!(
        check_profile(&config(Ok(vec![]), None)),
        ProfileCheck { has_errors: false, has_warnings: true }
    );
    assert_eq!(
        check_profile(&config(Ok(vec!["uuid=1"]), Some("loud"))),
        ProfileCheck { has_errors: false, has_warnings: true }
    );
    assert_eq!(
        check_profile(&config(Err("bad disks"), None)),
        ProfileCheck { has_errors: true, has_warnings: false }
    );
    assert_eq!(
        check_profile(&config(Err("bad disks"), Some("loud"))),
        ProfileCheck { has_errors: true, has_warnings: true }
    );
}

#[test]
fn kernel_choice() {
    assert_eq!(choose_kernel(Vec::<u32>::new()), Ok(None));
    assert_eq!(choose_kernel(vec![7u32]), Ok(Some(7)));
    assert_eq!(choose_kernel(vec![1u32, 2]), Err(KernelChoiceError::Ambiguous));
}

#[test]
fn kconfig_verdicts() {
    assert_eq!(kconfig_verdict(true, true, false), KConfigVerdict::ValidationFailed);
    assert_eq!(kconfig_verdict(true, false, true), KConfigVerdict::Stop);
    assert_eq!(kconfig_verdict(false, true, true), KConfigVerdict::Incompatible);
    assert_eq!(kconfig_verdict(false, false, true), KConfigVerdict::Generate(true));
    assert_eq!(kconfig_verdict(false, false, false), KConfigVerdict::Generate(false));
}

#[test]
fn kernel_info_needed() {
    assert!(needs_kernel_info(true, false, None));
    assert!(needs_kernel_info(false, true, None));
    assert!(needs_kernel_info(false, true, Some(2)));
    assert!(!needs_kernel_info(false, true, Some(0)));
    assert!(!needs_kernel_info(false, false, Some(3)));
}

#[test]
fn simpledrm_compatibles() {
    assert!(is_simpledrm_compatible("simple-framebuffer"));
    assert!(is_simpledrm_compatible("vendor,simpledrm-x"));
    assert!(!is_simpledrm_compatible("arm,pl011"));
    assert_eq!(framebuffer_for(&Some(s("simple-framebuffer"))), Some(s("/dev/dri/card0")));
    assert_eq!(framebuffer_for(&Some(s("arm,pl011"))), None);
    assert_eq!(framebuffer_for(&None), None);
}

#[test]
fn framebuffer_from_unreadable_blob() {
    assert_eq!(find_simpledrm_framebuffer(&[]), None);
    assert_eq!(find_simpledrm_framebuffer(&[0u8; 64]), None);
    init_and_render_gui();
}

fn be(v: &mut Vec<u8>, x: u32) {
    v.extend_from_slice(&x.to_be_bytes());
}

fn pad(v: &mut Vec<u8>) {
    while v.len() % 4 != 0 {
        v.push(0);
    }
}

/// An `FDT_BEGIN_NODE` token with its name.
fn begin_node(v: &mut Vec<u8>, name: &[u8]) {
    be(v, 1);
    v.extend_from_slice(name);
    v.push(0);
    pad(v);
}

/// An `FDT_PROP` token named at `name_offset` in the strings block.
fn property(v: &mut Vec<u8>, name_offset: u32, value: &[u8]) {
    be(v, 3);
    be(v, value.len() as u32);
    be(v, name_offset);
    v.extend_from_slice(value);
    pad(v);
}

/// The `compatible` value `compat` as the blob holds it, with its NUL.
fn compat_value(compat: &str) -> Vec<u8> {
    let mut value = compat.as_bytes().to_vec();
    value.push(0);
    value
}

/// A blob with a 40-byte header, a 16-byte memory reservation map, then the
/// structure block (at 56) and the strings block.
fn blob(structure: &[u8], strings: &[u8]) -> Vec<u8> {
    let off_struct = 56u32;
    let off_strings = off_struct + structure.len() as u32;
    let total = off_strings + strings.len() as u32;
    let mut b = Vec::new();
    be(&mut b, 0xd00dfeed);
    be(&mut b, total);
    be(&mut b, off_struct);
    be(&mut b, off_strings);
    be(&mut b, 40);
    be(&mut b, 17);
    be(&mut b, 16);
    be(&mut b, 0);
    be(&mut b, strings.len() as u32);
    be(&mut b, structure.len() as u32);
    b.extend_from_slice(&[0u8; 16]);
    b.extend_from_slice(structure);
    b.extend_from_slice(strings);
    b
}

/// A flattened device tree with a root node and one child node whose
/// `compatible` property is `compat`.
fn device_tree(compat: &str) -> Vec<u8> {
    let mut structure = Vec::new();
    begin_node(&mut structure, b"");
    begin_node(&mut structure, b"framebuffer@0");
    property(&mut structure, 0, &compat_value(compat));
    be(&mut structure, 2); // FDT_END_NODE
    be(&mut structure, 2); // FDT_END_NODE
    be(&mut structure, 9); // FDT_END
    blob(&structure, b"compatible\0")
}

#[test]
fn framebuffer_from_device_tree() {
    assert_eq!(find_simpledrm_framebuffer(&device_tree("simple-framebuffer")), Some(s("/dev/dri/card0")));
    assert_eq!(find_simpledrm_framebuffer(&device_tree("arm,pl011")), None);
}

#[test]
fn framebuffer_needs_an_accepted_header() {
    let tree = device_tree("simple-framebuffer");
    // The header claims more bytes than a truncated blob holds.
    assert_eq!(find_simpledrm_framebuffer(&tree[..tree.len() - 1]), None);
    // A wrong magic number.
    let mut bad = tree.clone();
    bad[0] = 0;
    assert_eq!(find_simpledrm_framebuffer(&bad), None);
}

#[test]
fn malformed_structure_blocks_give_none() {
    let tree = device_tree("simple-framebuffer");
    assert!(fdt_readable_through(&tree, 0));
    assert!(fdt_readable_through(&tree, 1));
    // Structure block starts at 56: root BEGIN_NODE at 56, its name at 60,
    // the child's BEGIN_NODE at 64. An unknown token there ends the walk
    // quietly after the root.
    let mut bad_tag = tree.clone();
    bad_tag[67] = 7;
    assert!(fdt_readable_through(&bad_tag, 1));
    assert_eq!(find_simpledrm_framebuffer(&bad_tag), None);
    // A NOP token in place of the child's BEGIN_NODE: the child's name then
    // stands where a token should, and the walk ends.
    let mut nop = tree.clone();
    nop[67] = 4;
    assert_eq!(find_simpledrm_framebuffer(&nop), None);
    // A property name offset outside the strings block: the crate would panic
    // on the child.
    let mut far_name = tree.clone();
    let prop = 56 + 12 + 16;
    far_name[prop + 11] = 200;
    assert!(fdt_readable_through(&far_name, 0));
    assert!(!fdt_readable_through(&far_name, 1));
    assert_eq!(find_simpledrm_framebuffer(&far_name), None);
    // A structure block reaching past the blob.
    let mut long_block = tree.clone();
    long_block[38] = 0x10;
    assert!(!fdt_readable_through(&long_block, 0));
    assert_eq!(find_simpledrm_framebuffer(&long_block), None);
}

#[test]
fn nop_tokens_are_skipped() {
    // A root with an empty name, a NOP, then its `compatible` property.
    let mut structure = Vec::new();
    begin_node(&mut structure, b"");
    be(&mut structure, 4); // FDT_NOP
    property(&mut structure, 0, &compat_value("simple-framebuffer"));
    be(&mut structure, 2);
    be(&mut structure, 9);
    assert_eq!(find_simpledrm_framebuffer(&blob(&structure, b"compatible\0")), Some(s("/dev/dri/card0")));
    // NOPs between properties and between nodes.
    let mut structure = Vec::new();
    begin_node(&mut structure, b"");
    be(&mut structure, 4);
    begin_node(&mut structure, b"fb");
    property(&mut structure, 11, b"x\0");
    be(&mut structure, 4);
    property(&mut structure, 0, &compat_value("vendor,simpledrm"));
    be(&mut structure, 2);
    be(&mut structure, 2);
    be(&mut structure, 5); // the crate's FDT_END
    assert_eq!(
        find_simpledrm_framebuffer(&blob(&structure, b"compatible\0model\0")),
        Some(s("/dev/dri/card0"))
    );
}

#[test]
fn tree_without_end_token() {
    let mut structure = Vec::new();
    begin_node(&mut structure, b"");
    property(&mut structure, 0, &compat_value("simple-framebuffer"));
    be(&mut structure, 2);
    let tree = blob(&structure, b"compatible\0");
    assert!(fdt_readable_through(&tree, 5));
    assert_eq!(find_simpledrm_framebuffer(&tree), Some(s("/dev/dri/card0")));
}

#[test]
fn node_names_are_utf8() {
    let mut structure = Vec::new();
    begin_node(&mut structure, b"");
    begin_node(&mut structure, "écran@0".as_bytes());
    property(&mut structure, 0, &compat_value("simple-framebuffer"));
    be(&mut structure, 2);
    be(&mut structure, 2);
    be(&mut structure, 9);
    assert_eq!(find_simpledrm_framebuffer(&blob(&structure, b"compatible\0")), Some(s("/dev/dri/card0")));
    // A name that is not UTF-8: the crate would panic on it.
    let mut structure = Vec::new();
    begin_node(&mut structure, b"");
    begin_node(&mut structure, &[0xff, 0xfe]);
    property(&mut structure, 0, &compat_value("simple-framebuffer"));
    be(&mut structure, 2);
    be(&mut structure, 2);
    let tree = blob(&structure, b"compatible\0");
    assert!(fdt_readable_through(&tree, 0));
    assert!(!fdt_readable_through(&tree, 1));
    assert_eq!(find_simpledrm_framebuffer(&tree), None);
}

#[test]
fn end_of_node_with_no_open_node() {
    let mut structure = Vec::new();
    be(&mut structure, 2);
    begin_node(&mut structure, b"");
    property(&mut structure, 0, &compat_value("simple-framebuffer"));
    be(&mut structure, 2);
    let tree = blob(&structure, b"compatible\0");
    assert!(!fdt_readable_through(&tree, 0));
    assert_eq!(find_simpledrm_framebuffer(&tree), None);
}

#[test]
fn search_stops_at_the_first_framebuffer() {
    // The framebuffer node comes first; a later node's name is not UTF-8.
    let mut structure = Vec::new();
    begin_node(&mut structure, b"");
    begin_node(&mut structure, b"fb");
    property(&mut structure, 0, &compat_value("simple-framebuffer"));
    be(&mut structure, 2);
    begin_node(&mut structure, &[0xff]);
    be(&mut structure, 2);
    be(&mut structure, 2);
    let tree = blob(&structure, b"compatible\0");
    assert!(fdt_readable_through(&tree, 1));
    assert!(!fdt_readable_through(&tree, 2));
    assert_eq!(find_simpledrm_framebuffer(&tree), Some(s("/dev/dri/card0")));
}

#[test]
fn nodes_nest_at_most_sixty_three_deep() {
    // Sixty-four nested nodes; `compat_at` picks the one with the framebuffer.
    let nested = |compat_at: usize| {
        let mut structure = Vec::new();
        for i in 0..64 {
            begin_node(&mut structure, b"n");
            if i == compat_at {
                property(&mut structure, 0, &compat_value("simple-framebuffer"));
            }
        }
        for _ in 0..64 {
            be(&mut structure, 2);
        }
        blob(&structure, b"compatible\0")
    };
    assert!(fdt_readable_through(&nested(0), 62));
    assert!(!fdt_readable_through(&nested(0), 63));
    assert_eq!(find_simpledrm_framebuffer(&nested(0)), Some(s("/dev/dri/card0")));
    assert_eq!(find_simpledrm_framebuffer(&nested(62)), Some(s("/dev/dri/card0")));
    assert_eq!(find_simpledrm_framebuffer(&nested(63)), None);
}

#[test]
fn framebuffer_value_with_trailing_text() {
    assert_eq!(find_simpledrm_framebuffer(&device_tree("vendor,simpledrm")), Some(s("/dev/dri/card0")));
    assert_eq!(find_simpledrm_framebuffer(&device_tree("")), None);
}
