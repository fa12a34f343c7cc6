use jetson_flasher::devicetree::node::{DtbNode, DtsError};
use jetson_flasher::devicetree::patch::{
    board_edits, patch_device_tree, patch_device_tree_orin_nx_16gb, patch_device_tree_xavier_nx,
    DtbTarget,
};

const SAMPLE: &str = "/dts-v1/;\n\n/ {\n\tcompatible = \"nvidia,p3509-0000+p3668-0001\", \"nvidia,tegra194\";\n\t#address-cells = <0x02>;\n\tsdhci@3440000 {\n\t\tstatus = \"disabled\";\n\t\tnon-removable;\n\t};\n\tcam_i2cmux {\n\t\ti2c@0 {\n\t\t\trbpcv3_imx477_a@1a {\n\t\t\t\tstatus = \"disabled\";\n\t\t\t};\n\t\t};\n\t\ti2c@1 {\n\t\t\trbpcv3_imx477_c@1a {\n\t\t\t\tstatus = \"disabled\";\n\t\t\t};\n\t\t};\n\t};\n};\n";

fn path(parts: &[&str]) -> Vec<String> {
    parts.iter().map(|p| p.to_string()).collect()
}

fn value_of(root: &mut DtbNode, parts: &[&str], prop: &str) -> Option<String> {
    let mut node = root;
    for p in parts {
        node = node.find_childnode(p)?;
    }
    node.find_property(prop).and_then(|p| p.value.clone())
}

#[test]
fn scenario_set_status_then_reparse() {
    let mut root = DtbNode::parse("a { b@1 { status = \"disabled\"; }; };").ok().unwrap();
    let a = root.find_childnode("a").unwrap();
    let b = a.find_childnode("b@1").unwrap();
    let status = b.find_property("status").unwrap();
    status.value = Some("\"okay\"".to_string());
    let text = root.stringify(0);
    let mut again = DtbNode::parse(&text).ok().unwrap();
    assert_eq!(value_of(&mut again, &["a", "b@1"], "status"), Some("\"okay\"".to_string()));
}

#[test]
fn stringify_writes_exact_text() {
    let root = DtbNode::parse("a { b@1 { status = \"disabled\"; }; flag; x = <1 2>; };").ok().unwrap();
    assert_eq!(
        root.stringify(0),
        "a {\n\tflag;\n\tx = <1 2>;\n\tb@1 {\n\t\tstatus = \"disabled\";\n\t};\n};\n"
    );
    assert_eq!(root.stringify(1), "\ta {\n\t\tflag;\n\t\tx = <1 2>;\n\t\tb@1 {\n\t\t\tstatus = \"disabled\";\n\t\t};\n\t};\n");
}

#[test]
fn round_trip_keeps_tree() {
    let first = DtbNode::parse(SAMPLE).ok().unwrap();
    let text1 = first.stringify(0);
    let second = DtbNode::parse(&text1).ok().unwrap();
    let text2 = second.stringify(0);
    assert_eq!(text1, text2);
    assert_eq!(first.children.len(), 1);
    assert_eq!(first.properties.len(), 1);
    assert_eq!(first.properties[0].name, "/dts-v1/");
    assert_eq!(first.properties[0].value, None);
    let top = &second.children[0];
    assert_eq!(top.name, "/");
    assert_eq!(top.properties[0].name, "compatible");
    assert_eq!(
        top.properties[0].value.as_deref(),
        Some("\"nvidia,p3509-0000+p3668-0001\", \"nvidia,tegra194\"")
    );
    assert_eq!(top.children[0].name, "sdhci@3440000");
    assert_eq!(top.children[1].name, "cam_i2cmux");
}

#[test]
fn values_are_trimmed_and_flags_have_none() {
    let root = DtbNode::parse("n {   v   =    <0x1>   ;  f ; };").ok().unwrap();
    let n = &root.children[0];
    assert_eq!(n.properties[0].value.as_deref(), Some("<0x1>"));
    assert_eq!(n.properties[1].value, None);
}

#[test]
fn empty_document_parses_to_empty_root() {
    let root = DtbNode::parse("  \n\t").ok().unwrap();
    assert!(root.children.is_empty());
    assert!(root.properties.is_empty());
    assert_eq!(root.stringify(0), "");
}

#[test]
fn lookup_is_deterministic_and_first_match() {
    let mut root = DtbNode::parse("a { k = <1>; }; a { k = <2>; };").ok().unwrap();
    let first = value_of(&mut root, &["a"], "k");
    let second = value_of(&mut root, &["a"], "k");
    assert_eq!(first, Some("<1>".to_string()));
    assert_eq!(first, second);
}

#[test]
fn lookup_miss_is_none() {
    let mut root = DtbNode::parse("a { k = <1>; };").ok().unwrap();
    assert!(root.find_childnode("b").is_none());
    assert!(root.find_childnode("a").unwrap().find_property("j").is_none());
    assert!(root.find_childnode("a").unwrap().find_childnode("a@0").is_none());
}

#[test]
fn parse_rejects_unterminated_value() {
    assert!(matches!(DtbNode::parse("a { k = <1> };"), Err(DtsError::Parse)));
}

#[test]
fn parse_rejects_stray_close() {
    assert!(matches!(DtbNode::parse("a { };};"), Err(DtsError::Parse)));
}

#[test]
fn parse_rejects_missing_semicolon_after_node() {
    assert!(matches!(DtbNode::parse("a { }"), Err(DtsError::Parse)));
    assert!(matches!(DtbNode::parse("a { } b;"), Err(DtsError::Parse)));
}

#[test]
fn set_property_reports_missing_node_with_context() {
    let mut root = DtbNode::parse(SAMPLE).ok().unwrap();
    let r = root.set_property(&path(&["/", "nope"]), "status", Some("\"okay\"".to_string()));
    match r {
        Err(DtsError::NotFound { name, context }) => {
            assert_eq!(name, "nope");
            assert_eq!(context, vec!["/".to_string()]);
        }
        _ => panic!("expected NotFound"),
    }
}

#[test]
fn set_property_reports_missing_property() {
    let mut root = DtbNode::parse(SAMPLE).ok().unwrap();
    let r = root.set_property(&path(&["/", "sdhci@3440000"]), "nope", None);
    match r {
        Err(DtsError::NotFound { name, context }) => {
            assert_eq!(name, "nope");
            assert_eq!(context, path(&["/", "sdhci@3440000"]));
        }
        _ => panic!("expected NotFound"),
    }
}

#[test]
fn set_property_then_reparse_shows_value() {
    let mut root = DtbNode::parse(SAMPLE).ok().unwrap();
    root.set_property(&path(&["/", "sdhci@3440000"]), "status", Some("\"okay\"".to_string()))
        .ok()
        .unwrap();
    let mut again = DtbNode::parse(&root.stringify(2)).ok().unwrap();
    assert_eq!(value_of(&mut again, &["/", "sdhci@3440000"], "status").as_deref(), Some("\"okay\""));
}

#[test]
fn xavier_patch_enables_sd_and_cameras() {
    let mut root = DtbNode::parse(SAMPLE).ok().unwrap();
    patch_device_tree_xavier_nx(&mut root).ok().unwrap();
    let okay = Some("\"okay\"".to_string());
    assert_eq!(value_of(&mut root, &["/", "sdhci@3440000"], "status"), okay);
    assert_eq!(value_of(&mut root, &["/", "cam_i2cmux", "i2c@0", "rbpcv3_imx477_a@1a"], "status"), okay);
    assert_eq!(value_of(&mut root, &["/", "cam_i2cmux", "i2c@1", "rbpcv3_imx477_c@1a"], "status"), okay);
}

#[test]
fn orin_patch_fails_on_tree_without_camera_modes() {
    let mut root = DtbNode::parse(SAMPLE).ok().unwrap();
    assert!(matches!(
        patch_device_tree_orin_nx_16gb(&mut root),
        Err(DtsError::NotFound { .. })
    ));
}

#[test]
fn patch_text_round_trips_through_parser() {
    let out = patch_device_tree(DtbTarget::XavierNx, SAMPLE).ok().unwrap();
    let mut again = DtbNode::parse(&out).ok().unwrap();
    assert_eq!(value_of(&mut again, &["/", "sdhci@3440000"], "status").as_deref(), Some("\"okay\""));
    assert_eq!(
        value_of(&mut again, &["/", "sdhci@3440000"], "non-removable"),
        None
    );
    assert!(matches!(patch_device_tree(DtbTarget::XavierNx, "a {"), Err(DtsError::Parse)));
}

#[test]
fn board_edit_lists() {
    let x = board_edits(DtbTarget::XavierNx);
    assert_eq!(x.len(), 3);
    assert_eq!(x[0].path, path(&["/", "sdhci@3440000"]));
    assert_eq!(x[0].property, "status");
    assert_eq!(x[0].value, "\"okay\"");
    let o = board_edits(DtbTarget::OrinNx8Gb);
    assert_eq!(o.len(), 11);
    assert_eq!(
        o[3].path,
        path(&["/", "cam_i2cmux", "i2c@0", "rbpcv3_imx477_a@1a", "ports", "port@0", "endpoint"])
    );
    assert_eq!(o[3].property, "port-index");
    assert_eq!(o[3].value, "<0x00>");
    assert_eq!(o[8].path, path(&["/", "cam_i2cmux", "i2c@0", "rbpcv2_imx219_a@10", "mode4"]));
    assert_eq!(o[8].value, "\"serial_a\"");
    assert_eq!(DtbTarget::OrinNx16Gb.dtb_file(), "tegra234-p3767-0000-p3768-0000-a0.dtb");
    assert_eq!(DtbTarget::XavierNx.dts_file(), "tegra194-p3668-0001-p3509-0000.dts");
}

#[test]
fn patch_miss_names_first_missing_element() {
    let mut root = DtbNode::parse("/ { cam_i2cmux { i2c@0 { }; }; };").ok().unwrap();
    match patch_device_tree_orin_nx_16gb(&mut root) {
        Err(DtsError::NotFound { name, context }) => {
            assert_eq!(name, "rbpcv3_imx477_a@1a");
            assert_eq!(context, path(&["/", "cam_i2cmux", "i2c@0"]));
        }
        _ => panic!("expected NotFound"),
    }
    match patch_device_tree(DtbTarget::XavierNx, "/ { sdhci@3440000 { }; };") {
        Err(DtsError::NotFound { name, context }) => {
            assert_eq!(name, "status");
            assert_eq!(context, path(&["/", "sdhci@3440000"]));
        }
        _ => panic!("expected NotFound"),
    }
}


#[test]
fn patches_land_under_first_matching_node() {
    let text = "/ { sdhci@3440000 { status = \"disabled\"; }; cam_i2cmux { i2c@0 { rbpcv3_imx477_a@1a { status = \"disabled\"; }; }; i2c@1 { rbpcv3_imx477_c@1a { status = \"disabled\"; }; }; }; cam_i2cmux { i2c@0 { rbpcv3_imx477_a@1a { status = \"disabled\"; }; }; }; };";
    let out = patch_device_tree(DtbTarget::XavierNx, text).ok().unwrap();
    let again = DtbNode::parse(&out).ok().unwrap();
    let top = &again.children[0];
    let first = &top.children[1];
    let second = &top.children[2];
    assert_eq!(first.children[0].children[0].properties[0].value.as_deref(), Some("\"okay\""));
    assert_eq!(first.children[1].children[0].properties[0].value.as_deref(), Some("\"okay\""));
    assert_eq!(second.children[0].children[0].properties[0].value.as_deref(), Some("\"disabled\""));
}
