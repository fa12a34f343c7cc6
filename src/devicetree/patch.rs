//! Board-specific patches: which properties of the decompiled device tree of
//! each supported module are set before it is compiled again.
use vstd::prelude::*;

use crate::devicetree::laws::{
    lemma_document_reads_back, lemma_parsed_is_wf, lemma_set_at_effect, lemma_set_at_other,
};
use crate::devicetree::model::{
    DtNode, all_ws, first_miss, is_clean_value, parse_document, ser_body, set_at, tab_prefix,
    value_at, wf_body,
};
use crate::devicetree::node::{DtbNode, DtsError, opt_view, path_view};

verus! {

/// One point mutation: set `prop` of the node at `path` to `value`.
pub struct Edit {
    pub path: Seq<Seq<char>>,
    pub prop: Seq<char>,
    pub value: Seq<char>,
}

/// Applies the edits in order; `None` as soon as one of them misses.
pub open spec fn apply_edits(n: DtNode, es: Seq<Edit>) -> Option<DtNode>
    decreases es.len(),
{
    if es.len() == 0 {
        Some(n)
    } else {
        match set_at(n, es[0].path, es[0].prop, Some(es[0].value)) {
            Some(n1) => apply_edits(n1, es.subrange(1, es.len() as int)),
            None => None,
        }
    }
}

/// The first edit that misses when `es` is applied in order to `n`: the tree
/// it met and its index.
pub open spec fn failing_edit(n: DtNode, es: Seq<Edit>) -> (DtNode, nat)
    decreases es.len(),
{
    if es.len() == 0 {
        (n, 0)
    } else {
        match set_at(n, es[0].path, es[0].prop, Some(es[0].value)) {
            Some(n1) => {
                let f = failing_edit(n1, es.subrange(1, es.len() as int));
                (f.0, f.1 + 1)
            },
            None => (n, 0),
        }
    }
}

pub proof fn lemma_failing_edit(n: DtNode, es: Seq<Edit>)
    requires
        apply_edits(n, es) is None,
    ensures
        failing_edit(n, es).1 < es.len(),
    decreases es.len(),
{
    if let Some(n1) = set_at(n, es[0].path, es[0].prop, Some(es[0].value)) {
        lemma_failing_edit(n1, es.subrange(1, es.len() as int));
    }
}

/// What a `NotFound` reports when applying `es` to `n` misses: the missing
/// name and the path walked before it, in the first edit that misses.
pub open spec fn edit_miss(n: DtNode, es: Seq<Edit>) -> (Seq<char>, Seq<Seq<char>>) {
    let f = failing_edit(n, es);
    let e = es[f.1 as int];
    let m = first_miss(f.0, e.path, e.prop);
    (m.0, e.path.subrange(0, m.1 as int))
}

/// The edits miss, and the error names what `edit_miss` gives.
pub open spec fn reports_miss(r: Result<(), DtsError>, n: DtNode, es: Seq<Edit>) -> bool {
    r matches Err(DtsError::NotFound { name, context }) && name@ == edit_miss(n, es).0
        && path_view(context@) == edit_miss(n, es).1
}

/// An executable point mutation.
pub struct PropertyEdit {
    pub path: Vec<String>,
    pub property: String,
    pub value: String,
}

impl View for PropertyEdit {
    type V = Edit;

    open spec fn view(&self) -> Edit {
        Edit { path: path_view(self.path@), prop: self.property@, value: self.value@ }
    }
}

pub open spec fn edits_view(v: Seq<PropertyEdit>) -> Seq<Edit> {
    Seq::new(v.len(), |i: int| v[i]@)
}

/// The modules whose device tree is patched.
#[derive(Clone, Copy, PartialEq, Eq, Structural, Debug)]
pub enum DtbTarget {
    XavierNx,
    OrinNx16Gb,
    OrinNx8Gb,
}

pub const XAVIER_NX_DTB: &'static str = "tegra194-p3668-0001-p3509-0000.dtb";
pub const XAVIER_NX_DTS: &'static str = "tegra194-p3668-0001-p3509-0000.dts";
pub const ORIN_NX_16GB_DTB: &'static str = "tegra234-p3767-0000-p3768-0000-a0.dtb";
pub const ORIN_NX_8GB_DTB: &'static str = "tegra234-p3767-0001-p3768-0000-a0.dtb";
pub const ORIN_NX_16GB_DTS: &'static str = "tegra234-p3767-0000-p3768-0000-a0.dts";
pub const ORIN_NX_8GB_DTS: &'static str = "tegra234-p3767-0001-p3768-0000-a0.dts";

impl DtbTarget {
    /// File name of the compiled device tree of this module.
    pub fn dtb_file(&self) -> (r: &'static str)
        ensures
            r@ == match self {
                DtbTarget::XavierNx => XAVIER_NX_DTB@,
                DtbTarget::OrinNx16Gb => ORIN_NX_16GB_DTB@,
                DtbTarget::OrinNx8Gb => ORIN_NX_8GB_DTB@,
            },
    {
        match self {
            DtbTarget::XavierNx => XAVIER_NX_DTB,
            DtbTarget::OrinNx16Gb => ORIN_NX_16GB_DTB,
            DtbTarget::OrinNx8Gb => ORIN_NX_8GB_DTB,
        }
    }

    /// File name of the device-tree source of this module.
    pub fn dts_file(&self) -> (r: &'static str)
        ensures
            r@ == match self {
                DtbTarget::XavierNx => XAVIER_NX_DTS@,
                DtbTarget::OrinNx16Gb => ORIN_NX_16GB_DTS@,
                DtbTarget::OrinNx8Gb => ORIN_NX_8GB_DTS@,
            },
    {
        match self {
            DtbTarget::XavierNx => XAVIER_NX_DTS,
            DtbTarget::OrinNx16Gb => ORIN_NX_16GB_DTS,
            DtbTarget::OrinNx8Gb => ORIN_NX_8GB_DTS,
        }
    }
}

pub open spec fn okay() -> Seq<char> {
    "\"okay\""@
}

pub open spec fn serial_a() -> Seq<char> {
    "\"serial_a\""@
}

pub open spec fn port_zero() -> Seq<char> {
    "<0x00>"@
}

/// Path of a camera sensor node behind the camera I2C multiplexer.
pub open spec fn sensor_path(bus: Seq<char>, sensor: Seq<char>) -> Seq<Seq<char>> {
    seq!["/"@, "cam_i2cmux"@, bus, sensor]
}

pub open spec fn imx477_a() -> Seq<Seq<char>> {
    sensor_path("i2c@0"@, "rbpcv3_imx477_a@1a"@)
}

pub open spec fn imx477_c() -> Seq<Seq<char>> {
    sensor_path("i2c@1"@, "rbpcv3_imx477_c@1a"@)
}

pub open spec fn imx219_a() -> Seq<Seq<char>> {
    sensor_path("i2c@0"@, "rbpcv2_imx219_a@10"@)
}

pub open spec fn endpoint_of(sensor: Seq<Seq<char>>) -> Seq<Seq<char>> {
    sensor + seq!["ports"@, "port@0"@, "endpoint"@]
}

pub open spec fn edit(path: Seq<Seq<char>>, prop: Seq<char>, value: Seq<char>) -> Edit {
    Edit { path, prop, value }
}

/// Xavier NX: enable the SD card slot and the two IMX477 cameras.
pub open spec fn xavier_nx_plan() -> Seq<Edit> {
    seq![
        edit(seq!["/"@, "sdhci@3440000"@], "status"@, okay()),
        edit(imx477_a(), "status"@, okay()),
        edit(imx477_c(), "status"@, okay()),
    ]
}

/// Orin NX: enable the two IMX477 cameras and route the camera modes and
/// ports of the first bus to CSI serial A, port 0.
pub open spec fn orin_nx_plan() -> Seq<Edit> {
    seq![
        edit(imx477_a(), "status"@, okay()),
        edit(imx477_a().push("mode0"@), "tegra_sinterface"@, serial_a()),
        edit(imx477_a().push("mode1"@), "tegra_sinterface"@, serial_a()),
        edit(endpoint_of(imx477_a()), "port-index"@, port_zero()),
        edit(imx219_a().push("mode0"@), "tegra_sinterface"@, serial_a()),
        edit(imx219_a().push("mode1"@), "tegra_sinterface"@, serial_a()),
        edit(imx219_a().push("mode2"@), "tegra_sinterface"@, serial_a()),
        edit(imx219_a().push("mode3"@), "tegra_sinterface"@, serial_a()),
        edit(imx219_a().push("mode4"@), "tegra_sinterface"@, serial_a()),
        edit(endpoint_of(imx219_a()), "port-index"@, port_zero()),
        edit(imx477_c(), "status"@, okay()),
    ]
}

pub open spec fn plan_of(t: DtbTarget) -> Seq<Edit> {
    match t {
        DtbTarget::XavierNx => xavier_nx_plan(),
        DtbTarget::OrinNx16Gb => orin_nx_plan(),
        DtbTarget::OrinNx8Gb => orin_nx_plan(),
    }
}

fn add_part(v: &mut Vec<String>, part: &str)
    ensures
        path_view(final(v)@) == path_view(old(v)@).push(part@),
{
    v.push(String::from_str(part));
    assert(path_view(v@) =~= path_view(old(v)@).push(part@));
}

fn sensor_path_exec(bus: &str, sensor: &str) -> (r: Vec<String>)
    ensures
        path_view(r@) == sensor_path(bus@, sensor@),
{
    let mut v: Vec<String> = Vec::new();
    add_part(&mut v, "/");
    add_part(&mut v, "cam_i2cmux");
    add_part(&mut v, bus);
    add_part(&mut v, sensor);
    assert(path_view(v@) =~= sensor_path(bus@, sensor@));
    v
}

fn with_part(mut v: Vec<String>, part: &str) -> (r: Vec<String>)
    ensures
        path_view(r@) == path_view(v@).push(part@),
{
    add_part(&mut v, part);
    v
}

fn endpoint_exec(sensor: Vec<String>) -> (r: Vec<String>)
    ensures
        path_view(r@) == endpoint_of(path_view(sensor@)),
{
    let a = with_part(sensor, "ports");
    let b = with_part(a, "port@0");
    let c = with_part(b, "endpoint");
    assert(path_view(c@) =~= endpoint_of(path_view(sensor@)));
    c
}

fn make_edit(path: Vec<String>, prop: &str, value: &str) -> (r: PropertyEdit)
    ensures
        r@ == edit(path_view(path@), prop@, value@),
{
    PropertyEdit { path, property: String::from_str(prop), value: String::from_str(value) }
}

/// The edits of `plan_of(target)`.
pub fn board_edits(target: DtbTarget) -> (r: Vec<PropertyEdit>)
    ensures
        edits_view(r@) == plan_of(target),
{
    let okay = "\"okay\"";
    let serial_a = "\"serial_a\"";
    let status = "status";
    let sinterface = "tegra_sinterface";
    let mut r: Vec<PropertyEdit> = Vec::new();
    match target {
        DtbTarget::XavierNx => {
            let mut sd: Vec<String> = Vec::new();
            add_part(&mut sd, "/");
            add_part(&mut sd, "sdhci@3440000");
            assert(path_view(sd@) =~= seq!["/"@, "sdhci@3440000"@]);
            r.push(make_edit(sd, status, okay));
            r.push(make_edit(sensor_path_exec("i2c@0", "rbpcv3_imx477_a@1a"), status, okay));
            r.push(make_edit(sensor_path_exec("i2c@1", "rbpcv3_imx477_c@1a"), status, okay));
            assert(edits_view(r@) =~= xavier_nx_plan());
        },
        DtbTarget::OrinNx16Gb | DtbTarget::OrinNx8Gb => {
            let a = "rbpcv3_imx477_a@1a";
            let v2 = "rbpcv2_imx219_a@10";
            r.push(make_edit(sensor_path_exec("i2c@0", a), status, okay));
            r.push(make_edit(with_part(sensor_path_exec("i2c@0", a), "mode0"), sinterface, serial_a));
            r.push(make_edit(with_part(sensor_path_exec("i2c@0", a), "mode1"), sinterface, serial_a));
            r.push(make_edit(endpoint_exec(sensor_path_exec("i2c@0", a)), "port-index", "<0x00>"));
            r.push(make_edit(with_part(sensor_path_exec("i2c@0", v2), "mode0"), sinterface, serial_a));
            r.push(make_edit(with_part(sensor_path_exec("i2c@0", v2), "mode1"), sinterface, serial_a));
            r.push(make_edit(with_part(sensor_path_exec("i2c@0", v2), "mode2"), sinterface, serial_a));
            r.push(make_edit(with_part(sensor_path_exec("i2c@0", v2), "mode3"), sinterface, serial_a));
            r.push(make_edit(with_part(sensor_path_exec("i2c@0", v2), "mode4"), sinterface, serial_a));
            r.push(make_edit(endpoint_exec(sensor_path_exec("i2c@0", v2)), "port-index", "<0x00>"));
            r.push(make_edit(sensor_path_exec("i2c@1", "rbpcv3_imx477_c@1a"), status, okay));
            assert(edits_view(r@) =~= orin_nx_plan());
        },
    }
    r
}

/// Applies the edits in order and stops at the first that misses; on success
/// the tree is `apply_edits` of the old tree.
pub fn apply_property_edits(root: &mut DtbNode, edits: &Vec<PropertyEdit>) -> (r: Result<
    (),
    DtsError,
>)
    ensures
        match apply_edits(old(root)@, edits_view(edits@)) {
            Some(n2) => r is Ok && final(root)@ == n2,
            None => reports_miss(r, old(root)@, edits_view(edits@)),
        },
{
    let ghost ev = edits_view(edits@);
    let mut i: usize = 0;
    assert(ev.subrange(0, ev.len() as int) =~= ev);
    while i < edits.len()
        invariant
            0 <= i <= edits.len(),
            ev == edits_view(edits@),
            apply_edits(old(root)@, ev) == apply_edits(root@, ev.subrange(i as int, ev.len() as int)),
            apply_edits(old(root)@, ev) is None ==> edit_miss(old(root)@, ev) == edit_miss(
                root@,
                ev.subrange(i as int, ev.len() as int),
            ),
        decreases edits.len() - i,
    {
        let ghost rest = ev.subrange(i as int, ev.len() as int);
        assert(rest[0] == edits@[i as int]@);
        assert(rest.subrange(1, rest.len() as int) =~= ev.subrange(i + 1, ev.len() as int));
        let e = &edits[i];
        let ghost before = root@;
        let res = root.set_property(&e.path, e.property.as_str(), Some(e.value.clone()));
        match res {
            Ok(()) => {
                proof {
                    if apply_edits(old(root)@, ev) is None {
                        let tail = ev.subrange(i + 1, ev.len() as int);
                        lemma_failing_edit(root@, tail);
                        let f = failing_edit(root@, tail);
                        assert(tail[f.1 as int] == rest[f.1 + 1 as int]);
                    }
                }
            },
            Err(err) => {
                return Err(err);
            },
        }
        i += 1;
    }
    Ok(())
}

/// Patches the source text of the device tree of `target`: parses it, applies
/// the board's edits and writes the tree back out.
pub fn patch_device_tree(target: DtbTarget, dts: &str) -> (r: Result<String, DtsError>)
    ensures
        match parse_document(dts@) {
            None => r matches Err(DtsError::Parse),
            Some(n) => match apply_edits(n, plan_of(target)) {
                Some(n2) => r matches Ok(text) && text@ == ser_body(n2, tab_prefix(0)),
                None => r matches Err(DtsError::NotFound { name, context }) && name@ == edit_miss(
                    n,
                    plan_of(target),
                ).0 && path_view(context@) == edit_miss(n, plan_of(target)).1,
            },
        },
{
    let mut root = match DtbNode::parse(dts) {
        Ok(n) => n,
        Err(e) => {
            return Err(e);
        },
    };
    let edits = board_edits(target);
    match apply_property_edits(&mut root, &edits) {
        Ok(()) => Ok(root.stringify(0)),
        Err(e) => Err(e),
    }
}

/// Xavier NX: see `xavier_nx_plan`.
pub fn patch_device_tree_xavier_nx(root: &mut DtbNode) -> (r: Result<(), DtsError>)
    ensures
        match apply_edits(old(root)@, xavier_nx_plan()) {
            Some(n2) => r is Ok && final(root)@ == n2,
            None => reports_miss(r, old(root)@, xavier_nx_plan()),
        },
{
    let edits = board_edits(DtbTarget::XavierNx);
    apply_property_edits(root, &edits)
}

/// Orin NX 16GB: see `orin_nx_plan`.
pub fn patch_device_tree_orin_nx_16gb(root: &mut DtbNode) -> (r: Result<(), DtsError>)
    ensures
        match apply_edits(old(root)@, orin_nx_plan()) {
            Some(n2) => r is Ok && final(root)@ == n2,
            None => reports_miss(r, old(root)@, orin_nx_plan()),
        },
{
    let edits = board_edits(DtbTarget::OrinNx16Gb);
    apply_property_edits(root, &edits)
}

/// Orin NX 8GB: see `orin_nx_plan`.
pub fn patch_device_tree_orin_nx_8gb(root: &mut DtbNode) -> (r: Result<(), DtsError>)
    ensures
        match apply_edits(old(root)@, orin_nx_plan()) {
            Some(n2) => r is Ok && final(root)@ == n2,
            None => reports_miss(r, old(root)@, orin_nx_plan()),
        },
{
    let edits = board_edits(DtbTarget::OrinNx8Gb);
    apply_property_edits(root, &edits)
}

/// No two edits set the same property of the same path.
pub open spec fn keys_distinct(es: Seq<Edit>) -> bool {
    forall|i: int, j: int|
        #![trigger es[i], es[j]]
        0 <= i < j < es.len() ==> !(es[i].path == es[j].path && es[i].prop == es[j].prop)
}

/// Edits on other places leave the value read at `q`, `b` as it was.
pub proof fn lemma_apply_edits_other(n: DtNode, es: Seq<Edit>, q: Seq<Seq<char>>, b: Seq<char>)
    requires
        apply_edits(n, es) is Some,
        forall|k: int| 0 <= k < es.len() ==> !(#[trigger] es[k].path == q && es[k].prop == b),
    ensures
        value_at(apply_edits(n, es)->0, q, b) == value_at(n, q, b),
    decreases es.len(),
{
    if es.len() > 0 {
        let n1 = set_at(n, es[0].path, es[0].prop, Some(es[0].value))->0;
        let rest = es.subrange(1, es.len() as int);
        assert(!(es[0].path == q && es[0].prop == b));
        lemma_set_at_other(n, es[0].path, es[0].prop, es[0].value, q, b);
        assert forall|k: int| 0 <= k < rest.len() implies !(#[trigger] rest[k].path == q
            && rest[k].prop == b) by {
            assert(rest[k] == es[k + 1]);
        }
        lemma_apply_edits_other(n1, rest, q, b);
    }
}

/// After edits with distinct places are applied in order, each place holds the
/// value its edit set.
pub proof fn lemma_apply_edits_read_back(n: DtNode, es: Seq<Edit>, k: int)
    requires
        apply_edits(n, es) is Some,
        keys_distinct(es),
        0 <= k < es.len(),
    ensures
        value_at(apply_edits(n, es)->0, es[k].path, es[k].prop) == Some(Some(es[k].value)),
    decreases es.len(),
{
    let n1 = set_at(n, es[0].path, es[0].prop, Some(es[0].value))->0;
    let rest = es.subrange(1, es.len() as int);
    if k == 0 {
        lemma_set_at_effect(n, es[0].path, es[0].prop, es[0].value);
        assert forall|j: int| 0 <= j < rest.len() implies !(#[trigger] rest[j].path == es[0].path
            && rest[j].prop == es[0].prop) by {
            assert(rest[j] == es[j + 1]);
        }
        lemma_apply_edits_other(n1, rest, es[0].path, es[0].prop);
    } else {
        assert(keys_distinct(rest)) by {
            assert forall|i: int, j: int| 0 <= i < j < rest.len() implies !(rest[i].path
                == rest[j].path && rest[i].prop == rest[j].prop) by {
                assert(rest[i] == es[i + 1] && rest[j] == es[j + 1]);
            }
        }
        assert(rest[k - 1] == es[k]);
        lemma_apply_edits_read_back(n1, rest, k - 1);
    }
}

/// Edits with clean values keep a tree well formed and its root's name.
pub proof fn lemma_apply_edits_wf(n: DtNode, es: Seq<Edit>)
    requires
        apply_edits(n, es) is Some,
        wf_body(n),
        forall|k: int| 0 <= k < es.len() ==> is_clean_value(#[trigger] es[k].value),
    ensures
        wf_body(apply_edits(n, es)->0),
        apply_edits(n, es)->0.name == n.name,
    decreases es.len(),
{
    if es.len() > 0 {
        let n1 = set_at(n, es[0].path, es[0].prop, Some(es[0].value))->0;
        let rest = es.subrange(1, es.len() as int);
        assert(is_clean_value(es[0].value));
        lemma_set_at_effect(n, es[0].path, es[0].prop, es[0].value);
        assert forall|k: int| 0 <= k < rest.len() implies is_clean_value(#[trigger] rest[k].value) by {
            assert(rest[k] == es[k + 1]);
        }
        lemma_apply_edits_wf(n1, rest);
    }
}

proof fn lemma_plan_values_clean(t: DtbTarget)
    ensures
        forall|k: int| 0 <= k < plan_of(t).len() ==> is_clean_value(#[trigger] plan_of(t)[k].value),
{
    reveal_strlit("\"okay\"");
    reveal_strlit("\"serial_a\"");
    reveal_strlit("<0x00>");
    let o = okay();
    let s = serial_a();
    let z = port_zero();
    assert forall|k: int| 0 <= k < o.len() implies #[trigger] o[k] != ';' by {}
    assert forall|k: int| 0 <= k < s.len() implies #[trigger] s[k] != ';' by {}
    assert forall|k: int| 0 <= k < z.len() implies #[trigger] z[k] != ';' by {}
    assert(is_clean_value(o) && is_clean_value(s) && is_clean_value(z));
    let pl = plan_of(t);
    assert forall|k: int| 0 <= k < pl.len() implies is_clean_value(#[trigger] pl[k].value) by {
        assert(pl[k].value == o || pl[k].value == s || pl[k].value == z);
    }
}

proof fn lemma_xavier_keys_distinct()
    ensures
        keys_distinct(xavier_nx_plan()),
{
    reveal_strlit("/");
    reveal_strlit("cam_i2cmux");
    reveal_strlit("endpoint");
    reveal_strlit("i2c@0");
    reveal_strlit("i2c@1");
    reveal_strlit("mode0");
    reveal_strlit("mode1");
    reveal_strlit("mode2");
    reveal_strlit("mode3");
    reveal_strlit("mode4");
    reveal_strlit("port-index");
    reveal_strlit("port@0");
    reveal_strlit("ports");
    reveal_strlit("rbpcv2_imx219_a@10");
    reveal_strlit("rbpcv3_imx477_a@1a");
    reveal_strlit("rbpcv3_imx477_c@1a");
    reveal_strlit("sdhci@3440000");
    reveal_strlit("status");
    reveal_strlit("tegra_sinterface");
    let pl = xavier_nx_plan();
    assert forall|i: int, j: int| 0 <= i < j < pl.len() implies !(pl[i].path == pl[j].path && pl[i].prop == pl[j].prop) by {
        if i == 0 && j == 1 {
            assert(pl[0].path.len() != pl[1].path.len());
        } else if i == 0 && j == 2 {
            assert(pl[0].path.len() != pl[2].path.len());
        } else if i == 1 && j == 2 {
            assert(pl[1].path[2][4] != pl[2].path[2][4]);
        }
    }
}

proof fn lemma_orin_keys_distinct()
    ensures
        keys_distinct(orin_nx_plan()),
{
    reveal_strlit("/");
    reveal_strlit("cam_i2cmux");
    reveal_strlit("endpoint");
    reveal_strlit("i2c@0");
    reveal_strlit("i2c@1");
    reveal_strlit("mode0");
    reveal_strlit("mode1");
    reveal_strlit("mode2");
    reveal_strlit("mode3");
    reveal_strlit("mode4");
    reveal_strlit("port-index");
    reveal_strlit("port@0");
    reveal_strlit("ports");
    reveal_strlit("rbpcv2_imx219_a@10");
    reveal_strlit("rbpcv3_imx477_a@1a");
    reveal_strlit("rbpcv3_imx477_c@1a");
    reveal_strlit("sdhci@3440000");
    reveal_strlit("status");
    reveal_strlit("tegra_sinterface");
    let pl = orin_nx_plan();
    assert forall|i: int, j: int| 0 <= i < j < pl.len() implies !(pl[i].path == pl[j].path && pl[i].prop == pl[j].prop) by {
        if i == 0 && j == 1 {
            assert(pl[0].prop.len() != pl[1].prop.len());
        } else if i == 0 && j == 2 {
            assert(pl[0].prop.len() != pl[2].prop.len());
        } else if i == 0 && j == 3 {
            assert(pl[0].prop.len() != pl[3].prop.len());
        } else if i == 0 && j == 4 {
            assert(pl[0].prop.len() != pl[4].prop.len());
        } else if i == 0 && j == 5 {
            assert(pl[0].prop.len() != pl[5].prop.len());
        } else if i == 0 && j == 6 {
            assert(pl[0].prop.len() != pl[6].prop.len());
        } else if i == 0 && j == 7 {
            assert(pl[0].prop.len() != pl[7].prop.len());
        } else if i == 0 && j == 8 {
            assert(pl[0].prop.len() != pl[8].prop.len());
        } else if i == 0 && j == 9 {
            assert(pl[0].prop.len() != pl[9].prop.len());
        } else if i == 0 && j == 10 {
            assert(pl[0].path[2][4] != pl[10].path[2][4]);
        } else if i == 1 && j == 2 {
            assert(pl[1].path[4][4] != pl[2].path[4][4]);
        } else if i == 1 && j == 3 {
            assert(pl[1].prop.len() != pl[3].prop.len());
        } else if i == 1 && j == 4 {
            assert(pl[1].path[3][5] != pl[4].path[3][5]);
        } else if i == 1 && j == 5 {
            assert(pl[1].path[3][5] != pl[5].path[3][5]);
        } else if i == 1 && j == 6 {
            assert(pl[1].path[3][5] != pl[6].path[3][5]);
        } else if i == 1 && j == 7 {
            assert(pl[1].path[3][5] != pl[7].path[3][5]);
        } else if i == 1 && j == 8 {
            assert(pl[1].path[3][5] != pl[8].path[3][5]);
        } else if i == 1 && j == 9 {
            assert(pl[1].prop.len() != pl[9].prop.len());
        } else if i == 1 && j == 10 {
            assert(pl[1].prop.len() != pl[10].prop.len());
        } else if i == 2 && j == 3 {
            assert(pl[2].prop.len() != pl[3].prop.len());
        } else if i == 2 && j == 4 {
            assert(pl[2].path[3][5] != pl[4].path[3][5]);
        } else if i == 2 && j == 5 {
            assert(pl[2].path[3][5] != pl[5].path[3][5]);
        } else if i == 2 && j == 6 {
            assert(pl[2].path[3][5] != pl[6].path[3][5]);
        } else if i == 2 && j == 7 {
            assert(pl[2].path[3][5] != pl[7].path[3][5]);
        } else if i == 2 && j == 8 {
            assert(pl[2].path[3][5] != pl[8].path[3][5]);
        } else if i == 2 && j == 9 {
            assert(pl[2].prop.len() != pl[9].prop.len());
        } else if i == 2 && j == 10 {
            assert(pl[2].prop.len() != pl[10].prop.len());
        } else if i == 3 && j == 4 {
            assert(pl[3].prop.len() != pl[4].prop.len());
        } else if i == 3 && j == 5 {
            assert(pl[3].prop.len() != pl[5].prop.len());
        } else if i == 3 && j == 6 {
            assert(pl[3].prop.len() != pl[6].prop.len());
        } else if i == 3 && j == 7 {
            assert(pl[3].prop.len() != pl[7].prop.len());
        } else if i == 3 && j == 8 {
            assert(pl[3].prop.len() != pl[8].prop.len());
        } else if i == 3 && j == 9 {
            assert(pl[3].path[3][5] != pl[9].path[3][5]);
        } else if i == 3 && j == 10 {
            assert(pl[3].prop.len() != pl[10].prop.len());
        } else if i == 4 && j == 5 {
            assert(pl[4].path[4][4] != pl[5].path[4][4]);
        } else if i == 4 && j == 6 {
            assert(pl[4].path[4][4] != pl[6].path[4][4]);
        } else if i == 4 && j == 7 {
            assert(pl[4].path[4][4] != pl[7].path[4][4]);
        } else if i == 4 && j == 8 {
            assert(pl[4].path[4][4] != pl[8].path[4][4]);
        } else if i == 4 && j == 9 {
            assert(pl[4].prop.len() != pl[9].prop.len());
        } else if i == 4 && j == 10 {
            assert(pl[4].prop.len() != pl[10].prop.len());
        } else if i == 5 && j == 6 {
            assert(pl[5].path[4][4] != pl[6].path[4][4]);
        } else if i == 5 && j == 7 {
            assert(pl[5].path[4][4] != pl[7].path[4][4]);
        } else if i == 5 && j == 8 {
            assert(pl[5].path[4][4] != pl[8].path[4][4]);
        } else if i == 5 && j == 9 {
            assert(pl[5].prop.len() != pl[9].prop.len());
        } else if i == 5 && j == 10 {
            assert(pl[5].prop.len() != pl[10].prop.len());
        } else if i == 6 && j == 7 {
            assert(pl[6].path[4][4] != pl[7].path[4][4]);
        } else if i == 6 && j == 8 {
            assert(pl[6].path[4][4] != pl[8].path[4][4]);
        } else if i == 6 && j == 9 {
            assert(pl[6].prop.len() != pl[9].prop.len());
        } else if i == 6 && j == 10 {
            assert(pl[6].prop.len() != pl[10].prop.len());
        } else if i == 7 && j == 8 {
            assert(pl[7].path[4][4] != pl[8].path[4][4]);
        } else if i == 7 && j == 9 {
            assert(pl[7].prop.len() != pl[9].prop.len());
        } else if i == 7 && j == 10 {
            assert(pl[7].prop.len() != pl[10].prop.len());
        } else if i == 8 && j == 9 {
            assert(pl[8].prop.len() != pl[9].prop.len());
        } else if i == 8 && j == 10 {
            assert(pl[8].prop.len() != pl[10].prop.len());
        } else if i == 9 && j == 10 {
            assert(pl[9].prop.len() != pl[10].prop.len());
        }
    }
}

/// Board patches read back: when every edit of a board applies to a parsed
/// document, the text written from the patched tree parses to that tree, and
/// in it each patched property (found by first match along its path) holds
/// the value its edit set, whatever the other edits did.
pub proof fn lemma_board_patch_reads_back(dts: Seq<char>, target: DtbTarget, k: int)
    requires
        parse_document(dts) is Some,
        apply_edits(parse_document(dts)->0, plan_of(target)) is Some,
        0 <= k < plan_of(target).len(),
    ensures
        ({
            let n2 = apply_edits(parse_document(dts)->0, plan_of(target))->0;
            let e = plan_of(target)[k];
            &&& parse_document(ser_body(n2, tab_prefix(0))) == Some(n2)
            &&& value_at(n2, e.path, e.prop) == Some(Some(e.value))
        }),
{
    let n = parse_document(dts)->0;
    let pl = plan_of(target);
    lemma_parsed_is_wf(dts);
    lemma_plan_values_clean(target);
    lemma_apply_edits_wf(n, pl);
    lemma_xavier_keys_distinct();
    lemma_orin_keys_distinct();
    lemma_apply_edits_read_back(n, pl, k);
    let n2 = apply_edits(n, pl)->0;
    assert(all_ws(tab_prefix(0)));
    lemma_document_reads_back(n2, tab_prefix(0));
    assert(n2 == DtNode { name: Seq::empty(), props: n2.props, children: n2.children });
}

} // verus!
