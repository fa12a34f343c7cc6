//! Turning what USB discovery reports into device descriptors: the device
//! path of each vendor match, the sysfs files to read, and their fields.
use vstd::prelude::*;

use regex::Regex;

use crate::app::DeviceDescriptor;
use crate::devicetree::node::opt_view;
use crate::devicetree::model::{is_ws, trim};
use crate::devicetree::lex_lemmas::{lemma_lead_ws_is, lemma_trail_ws_is};
use crate::text::{chars_of, string_of};

verus! {

/// The text that group `group` of the leftmost match of the regular
/// expression `pattern` in `text` matched, if the pattern compiles, matches,
/// and the group took part in the match.
pub uninterp spec fn regex_group(pattern: Seq<char>, text: Seq<char>, group: nat) -> Option<
    Seq<char>,
>;

/// Relies on `regex::Regex::new` and `Regex::captures` with `Captures::get`:
/// the result depends on the pattern, the text and the group alone, and a
/// matched group is a piece of `text`.
#[verifier::external_body]
fn regex_capture(pattern: &str, text: &str, group: usize) -> (r: Option<String>)
    ensures
        opt_view(r) == regex_group(pattern@, text@, group as nat),
        r matches Some(g) ==> exists|a: int, b: int|
            0 <= a <= b <= text@.len() && g@ == #[trigger] text@.subrange(a, b),
{
    let re = match Regex::new(pattern) {
        Ok(re) => re,
        Err(_) => return None,
    };
    match re.captures(text) {
        Some(caps) => match caps.get(group) {
            Some(m) => Some(m.as_str().to_string()),
            None => None,
        },
        None => None,
    }
}

/// The sysfs path of a device of the vendor, as discovery lists it; group 1 is
/// the instance identifier (bus and port chain, such as `1-2.3`).
pub const USB_DEVICE_PATTERN: &'static str = r"/sys/bus/usb/devices/(([\d]+)-([\d.]+))/idVendor:0955";

/// The USB vendor code of the modules.
pub const VENDOR_CODE: &'static str = "0955";

pub const SYSFS_USB_DEVICES: &'static str = "/sys/bus/usb/devices/";

/// The instance identifier in one line of the discovery listing, if the line
/// names a device of the vendor. What is returned is a piece of the line.
pub fn instance_from_listing(line: &str) -> (r: Option<String>)
    ensures
        opt_view(r) == regex_group(USB_DEVICE_PATTERN@, line@, 1),
        r matches Some(g) ==> exists|a: int, b: int|
            0 <= a <= b <= line@.len() && g@ == #[trigger] line@.subrange(a, b),
{
    regex_capture(USB_DEVICE_PATTERN, line, 1)
}

/// `/sys/bus/usb/devices/<instance>/<field>`.
pub fn sysfs_field_path(instance: &str, field: &str) -> (r: String)
    ensures
        r@ == SYSFS_USB_DEVICES@ + instance@ + "/"@ + field@,
{
    let mut p = String::from_str(SYSFS_USB_DEVICES);
    p.append(instance);
    p.append("/");
    p.append(field);
    p
}

/// The text without leading and trailing whitespace.
pub fn trim_text(s: &str) -> (r: String)
    ensures
        r@ == trim(s@),
{
    let c = chars_of(s);
    let n = c.len();
    let mut a: usize = 0;
    while a < n && (c[a] == ' ' || c[a] == '\t' || c[a] == '\n' || c[a] == '\r')
        invariant
            a <= n == c.len(),
            forall|j: int| 0 <= j < a ==> is_ws(#[trigger] c@[j]),
        decreases n - a,
    {
        a += 1;
    }
    let mut b: usize = n;
    while b > a && (c[b - 1] == ' ' || c[b - 1] == '\t' || c[b - 1] == '\n' || c[b - 1] == '\r')
        invariant
            a <= b <= n == c.len(),
            forall|j: int| b <= j < n ==> is_ws(#[trigger] c@[j]),
        decreases b - a,
    {
        b -= 1;
    }
    proof {
        lemma_lead_ws_is(c@, a as int);
        let t = c@.subrange(a as int, n as int);
        assert forall|j: int| t.len() - (n - b) <= j < t.len() implies is_ws(#[trigger] t[j]) by {
            assert(t[j] == c@[a + j]);
        }
        if b > a {
            assert(t[t.len() - (n - b) - 1] == c@[b - 1]);
        }
        lemma_trail_ws_is(t, n - b);
        assert(trim(s@) =~= c@.subrange(a as int, b as int));
    }
    string_of(&c, a, b)
}

pub open spec fn is_decimal(s: Seq<char>) -> bool {
    s.len() > 0 && forall|k: int| 0 <= k < s.len() ==> '0' <= #[trigger] s[k] <= '9'
}

fn decimal_check(s: &String) -> (r: bool)
    ensures
        r == is_decimal(s@),
{
    let c = chars_of(s.as_str());
    if c.len() == 0 {
        return false;
    }
    let mut k: usize = 0;
    while k < c.len()
        invariant
            0 <= k <= c.len(),
            c@ == s@,
            forall|j: int| 0 <= j < k ==> '0' <= #[trigger] c@[j] <= '9',
        decreases c.len() - k,
    {
        if c[k] < '0' || c[k] > '9' {
            return false;
        }
        k += 1;
    }
    true
}

/// A descriptor from the contents of the `busnum`, `devnum` and `idProduct`
/// files of a device; `None` when the bus or device number is not a decimal
/// number or the product code is empty, so that only this candidate is lost.
pub fn descriptor_from_fields(instance: String, busnum: &str, devnum: &str, product: &str) -> (r:
    Option<DeviceDescriptor>)
    ensures
        match r {
            Some(d) => {
                &&& is_decimal(trim(busnum@)) && is_decimal(trim(devnum@)) && trim(product@).len()
                    > 0
                &&& d.bus@ == trim(busnum@)
                &&& d.dev@ == trim(devnum@)
                &&& d.product@ == trim(product@)
                &&& d.vendor@ == VENDOR_CODE@
                &&& d.instance@ == instance@
            },
            None => !(is_decimal(trim(busnum@)) && is_decimal(trim(devnum@)) && trim(
                product@,
            ).len() > 0),
        },
{
    let bus = trim_text(busnum);
    let dev = trim_text(devnum);
    let prod = trim_text(product);
    if !decimal_check(&bus) || !decimal_check(&dev) || prod.as_str().unicode_len() == 0 {
        return None;
    }
    Some(
        DeviceDescriptor {
            bus,
            dev,
            vendor: String::from_str(VENDOR_CODE),
            product: prod,
            instance,
        },
    )
}

} // verus!
