//! Provisioning decisions: whether the workspace is ready, the stages of its
//! setup, when a flash run may start and what its end changes.
use vstd::prelude::*;

use std::sync::mpsc::Sender;

use crate::app::App;
use crate::channel::send_value;
use crate::devicetree::model::trim;
use crate::devicetree::patch::DtbTarget;
use crate::discovery::{is_decimal, trim_text};
use crate::jetson::{FlashStatus, Jetson, JetsonModuleType, Signal};
use crate::logger::keep_recent;
use crate::status::InstallStatus;
use crate::text::chars_of;
use crate::ui_selection::UISelection;

verus! {

/// Both environments are present: tells the consumer the environment is
/// installed and answers `true`.
pub fn check_env(tx: &Sender<Signal>, test_ready: bool, release_ready: bool) -> (r: bool)
    ensures
        r == (test_ready && release_ready),
{
    if test_ready && release_ready {
        let _ = send_value(tx, Signal::EnvironmentInstalled);
        return true;
    }
    false
}

pub open spec fn digit_of(c: char) -> int {
    if c == '0' {
        0
    } else if c == '1' {
        1
    } else if c == '2' {
        2
    } else if c == '3' {
        3
    } else if c == '4' {
        4
    } else if c == '5' {
        5
    } else if c == '6' {
        6
    } else if c == '7' {
        7
    } else if c == '8' {
        8
    } else {
        9
    }
}

/// The number that a string of decimal digits writes.
pub open spec fn digits_value(s: Seq<char>) -> int
    decreases s.len(),
{
    if s.len() == 0 {
        0
    } else {
        digits_value(s.drop_last()) * 10 + digit_of(s.last())
    }
}

/// The digits of an unsigned number as text: an optional leading `+`, then
/// the digits.
pub open spec fn unsigned_digits(s: Seq<char>) -> Seq<char> {
    if s.len() > 0 && s[0] == '+' {
        s.subrange(1, s.len() as int)
    } else {
        s
    }
}

/// The count a text reads as, as an unsigned decimal number; `None` when it
/// is not one.
pub open spec fn count_of(s: Seq<char>) -> Option<int> {
    if is_decimal(unsigned_digits(s)) {
        Some(digits_value(unsigned_digits(s)))
    } else {
        None
    }
}

/// Reads the count of listed workspace directories, surrounding whitespace
/// aside: a count of 0 means absent, 1 present. Text that is no count, or any
/// other count, is not a state the workspace can be in.
pub fn workspace_present(count_text: &str) -> (r: Option<bool>)
    ensures
        r == (match count_of(trim(count_text@)) {
            Some(n) => if n == 0 {
                Some(false)
            } else if n == 1 {
                Some(true)
            } else {
                None
            },
            None => None,
        }),
{
    let t = trim_text(count_text);
    let c = chars_of(t.as_str());
    let n = c.len();
    let start: usize = if n > 0 && c[0] == '+' {
        1
    } else {
        0
    };
    let ghost d = c@.subrange(start as int, n as int);
    assert(d =~= unsigned_digits(trim(count_text@)));
    if start == n {
        return None;
    }
    let mut v: u8 = 0;
    let mut k: usize = start;
    assert(d.subrange(0, 0) =~= Seq::<char>::empty());
    while k < n
        invariant
            start <= k <= n == c.len(),
            d == c@.subrange(start as int, n as int),
            d == unsigned_digits(trim(count_text@)),
            forall|j: int| 0 <= j < k - start ==> '0' <= #[trigger] d[j] <= '9',
            digits_value(d.subrange(0, k - start)) >= 0,
            v as int == (if digits_value(d.subrange(0, k - start)) >= 2 {
                2
            } else {
                digits_value(d.subrange(0, k - start))
            }),
        decreases n - k,
    {
        let ch = c[k];
        if ch < '0' || ch > '9' {
            assert(d[k - start] == ch);
            return None;
        }
        let dig: u8 = if ch == '0' {
            0
        } else if ch == '1' {
            1
        } else {
            2
        };
        proof {
            let p = d.subrange(0, k + 1 - start);
            assert(p.drop_last() =~= d.subrange(0, k - start));
            assert(p.last() == ch);
            assert(d[k - start] == ch);
        }
        v = if v >= 2 || v * 10 + dig >= 2 {
            2
        } else {
            v * 10 + dig
        };
        k += 1;
    }
    assert(d.subrange(0, n - start) =~= d);
    if v == 0 {
        Some(false)
    } else if v == 1 {
        Some(true)
    } else {
        None
    }
}

pub open spec fn setup_stage_lines() -> Seq<Seq<char>> {
    seq![
        "[1/7] Download Jetson Linux...\n"@,
        "[2/7] Patch device tree...\n"@,
        "[3/7] Apply binaries...\n"@,
        "[4/7] Create default user...\n"@,
        "[5/7] Install startup programs...\n"@,
        "[6/7] Generating massflash package for test environment...\n"@,
        "[7/7] Generating massflash package for release environment...\n"@,
    ]
}

/// The stage-boundary lines of workspace setup, in order.
pub fn setup_stages() -> (r: Vec<String>)
    ensures
        r@.len() == setup_stage_lines().len(),
        forall|i: int| 0 <= i < r@.len() ==> #[trigger] r@[i]@ == setup_stage_lines()[i],
{
    let mut r: Vec<String> = Vec::new();
    r.push(String::from_str("[1/7] Download Jetson Linux...\n"));
    r.push(String::from_str("[2/7] Patch device tree...\n"));
    r.push(String::from_str("[3/7] Apply binaries...\n"));
    r.push(String::from_str("[4/7] Create default user...\n"));
    r.push(String::from_str("[5/7] Install startup programs...\n"));
    r.push(String::from_str("[6/7] Generating massflash package for test environment...\n"));
    r.push(String::from_str("[7/7] Generating massflash package for release environment...\n"));
    r
}

/// The log line that announces the patch of a module's device tree.
pub fn patching_line(target: DtbTarget) -> (r: String)
    ensures
        r@ == "Patching"@ + (match target {
            DtbTarget::XavierNx => crate::devicetree::patch::XAVIER_NX_DTB@,
            DtbTarget::OrinNx16Gb => crate::devicetree::patch::ORIN_NX_16GB_DTB@,
            DtbTarget::OrinNx8Gb => crate::devicetree::patch::ORIN_NX_8GB_DTB@,
        }) + "\n"@,
{
    let mut s = String::from_str("Patching");
    s.append(target.dtb_file());
    s.append("\n");
    s
}

pub const TEST_WORKDIR: &'static str = "./test/Linux_for_Tegra";
pub const RELEASE_WORKDIR: &'static str = "./release/Linux_for_Tegra";

/// What the Enter key on the device list does.
#[derive(Clone, Copy, PartialEq, Eq, Structural, Debug)]
pub enum EnterOutcome {
    /// The mode selection dialog opens.
    SelectMode,
    /// A line explains why nothing starts.
    Refused,
    Nothing,
}

impl App {
    /// Starts a flash run on the selected device when that is allowed: the
    /// device is neither being flashed nor done, and its module is one the
    /// flash tool supports. Answers the working directory of the run.
    pub fn flash_device(&mut self, is_for_test: bool) -> (r: Option<&'static str>)
        requires
            old(self).selection_ok(),
        ensures
            match old(self).selection.current {
                UISelection::DeviceList(Some(i)) => {
                    let d = old(self).devlist@[i as int];
                    if !d.is_busy() && d.module_type == JetsonModuleType::OrinNX16GB {
                        &&& r matches Some(w) && w@ == (if is_for_test {
                            TEST_WORKDIR@
                        } else {
                            RELEASE_WORKDIR@
                        })
                        &&& final(self).flash_status == FlashStatus::Flashing
                        &&& final(self).devlist@ == old(self).devlist@.update(
                            i as int,
                            Jetson { status: FlashStatus::Flashing, ..d },
                        )
                    } else {
                        r is None && *final(self) == *old(self)
                    }
                },
                _ => r is None && *final(self) == *old(self),
            },
            final(self).selection == old(self).selection,
            final(self).selection_ok(),
    {
        let index = match self.selected_device_index() {
            Some(i) => i,
            None => {
                return None;
            },
        };
        if self.devlist[index].is_flashed() || self.devlist[index].is_flashing() {
            return None;
        }
        if self.devlist[index].module_type != JetsonModuleType::OrinNX16GB {
            return None;
        }
        self.flash_status = FlashStatus::Flashing;
        self.devlist[index].set_flashing();
        if is_for_test {
            Some(TEST_WORKDIR)
        } else {
            Some(RELEASE_WORKDIR)
        }
    }

    /// The flash worker has ended, with or without success: the run and the
    /// devices being flashed are finished or failed, and the main log says so.
    pub fn flash_worker_finished(&mut self, succeeded: bool)
        ensures
            ({
                let end = if succeeded {
                    FlashStatus::Finished
                } else {
                    FlashStatus::Failed
                };
                &&& final(self).flash_status == (if old(self).flash_status == FlashStatus::Flashing {
                    end
                } else {
                    old(self).flash_status
                })
                &&& final(self).devlist@.len() == old(self).devlist@.len()
                &&& forall|i: int|
                    0 <= i < old(self).devlist@.len() ==> #[trigger] final(self).devlist@[i] == (if old(
                        self,
                    ).devlist@[i].status == FlashStatus::Flashing {
                        Jetson { status: end, ..old(self).devlist@[i] }
                    } else {
                        old(self).devlist@[i]
                    })
            }),
            final(self).main_terminal.log() == keep_recent(
                old(self).main_terminal.log().push(
                    if succeeded {
                        "Flashing complete\n"@
                    } else {
                        "Flashing failed\n"@
                    },
                ),
            ),
            final(self).selection == old(self).selection,
            final(self).install_status == old(self).install_status,
    {
        let end = if succeeded {
            FlashStatus::Finished
        } else {
            FlashStatus::Failed
        };
        if self.flash_status == FlashStatus::Flashing {
            self.flash_status = end;
        }
        let mut i: usize = 0;
        while i < self.devlist.len()
            invariant
                0 <= i <= self.devlist@.len(),
                self.devlist@.len() == old(self).devlist@.len(),
                forall|k: int|
                    0 <= k < i ==> #[trigger] self.devlist@[k] == (if old(self).devlist@[k].status
                        == FlashStatus::Flashing {
                        Jetson { status: end, ..old(self).devlist@[k] }
                    } else {
                        old(self).devlist@[k]
                    }),
                forall|k: int| i <= k < self.devlist@.len() ==> #[trigger] self.devlist@[k] == old(
                    self,
                ).devlist@[k],
                self.selection == old(self).selection,
                self.install_status == old(self).install_status,
                self.main_terminal == old(self).main_terminal,
                self.flash_status == (if old(self).flash_status == FlashStatus::Flashing {
                    end
                } else {
                    old(self).flash_status
                }),
                end == (if succeeded {
                    FlashStatus::Finished
                } else {
                    FlashStatus::Failed
                }),
            decreases self.devlist@.len() - i,
        {
            if self.devlist[i].is_flashing() {
                if succeeded {
                    self.devlist[i].set_flashed();
                } else {
                    self.devlist[i].reset_flashing();
                }
            }
            i += 1;
        }
        if succeeded {
            self.main_terminal.append(String::from_str("Flashing complete\n"));
        } else {
            self.main_terminal.append(String::from_str("Flashing failed\n"));
        }
    }

    /// The operator asks for a flash run from the device list. While the
    /// environment is being installed, while a run is in progress and after
    /// one finished, a line in the main log refuses it; otherwise the mode
    /// selection opens.
    pub fn enter_device_list(&mut self) -> (r: EnterOutcome)
        ensures
            ({
                let refuse = |m: Seq<char>|
                    {
                        &&& r == EnterOutcome::Refused
                        &&& final(self).main_terminal.log() == keep_recent(
                            old(self).main_terminal.log().push(m),
                        )
                        &&& final(self).index == old(self).index
                    };
                if old(self).install_status is Installing {
                    refuse("Please wait for environment setup finished.\n"@)
                } else {
                    match old(self).flash_status {
                        FlashStatus::Wait => if old(self).selection.current is DeviceList {
                            r == EnterOutcome::SelectMode && final(self).index == 1
                                && final(self).main_terminal == old(self).main_terminal
                        } else {
                            r == EnterOutcome::Nothing && *final(self) == *old(self)
                        },
                        FlashStatus::Flashing => refuse("Flashing in progress.\n"@),
                        FlashStatus::Finished => refuse("Please restart program.\n"@),
                        FlashStatus::Failed => r == EnterOutcome::Nothing && *final(self)
                            == *old(self),
                    }
                }
            }),
            final(self).devlist == old(self).devlist,
            final(self).selection == old(self).selection,
            final(self).flash_status == old(self).flash_status,
            final(self).install_status == old(self).install_status,
    {
        if let InstallStatus::Installing(_) = self.install_status {
            self.main_terminal.append(
                String::from_str("Please wait for environment setup finished.\n"),
            );
            return EnterOutcome::Refused;
        }
        match self.flash_status {
            FlashStatus::Wait => {
                if let UISelection::DeviceList(_) = self.selection.current {
                    self.index = 1;
                    EnterOutcome::SelectMode
                } else {
                    EnterOutcome::Nothing
                }
            },
            FlashStatus::Flashing => {
                self.main_terminal.append(String::from_str("Flashing in progress.\n"));
                EnterOutcome::Refused
            },
            FlashStatus::Finished => {
                self.main_terminal.append(String::from_str("Please restart program.\n"));
                EnterOutcome::Refused
            },
            FlashStatus::Failed => EnterOutcome::Nothing,
        }
    }

    /// Whether workspace setup may start: no setup worker runs, the
    /// environment is not ready, and no install was started.
    pub fn may_start_setup(&self, installer_running: bool, env_ready: bool) -> (r: bool)
        ensures
            r == (!installer_running && !env_ready && self.install_status
                == InstallStatus::NotInstalled),
    {
        !installer_running && !env_ready && self.install_status == InstallStatus::NotInstalled
    }
}

} // verus!
