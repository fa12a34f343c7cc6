//! The consumer side: the device inventory, the selection, the status models
//! and the handling of drained signals. One owner mutates all of it.
use vstd::prelude::*;

use std::sync::mpsc::{Receiver, Sender};

use crate::channel::{clone_sender, open_channel, take_queued};
use crate::jetson::{
    FlashStatus, Jetson, JetsonModuleType, Signal, device_line, module_name_of, module_type_of,
};
use crate::logger::{Logger, keep_recent, log_after};
use crate::status::{
    InstallStatus, flash_after, install_after, next_flash, next_flash_status, next_install,
    next_install_status,
};
use crate::text::same_text;
use crate::ui_selection::{UISelection, UISelectionModel};

verus! {

/// What discovery found of one attached module, as plain text fields.
pub struct DeviceDescriptor {
    pub bus: String,
    pub dev: String,
    pub vendor: String,
    pub product: String,
    pub instance: String,
}

/// The devices a refresh keeps: those being flashed or done, in their order.
pub open spec fn retained(s: Seq<Jetson>) -> Seq<Jetson>
    decreases s.len(),
{
    if s.len() == 0 {
        s
    } else if s.last().is_busy() {
        retained(s.drop_last()).push(s.last())
    } else {
        retained(s.drop_last())
    }
}

/// Inventory policy for modules of the family whose product code is not
/// classified further (`JetsonModuleType::Unknown`): they are listed, like
/// classified modules, so the operator sees every attached module of the
/// family. Setting this to `false` leaves them out of the list.
pub const LIST_UNKNOWN_MODULES: bool = true;

/// Whether a refresh lists a descriptor: its code is classified, or it is of
/// the family but unclassified and `LIST_UNKNOWN_MODULES` holds. Codes that
/// are not recognized are never listed.
pub open spec fn is_admitted(d: DeviceDescriptor) -> bool {
    match module_type_of(d.product@) {
        JetsonModuleType::Unrecognized => false,
        JetsonModuleType::Unknown => LIST_UNKNOWN_MODULES,
        _ => true,
    }
}

/// The descriptors a refresh turns into devices, in their order.
pub open spec fn admitted(s: Seq<DeviceDescriptor>) -> Seq<DeviceDescriptor>
    decreases s.len(),
{
    if s.len() == 0 {
        s
    } else if is_admitted(s.last()) {
        admitted(s.drop_last()).push(s.last())
    } else {
        admitted(s.drop_last())
    }
}

/// `j` is the fresh device made from `d`.
pub open spec fn made_from(j: Jetson, d: DeviceDescriptor) -> bool {
    &&& j.bus@ == d.bus@
    &&& j.dev@ == d.dev@
    &&& j.vendor_number@ == d.vendor@
    &&& j.module_number@ == d.product@
    &&& j.instance_number@ == d.instance@
    &&& j.module_type == module_type_of(d.product@)
    &&& j.module_name@ == module_name_of(j.module_type)
    &&& j.ip_v4 is None
    &&& j.status == FlashStatus::Wait
    &&& j.logger matches Some(l) && l.has_channel() && l.name@ == j.module_name@ && l.log()
        == Seq::<Seq<char>>::empty() && l.scroll == 0 && !l.opened
}

/// Index of the first device whose instance identifier is `inst`.
pub open spec fn first_instance_index(s: Seq<Jetson>, inst: Seq<char>) -> Option<int>
    decreases s.len(),
{
    if s.len() == 0 {
        None
    } else if s[0].instance_number@ == inst {
        Some(0)
    } else {
        match first_instance_index(s.subrange(1, s.len() as int), inst) {
            Some(k) => Some(k + 1),
            None => None,
        }
    }
}

pub proof fn lemma_first_instance_index(s: Seq<Jetson>, inst: Seq<char>)
    ensures
        match first_instance_index(s, inst) {
            Some(i) => 0 <= i < s.len() && s[i].instance_number@ == inst && forall|j: int|
                0 <= j < i ==> #[trigger] s[j].instance_number@ != inst,
            None => forall|j: int| 0 <= j < s.len() ==> #[trigger] s[j].instance_number@ != inst,
        },
    decreases s.len(),
{
    if s.len() > 0 {
        let s1 = s.subrange(1, s.len() as int);
        lemma_first_instance_index(s1, inst);
        if s[0].instance_number@ != inst {
            match first_instance_index(s1, inst) {
                Some(k) => {
                    assert(s[k + 1] == s1[k]);
                    assert forall|j: int| 0 <= j < k + 1 implies #[trigger] s[j].instance_number@
                        != inst by {
                        if j > 0 {
                            assert(s[j] == s1[j - 1]);
                        }
                    }
                },
                None => {
                    assert forall|j: int| 0 <= j < s.len() implies #[trigger] s[j].instance_number@
                        != inst by {
                        if j > 0 {
                            assert(s[j] == s1[j - 1]);
                        }
                    }
                },
            }
        }
    }
}

/// Retention: a device that is being flashed or is done before a refresh is,
/// the very same value, in the list after it, whatever the refresh found.
pub proof fn lemma_retention(s: Seq<Jetson>, found: Seq<Jetson>, i: int)
    requires
        0 <= i < s.len(),
        s[i].is_busy(),
    ensures
        exists|j: int| 0 <= j < (retained(s) + found).len() && #[trigger] (retained(s) + found)[j] == s[i],
    decreases s.len(),
{
    let r = retained(s);
    if i == s.len() - 1 {
        assert(r == retained(s.drop_last()).push(s.last()));
        assert((r + found)[r.len() - 1] == s[i]);
    } else {
        let s1 = s.drop_last();
        assert(s1[i] == s[i]);
        lemma_retention(s1, Seq::empty(), i);
        let j = choose|j: int| 0 <= j < (retained(s1) + Seq::<Jetson>::empty()).len() && #[trigger] (
        retained(s1) + Seq::<Jetson>::empty())[j] == s1[i];
        assert((retained(s1) + Seq::<Jetson>::empty())[j] == retained(s1)[j]);
        if s.last().is_busy() {
            assert(r[j] == retained(s1)[j]);
        }
        assert((r + found)[j] == r[j]);
    }
}

pub struct App {
    pub titles: Vec<&'static str>,
    pub index: usize,
    pub selection: UISelectionModel,
    pub devlist: Vec<Jetson>,
    pub main_terminal: Logger,
    pub refreshing: bool,
    pub install_status: InstallStatus,
    pub flash_status: FlashStatus,
    pub tx: Sender<Signal>,
    pub rx: Receiver<Signal>,
}

impl App {
    /// The selection points at a device that exists, if at any.
    pub open spec fn selection_ok(&self) -> bool {
        self.selection.current matches UISelection::DeviceList(Some(i)) ==> i < self.devlist.len()
    }

    pub fn new() -> (r: App)
        ensures
            r.index == 0,
            r.selection == (UISelectionModel {
                focused: UISelection::DeviceList(None),
                current: UISelection::DeviceList(None),
            }),
            r.devlist@.len() == 0,
            r.main_terminal.name@ == "Main"@,
            r.main_terminal.log() == Seq::<Seq<char>>::empty(),
            !r.refreshing,
            r.install_status == InstallStatus::NotInstalled,
            r.flash_status == FlashStatus::Wait,
            r.selection_ok(),
    {
        let (tx, rx) = open_channel();
        let mut titles: Vec<&'static str> = Vec::new();
        titles.push("Main");
        titles.push("ModeSelect");
        titles.push("Quit");
        App {
            titles,
            index: 0,
            selection: UISelectionModel {
                focused: UISelection::DeviceList(None),
                current: UISelection::DeviceList(None),
            },
            devlist: Vec::new(),
            main_terminal: Logger::new("Main"),
            refreshing: false,
            install_status: InstallStatus::NotInstalled,
            flash_status: FlashStatus::Wait,
            tx,
            rx,
        }
    }

    pub fn selected_device_index(&self) -> (r: Option<usize>)
        ensures
            r == match self.selection.current {
                UISelection::DeviceList(Some(i)) => Some(i),
                _ => None,
            },
    {
        if let UISelection::DeviceList(Some(index)) = self.selection.current {
            return Some(index);
        }
        None
    }

    /// A sending end of the signal bus.
    pub fn create_new_publisher(&self) -> Sender<Signal> {
        clone_sender(&self.tx)
    }

    pub fn has_flashing_device(&self) -> (r: bool)
        ensures
            r == exists|i: int|
                0 <= i < self.devlist@.len() && #[trigger] self.devlist@[i].status
                    == FlashStatus::Flashing,
    {
        let mut i: usize = 0;
        while i < self.devlist.len()
            invariant
                0 <= i <= self.devlist@.len(),
                forall|j: int| 0 <= j < i ==> #[trigger] self.devlist@[j].status != FlashStatus::Flashing,
            decreases self.devlist@.len() - i,
        {
            if self.devlist[i].is_flashing() {
                return true;
            }
            i += 1;
        }
        false
    }

    /// Moves the selection to the next device, wrapping to the first.
    pub fn next_device(&mut self) -> (r: Option<usize>)
        ensures
            match old(self).selection.current {
                UISelection::DeviceList(Some(i)) => {
                    let n = if i + 1 >= old(self).devlist@.len() {
                        0
                    } else {
                        i + 1
                    };
                    &&& r == Some(n as usize)
                    &&& final(self).selection == (UISelectionModel {
                        focused: old(self).selection.focused,
                        current: UISelection::DeviceList(Some(n as usize)),
                    })
                },
                _ => r is None && final(self).selection == old(self).selection,
            },
            final(self).devlist == old(self).devlist,
            final(self).flash_status == old(self).flash_status,
            final(self).install_status == old(self).install_status,
            old(self).devlist@.len() > 0 ==> final(self).selection_ok(),
    {
        if let UISelection::DeviceList(Some(index)) = self.selection.current {
            let len = self.devlist.len();
            if len == 0 || index >= len - 1 {
                self.select(
                    UISelectionModel {
                        focused: self.selection.focused,
                        current: UISelection::DeviceList(Some(0)),
                    },
                );
                return Some(0);
            } else {
                self.select(
                    UISelectionModel {
                        focused: self.selection.focused,
                        current: UISelection::DeviceList(Some(index + 1)),
                    },
                );
                return Some(index + 1);
            }
        }
        None
    }

    /// Moves the selection to the previous device, wrapping to the last.
    pub fn previous_device(&mut self) -> (r: Option<usize>)
        requires
            old(self).selection_ok(),
        ensures
            match old(self).selection.current {
                UISelection::DeviceList(Some(i)) => {
                    let n = if i == 0 {
                        old(self).devlist@.len() - 1
                    } else {
                        i - 1
                    };
                    &&& r == Some(n as usize)
                    &&& final(self).selection == (UISelectionModel {
                        focused: old(self).selection.focused,
                        current: UISelection::DeviceList(Some(n as usize)),
                    })
                },
                _ => r is None && final(self).selection == old(self).selection,
            },
            final(self).devlist == old(self).devlist,
            final(self).flash_status == old(self).flash_status,
            final(self).install_status == old(self).install_status,
            final(self).selection_ok(),
    {
        if let UISelection::DeviceList(Some(index)) = self.selection.current {
            if index == 0 {
                let last = self.devlist.len() - 1;
                self.select(
                    UISelectionModel {
                        focused: self.selection.focused,
                        current: UISelection::DeviceList(Some(last)),
                    },
                );
                return Some(last);
            } else {
                self.select(
                    UISelectionModel {
                        focused: self.selection.focused,
                        current: UISelection::DeviceList(Some(index - 1)),
                    },
                );
                return Some(index - 1);
            }
        }
        None
    }

    /// The first device whose instance identifier is `instance_number`.
    pub fn get_device_from_instance_number(&mut self, instance_number: &str) -> (r: Option<
        &mut Jetson,
    >)
        ensures
            match r {
                Some(d) => {
                    &&& first_instance_index(old(self).devlist@, instance_number@) matches Some(i)
                    &&& *d == old(self).devlist@[i]
                    &&& final(self).devlist@ == old(self).devlist@.update(i, *final(d))
                    &&& final(self).selection == old(self).selection
                    &&& final(self).flash_status == old(self).flash_status
                    &&& final(self).install_status == old(self).install_status
                },
                None => {
                    &&& first_instance_index(old(self).devlist@, instance_number@) is None
                    &&& *final(self) == *old(self)
                },
            },
    {
        let mut i: usize = 0;
        while i < self.devlist.len()
            invariant
                0 <= i <= self.devlist@.len(),
                *self == *old(self),
                forall|j: int|
                    0 <= j < i ==> #[trigger] self.devlist@[j].instance_number@ != instance_number@,
            decreases self.devlist@.len() - i,
        {
            if same_text(self.devlist[i].instance_number.as_str(), instance_number) {
                proof {
                    lemma_first_instance_index(self.devlist@, instance_number@);
                }
                return Some(&mut self.devlist[i]);
            }
            i += 1;
        }
        proof {
            lemma_first_instance_index(self.devlist@, instance_number@);
        }
        None
    }

    /// Drops every device that is neither being flashed nor done, keeping the
    /// order of the others.
    pub fn clear_devlist(&mut self)
        ensures
            final(self).devlist@ == retained(old(self).devlist@),
            final(self).selection == old(self).selection,
            final(self).flash_status == old(self).flash_status,
            final(self).install_status == old(self).install_status,
            final(self).main_terminal == old(self).main_terminal,
            final(self).index == old(self).index,
            final(self).titles == old(self).titles,
            final(self).refreshing == old(self).refreshing,
            final(self).tx == old(self).tx,
            final(self).rx == old(self).rx,
    {
        let mut rest: Vec<Jetson> = Vec::new();
        std::mem::swap(&mut rest, &mut self.devlist);
        let ghost orig = rest@;
        let mut kept_rev: Vec<Jetson> = Vec::new();
        assert(orig.subrange(0, orig.len() as int) =~= orig);
        while rest.len() > 0
            invariant
                self.devlist@.len() == 0,
                rest@ == orig.subrange(0, rest@.len() as int),
                rest@.len() <= orig.len(),
                retained(orig) == retained(rest@) + kept_rev@.reverse(),
                self.selection == old(self).selection,
                self.flash_status == old(self).flash_status,
                self.install_status == old(self).install_status,
                self.main_terminal == old(self).main_terminal,
                self.index == old(self).index,
                self.titles == old(self).titles,
                self.refreshing == old(self).refreshing,
                self.tx == old(self).tx,
                self.rx == old(self).rx,
            decreases rest@.len(),
        {
            let ghost before = rest@;
            let ghost kb = kept_rev@;
            let item = rest.pop().unwrap();
            assert(before.drop_last() =~= rest@);
            assert(before.last() == item);
            if item.is_flashed() || item.is_flashing() {
                kept_rev.push(item);
                assert(kept_rev@.reverse() =~= seq![item] + kb.reverse());
                assert(retained(before) + kb.reverse() =~= retained(rest@) + kept_rev@.reverse());
            }
            assert(rest@ =~= orig.subrange(0, rest@.len() as int));
        }
        assert(retained(rest@) == Seq::<Jetson>::empty());
        assert(retained(orig) =~= kept_rev@.reverse());
        while kept_rev.len() > 0
            invariant
                self.devlist@ + kept_rev@.reverse() == retained(orig),
                self.selection == old(self).selection,
                self.flash_status == old(self).flash_status,
                self.install_status == old(self).install_status,
                self.main_terminal == old(self).main_terminal,
                self.index == old(self).index,
                self.titles == old(self).titles,
                self.refreshing == old(self).refreshing,
                self.tx == old(self).tx,
                self.rx == old(self).rx,
            decreases kept_rev@.len(),
        {
            let ghost kb = kept_rev@;
            let ghost db = self.devlist@;
            let item = kept_rev.pop().unwrap();
            assert(kb.reverse() =~= seq![item] + kept_rev@.reverse());
            self.devlist.push(item);
            assert(db + kb.reverse() =~= self.devlist@ + kept_rev@.reverse());
        }
        assert(self.devlist@ + kept_rev@.reverse() =~= self.devlist@);
    }

    pub fn select(&mut self, new: UISelectionModel)
        ensures
            *final(self) == (App { selection: new, ..*old(self) }),
    {
        self.selection = new;
    }

    pub fn change_focused(&mut self, focused: UISelection)
        ensures
            *final(self) == (App {
                selection: UISelectionModel { focused, current: old(self).selection.current },
                ..*old(self)
            }),
    {
        self.selection.focused = focused;
    }

    pub fn change_current(&mut self, current: UISelection)
        ensures
            *final(self) == (App {
                selection: UISelectionModel { focused: old(self).selection.focused, current },
                ..*old(self)
            }),
    {
        self.selection.current = current;
    }

    /// The lines of the device list, each with whether it is the selected one.
    pub fn list(&self) -> (r: Vec<(String, bool)>)
        ensures
            r@.len() == self.devlist@.len(),
            forall|i: int|
                0 <= i < r@.len() ==> {
                    let d = #[trigger] self.devlist@[i];
                    &&& r@[i].0@ == device_line(
                        d.module_name@,
                        d.bus@,
                        d.dev@,
                        d.vendor_number@,
                        d.module_number@,
                    )
                    &&& r@[i].1 == (self.selection.current == UISelection::DeviceList(
                        Some(i as usize),
                    ))
                },
    {
        let mut r: Vec<(String, bool)> = Vec::new();
        let mut i: usize = 0;
        while i < self.devlist.len()
            invariant
                0 <= i <= self.devlist@.len(),
                r@.len() == i,
                forall|k: int|
                    0 <= k < i ==> {
                        let d = #[trigger] self.devlist@[k];
                        &&& r@[k].0@ == device_line(
                            d.module_name@,
                            d.bus@,
                            d.dev@,
                            d.vendor_number@,
                            d.module_number@,
                        )
                        &&& r@[k].1 == (self.selection.current == UISelection::DeviceList(
                            Some(k as usize),
                        ))
                    },
            decreases self.devlist@.len() - i,
        {
            let line = self.devlist[i].to_string();
            let highlighted = match self.selection.current {
                UISelection::DeviceList(Some(sel)) => sel == i,
                _ => false,
            };
            r.push((line, highlighted));
            i += 1;
        }
        r
    }

    /// Re-runs the inventory on what discovery found: keeps the devices being
    /// flashed or done, then adds a fresh device for each descriptor of the
    /// family, in order (see `is_admitted`). When no device was selected, or
    /// the selected one is gone, a non-empty list selects its first device; an
    /// empty list keeps the selection, except that a device index, which would
    /// point at nothing, becomes no index.
    pub fn refresh_devlist(&mut self, found: Vec<DeviceDescriptor>)
        ensures
            ({
                let kept = retained(old(self).devlist@);
                let fresh = admitted(found@);
                &&& final(self).devlist@.len() == kept.len() + fresh.len()
                &&& final(self).devlist@.subrange(0, kept.len() as int) == kept
                &&& forall|k: int|
                    0 <= k < fresh.len() ==> made_from(
                        #[trigger] final(self).devlist@[kept.len() + k],
                        fresh[k],
                    )
            }),
            final(self).selection_ok(),
            ({
                let n = final(self).devlist@.len();
                let had = old(self).selection.current matches UISelection::DeviceList(Some(i)) && i
                    < n;
                &&& had ==> final(self).selection == old(self).selection
                &&& !had && n > 0 ==> final(self).selection == (UISelectionModel {
                    focused: UISelection::DeviceList(None),
                    current: UISelection::DeviceList(Some(0)),
                })
                &&& !had && n == 0 ==> final(self).selection == (if old(
                    self,
                ).selection.current is DeviceList {
                    UISelectionModel {
                        focused: old(self).selection.focused,
                        current: UISelection::DeviceList(None),
                    }
                } else {
                    old(self).selection
                })
            }),
            final(self).flash_status == old(self).flash_status,
            final(self).install_status == old(self).install_status,
    {
        self.clear_devlist();
        let ghost kept = self.devlist@;
        let mut i: usize = 0;
        assert(found@.subrange(0, 0) =~= Seq::<DeviceDescriptor>::empty());
        assert(self.devlist@.subrange(0, kept.len() as int) =~= kept);
        while i < found.len()
            invariant
                0 <= i <= found.len(),
                kept == retained(old(self).devlist@),
                self.devlist@.len() == kept.len() + admitted(found@.subrange(0, i as int)).len(),
                self.devlist@.subrange(0, kept.len() as int) == kept,
                forall|k: int|
                    0 <= k < admitted(found@.subrange(0, i as int)).len() ==> made_from(
                        #[trigger] self.devlist@[kept.len() + k],
                        admitted(found@.subrange(0, i as int))[k],
                    ),
                self.flash_status == old(self).flash_status,
                self.install_status == old(self).install_status,
                self.selection == old(self).selection,
            decreases found.len() - i,
        {
            let d = &found[i];
            let ghost pre = found@.subrange(0, i as int);
            assert(found@.subrange(0, i + 1).drop_last() =~= pre);
            assert(found@.subrange(0, i + 1).last() == *d);
            let j = Jetson::new(
                d.bus.as_str(),
                d.dev.as_str(),
                d.vendor.as_str(),
                d.product.as_str(),
                d.instance.as_str(),
            );
            let ghost before = self.devlist@;
            let listed = match j.module_type {
                JetsonModuleType::Unrecognized => false,
                JetsonModuleType::Unknown => LIST_UNKNOWN_MODULES,
                _ => true,
            };
            if listed {
                self.devlist.push(j);
                assert(self.devlist@.subrange(0, kept.len() as int) =~= before.subrange(
                    0,
                    kept.len() as int,
                ));
                assert forall|k: int|
                    0 <= k < admitted(found@.subrange(0, i + 1)).len() implies made_from(
                    #[trigger] self.devlist@[kept.len() + k],
                    admitted(found@.subrange(0, i + 1))[k],
                ) by {
                    if k < admitted(pre).len() {
                        assert(self.devlist@[kept.len() + k] == before[kept.len() + k]);
                    }
                }
            }
            i += 1;
        }
        assert(found@.subrange(0, found@.len() as int) =~= found@);
        let len = self.devlist.len();
        let had = match self.selection.current {
            UISelection::DeviceList(Some(sel)) => sel < len,
            _ => false,
        };
        if !had {
            if len > 0 {
                self.selection = UISelectionModel {
                    focused: UISelection::DeviceList(None),
                    current: UISelection::DeviceList(Some(0)),
                };
            } else if let UISelection::DeviceList(Some(_)) = self.selection.current {
                self.selection.current = UISelection::DeviceList(None);
            }
        }
    }

    /// Applies one drained signal: a log line goes to the main log, the other
    /// kinds drive the install and flash status machines.
    pub fn handle_signal(&mut self, sig: Signal)
        ensures
            final(self).install_status == next_install(old(self).install_status, sig),
            final(self).flash_status == next_flash(old(self).flash_status, sig),
            final(self).main_terminal.log() == match sig {
                Signal::Message(m) => keep_recent(old(self).main_terminal.log().push(m@)),
                _ => old(self).main_terminal.log(),
            },
            final(self).main_terminal.name == old(self).main_terminal.name,
            final(self).main_terminal.rx == old(self).main_terminal.rx,
            final(self).main_terminal.tx == old(self).main_terminal.tx,
            final(self).devlist == old(self).devlist,
            final(self).selection == old(self).selection,
    {
        self.install_status = next_install_status(self.install_status, &sig);
        self.flash_status = next_flash_status(self.flash_status, &sig);
        if let Signal::Message(m) = sig {
            self.main_terminal.append(m);
        }
    }

    /// Applies the signals in order: each message goes to the main log, the
    /// other kinds drive the install and flash status machines.
    pub fn apply_signals(&mut self, sigs: Vec<Signal>)
        ensures
            final(self).install_status == install_after(old(self).install_status, sigs@),
            final(self).flash_status == flash_after(old(self).flash_status, sigs@),
            final(self).main_terminal.log() == log_after(old(self).main_terminal.log(), sigs@),
            final(self).main_terminal.name == old(self).main_terminal.name,
            final(self).main_terminal.rx == old(self).main_terminal.rx,
            final(self).main_terminal.tx == old(self).main_terminal.tx,
            final(self).devlist == old(self).devlist,
            final(self).selection == old(self).selection,
    {
        let mut sigs = sigs;
        let ghost all = sigs@;
        let ghost mut k: int = 0;
        assert(all.subrange(0, 0) =~= Seq::<Signal>::empty());
        assert(all.subrange(0, all.len() as int) =~= all);
        while sigs.len() > 0
            invariant
                0 <= k <= all.len(),
                sigs@ == all.subrange(k, all.len() as int),
                self.install_status == install_after(old(self).install_status, all.subrange(0, k)),
                self.flash_status == flash_after(old(self).flash_status, all.subrange(0, k)),
                self.main_terminal.log() == log_after(
                    old(self).main_terminal.log(),
                    all.subrange(0, k),
                ),
                self.main_terminal.name == old(self).main_terminal.name,
                self.main_terminal.rx == old(self).main_terminal.rx,
                self.main_terminal.tx == old(self).main_terminal.tx,
                self.devlist == old(self).devlist,
                self.selection == old(self).selection,
            decreases sigs@.len(),
        {
            let sig = sigs.remove(0);
            proof {
                assert(sig == all[k]);
                assert(all.subrange(0, k + 1).drop_last() =~= all.subrange(0, k));
                assert(all.subrange(0, k + 1).last() == all[k]);
                assert(sigs@ =~= all.subrange(k + 1, all.len() as int));
                k = k + 1;
            }
            self.handle_signal(sig);
        }
    }

    /// Takes every signal queued on the bus now, without waiting, and applies
    /// them in order as `apply_signals` does.
    pub fn drain_signals(&mut self)
        ensures
            exists|sigs: Seq<Signal>|
                {
                    &&& final(self).install_status == #[trigger] install_after(
                        old(self).install_status,
                        sigs,
                    )
                    &&& final(self).flash_status == flash_after(old(self).flash_status, sigs)
                    &&& final(self).main_terminal.log() == log_after(
                        old(self).main_terminal.log(),
                        sigs,
                    )
                },
            final(self).devlist == old(self).devlist,
            final(self).selection == old(self).selection,
    {
        let sigs = take_queued(&self.rx);
        let ghost all = sigs@;
        self.apply_signals(sigs);
        assert(install_after(old(self).install_status, all) == self.install_status);
    }
}

} // verus!
