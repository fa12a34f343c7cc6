//! Attached modules: identity derived from the USB product code, the
//! per-device flash status and log, and the signals workers send.
use vstd::prelude::*;

use std::sync::mpsc::Sender;

use crate::logger::{Logger, keep_recent};
use crate::text::same_text;

verus! {

#[derive(Clone, Copy, PartialEq, Eq, Structural, Debug)]
pub enum JetsonModuleType {
    OrinNX16GB,
    OrinNX8GB,
    OrinNano8GB,
    OrinNano4GB,
    XavierNX,
    /// A code of the family that is not classified further.
    Unknown,
    /// A code that is not recognized.
    Unrecognized,
}

/// Events a worker sends to the consumer loop.
#[derive(Clone, PartialEq, Eq, Debug)]
pub enum Signal {
    /// One line of log text.
    Message(String),
    FlashFail,
    FlashSuccess,
    FlashPass,
    Flashing,
    /// Environment setup started, at this many milliseconds since the Unix epoch.
    EnvironmentInstalling(u64),
    EnvironmentPass,
    EnvironmentInstalled,
}

#[derive(Clone, Copy, PartialEq, Eq, Structural, Debug)]
pub enum FlashStatus {
    Wait,
    Flashing,
    Finished,
    Failed,
}

pub struct Jetson {
    pub bus: String,
    pub dev: String,
    pub vendor_number: String,
    pub module_number: String,
    pub module_name: String,
    pub module_type: JetsonModuleType,
    pub instance_number: String,
    pub ip_v4: Option<String>,
    pub logger: Option<Logger>,
    pub status: FlashStatus,
}

/// The fixed table from USB product code to module type.
pub open spec fn module_type_of(code: Seq<char>) -> JetsonModuleType {
    if code == "7323"@ {
        JetsonModuleType::OrinNX16GB
    } else if code == "7423"@ {
        JetsonModuleType::OrinNX8GB
    } else if code == "7e19"@ {
        JetsonModuleType::XavierNX
    } else if code == "7523"@ {
        JetsonModuleType::OrinNano8GB
    } else if code == "7623"@ {
        JetsonModuleType::OrinNano4GB
    } else if code == "7023"@ || code == "7223"@ || code == "7019"@ {
        JetsonModuleType::Unknown
    } else {
        JetsonModuleType::Unrecognized
    }
}

pub open spec fn module_name_of(t: JetsonModuleType) -> Seq<char> {
    match t {
        JetsonModuleType::OrinNX16GB => "Jetson Orin NX 16GB"@,
        JetsonModuleType::OrinNX8GB => "Jetson Orin NX 8GB"@,
        JetsonModuleType::OrinNano8GB => "Jetson Orin Nano 8GB"@,
        JetsonModuleType::OrinNano4GB => "Jetson Orin Nano 4GB"@,
        JetsonModuleType::XavierNX => "Jetson Xavier NX"@,
        _ => "Unknown USB Device"@,
    }
}

/// Derives the module type from a product code.
pub fn module_type_from_code(code: &str) -> (r: JetsonModuleType)
    ensures
        r == module_type_of(code@),
{
    if same_text(code, "7323") {
        JetsonModuleType::OrinNX16GB
    } else if same_text(code, "7423") {
        JetsonModuleType::OrinNX8GB
    } else if same_text(code, "7e19") {
        JetsonModuleType::XavierNX
    } else if same_text(code, "7523") {
        JetsonModuleType::OrinNano8GB
    } else if same_text(code, "7623") {
        JetsonModuleType::OrinNano4GB
    } else if same_text(code, "7023") || same_text(code, "7223") || same_text(code, "7019") {
        JetsonModuleType::Unknown
    } else {
        JetsonModuleType::Unrecognized
    }
}

fn module_name_str(t: JetsonModuleType) -> (r: &'static str)
    ensures
        r@ == module_name_of(t),
{
    match t {
        JetsonModuleType::OrinNX16GB => "Jetson Orin NX 16GB",
        JetsonModuleType::OrinNX8GB => "Jetson Orin NX 8GB",
        JetsonModuleType::OrinNano8GB => "Jetson Orin Nano 8GB",
        JetsonModuleType::OrinNano4GB => "Jetson Orin Nano 4GB",
        JetsonModuleType::XavierNX => "Jetson Xavier NX",
        _ => "Unknown USB Device",
    }
}

/// The line that lists a device.
pub open spec fn device_line(name: Seq<char>, bus: Seq<char>, dev: Seq<char>, vendor: Seq<char>, module: Seq<char>) -> Seq<char> {
    name + " (Bus "@ + bus + " Device "@ + dev + ": ID "@ + vendor + ":"@ + module + ")"@
}

impl Jetson {
    /// Whether a refresh must keep this device: it is being flashed or is done.
    pub open spec fn is_busy(&self) -> bool {
        self.status == FlashStatus::Flashing || self.status == FlashStatus::Finished
    }

    pub fn new(
        bus: &str,
        dev: &str,
        vendor_number: &str,
        module_number: &str,
        instance_number: &str,
    ) -> (r: Jetson)
        ensures
            r.bus@ == bus@,
            r.dev@ == dev@,
            r.vendor_number@ == vendor_number@,
            r.module_number@ == module_number@,
            r.instance_number@ == instance_number@,
            r.module_type == module_type_of(module_number@),
            r.module_name@ == module_name_of(r.module_type),
            r.ip_v4 is None,
            r.status == FlashStatus::Wait,
            r.logger matches Some(l) && l.name@ == r.module_name@ && l.has_channel() && l.log()
                == Seq::<Seq<char>>::empty() && l.scroll == 0 && !l.opened,
    {
        let mut ret = Jetson {
            bus: String::from_str(bus),
            dev: String::from_str(dev),
            vendor_number: String::from_str(vendor_number),
            module_number: String::from_str(module_number),
            module_name: String::new(),
            module_type: JetsonModuleType::Unrecognized,
            instance_number: String::from_str(instance_number),
            ip_v4: None,
            logger: None,
            status: FlashStatus::Wait,
        };
        let t = module_type_from_code(module_number);
        ret.set_module_type(t);
        let mut logger = Logger::new(ret.module_name.as_str());
        logger.init();
        ret.logger = Some(logger);
        ret
    }

    pub fn set_module_type(&mut self, module_type: JetsonModuleType)
        ensures
            final(self).module_type == module_type,
            final(self).module_name@ == module_name_of(module_type),
            final(self).bus == old(self).bus,
            final(self).dev == old(self).dev,
            final(self).vendor_number == old(self).vendor_number,
            final(self).module_number == old(self).module_number,
            final(self).instance_number == old(self).instance_number,
            final(self).ip_v4 == old(self).ip_v4,
            final(self).logger == old(self).logger,
            final(self).status == old(self).status,
    {
        self.module_type = module_type;
        self.module_name = String::from_str(module_name_str(module_type));
    }

    /// `name (Bus b Device d: ID vendor:module)`.
    pub fn to_string(&self) -> (r: String)
        ensures
            r@ == device_line(
                self.module_name@,
                self.bus@,
                self.dev@,
                self.vendor_number@,
                self.module_number@,
            ),
    {
        let mut s = self.module_name.clone();
        s.append(" (Bus ");
        s.append(self.bus.as_str());
        s.append(" Device ");
        s.append(self.dev.as_str());
        s.append(": ID ");
        s.append(self.vendor_number.as_str());
        s.append(":");
        s.append(self.module_number.as_str());
        s.append(")");
        s
    }

    /// Marks the flash as failed.
    pub fn reset_flashing(&mut self)
        ensures
            *final(self) == (Jetson { status: FlashStatus::Failed, ..*old(self) }),
    {
        self.status = FlashStatus::Failed;
    }

    pub fn set_flashing(&mut self)
        ensures
            *final(self) == (Jetson { status: FlashStatus::Flashing, ..*old(self) }),
    {
        self.status = FlashStatus::Flashing;
    }

    /// Back to the rest state, ready for a new run.
    pub fn reset_flashed(&mut self)
        ensures
            *final(self) == (Jetson { status: FlashStatus::Wait, ..*old(self) }),
    {
        self.status = FlashStatus::Wait;
    }

    pub fn set_flashed(&mut self)
        ensures
            *final(self) == (Jetson { status: FlashStatus::Finished, ..*old(self) }),
    {
        self.status = FlashStatus::Finished;
    }

    pub fn is_flashing(&self) -> (r: bool)
        ensures
            r == (self.status == FlashStatus::Flashing),
    {
        self.status == FlashStatus::Flashing
    }

    pub fn is_flashed(&self) -> (r: bool)
        ensures
            r == (self.status == FlashStatus::Finished),
    {
        self.status == FlashStatus::Finished
    }

    /// Marks the device's log closed; everything else stays.
    pub fn close_logger(&mut self)
        requires
            old(self).logger is Some,
        ensures
            *final(self) == (Jetson {
                logger: Some(Logger { opened: false, ..old(self).logger->0 }),
                ..*old(self)
            }),
    {
        if let Some(l) = &mut self.logger {
            l.close();
        }
    }

    /// Replaces the log by a new, empty, closed one named `name`, with its own
    /// channel; the old log and what was queued on it are dropped.
    pub fn open_logger(&mut self, name: &str)
        ensures
            final(self).logger matches Some(l) && l.name@ == name@ && l.has_channel() && l.log()
                == Seq::<Seq<char>>::empty() && l.scroll == 0 && !l.opened,
            *final(self) == (Jetson { logger: final(self).logger, ..*old(self) }),
    {
        let mut l = Logger::new(name);
        l.init();
        self.logger = Some(l);
    }

    /// A sending end that feeds this device's log.
    pub fn create_new_publisher(&mut self) -> (r: Sender<String>)
        requires
            old(self).logger matches Some(l) && l.has_channel(),
        ensures
            *final(self) == *old(self),
    {
        match &mut self.logger {
            Some(l) => l.create_new_publisher(),
            None => {
                proof {
                    assert(false);
                }
                crate::channel::open_channel().0
            },
        }
    }

    /// The text of this device's log, after taking what is queued.
    pub fn get_logger_output(&mut self) -> (r: &str)
        requires
            old(self).logger matches Some(l) && l.has_channel(),
        ensures
            final(self).logger matches Some(l) && {
                let o = old(self).logger->0;
                &&& r@ == crate::logger::joined(l.log())
                &&& exists|inc: Seq<Seq<char>>| l.log() == keep_recent(o.log() + inc)
                &&& l.log().len() <= crate::logger::LOG_CAPACITY
                &&& l.rx == o.rx && l.tx == o.tx && l.name == o.name
                &&& l.opened == o.opened && l.scroll == o.scroll
            },
            *final(self) == (Jetson { logger: final(self).logger, ..*old(self) }),
    {
        match &mut self.logger {
            Some(l) => l.output(),
            None => {
                proof {
                    assert(false);
                }
                ""
            },
        }
    }

    /// Empties the device's log; lines still queued on its channel stay there.
    pub fn clear_logger_buffer(&mut self)
        requires
            old(self).logger is Some,
        ensures
            final(self).logger matches Some(l) && {
                let o = old(self).logger->0;
                &&& l.log() == Seq::<Seq<char>>::empty()
                &&& l.buffer@ == Seq::<char>::empty()
                &&& l.rx == o.rx && l.tx == o.tx && l.name == o.name
                &&& l.opened == o.opened && l.scroll == o.scroll
            },
            *final(self) == (Jetson { logger: final(self).logger, ..*old(self) }),
    {
        if let Some(l) = &mut self.logger {
            l.clear();
        }
    }
}

} // verus!
