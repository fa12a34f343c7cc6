//! The install and flash status machines, driven only by drained signals.
use vstd::prelude::*;

use crate::jetson::{FlashStatus, Signal};

verus! {

#[derive(Clone, Copy, PartialEq, Eq, Structural, Debug)]
pub enum InstallStatus {
    NotInstalled,
    /// Setup started at this many milliseconds since the Unix epoch.
    Installing(u64),
    Installed,
}

/// Position of a status in the order NotInstalled, Installing, Installed.
pub open spec fn install_rank(s: InstallStatus) -> nat {
    match s {
        InstallStatus::NotInstalled => 0,
        InstallStatus::Installing(_) => 1,
        InstallStatus::Installed => 2,
    }
}

pub open spec fn next_install(s: InstallStatus, sig: Signal) -> InstallStatus {
    match sig {
        Signal::EnvironmentInstalling(t) => match s {
            InstallStatus::Installed => s,
            _ => InstallStatus::Installing(t),
        },
        Signal::EnvironmentInstalled => InstallStatus::Installed,
        _ => s,
    }
}

/// The install status after the signals, in order.
pub open spec fn install_after(s: InstallStatus, sigs: Seq<Signal>) -> InstallStatus
    decreases sigs.len(),
{
    if sigs.len() == 0 {
        s
    } else {
        next_install(install_after(s, sigs.drop_last()), sigs.last())
    }
}

/// `EnvironmentInstalling(t)` starts an install unless one has finished;
/// `EnvironmentInstalled` finishes it; other signals leave it as it is.
pub fn next_install_status(s: InstallStatus, sig: &Signal) -> (r: InstallStatus)
    ensures
        r == next_install(s, *sig),
{
    match sig {
        Signal::EnvironmentInstalling(t) => match s {
            InstallStatus::Installed => s,
            _ => InstallStatus::Installing(*t),
        },
        Signal::EnvironmentInstalled => InstallStatus::Installed,
        _ => s,
    }
}

/// Status monotonicity: along any sequence of signals, the install status only
/// moves forward in the order NotInstalled, Installing, Installed.
pub proof fn lemma_install_monotone(s: InstallStatus, sigs: Seq<Signal>, i: int, j: int)
    requires
        0 <= i <= j <= sigs.len(),
    ensures
        install_rank(install_after(s, sigs.subrange(0, i))) <= install_rank(
            install_after(s, sigs.subrange(0, j)),
        ),
    decreases j - i,
{
    if i < j {
        lemma_install_monotone(s, sigs, i, j - 1);
        let p = sigs.subrange(0, j);
        assert(p.drop_last() =~= sigs.subrange(0, j - 1));
    }
}

pub open spec fn next_flash(s: FlashStatus, sig: Signal) -> FlashStatus {
    match s {
        FlashStatus::Finished | FlashStatus::Failed => s,
        FlashStatus::Wait => match sig {
            Signal::Flashing => FlashStatus::Flashing,
            _ => s,
        },
        FlashStatus::Flashing => match sig {
            Signal::FlashFail => FlashStatus::Failed,
            Signal::FlashSuccess => FlashStatus::Finished,
            _ => s,
        },
    }
}

/// The flash status after the signals, in order.
pub open spec fn flash_after(s: FlashStatus, sigs: Seq<Signal>) -> FlashStatus
    decreases sigs.len(),
{
    if sigs.len() == 0 {
        s
    } else {
        next_flash(flash_after(s, sigs.drop_last()), sigs.last())
    }
}

/// `Flashing` starts a run from the rest state; an explicit failure or success
/// ends a run in progress; `Finished` and `Failed` stay until a reset.
pub fn next_flash_status(s: FlashStatus, sig: &Signal) -> (r: FlashStatus)
    ensures
        r == next_flash(s, *sig),
{
    match s {
        FlashStatus::Finished | FlashStatus::Failed => s,
        FlashStatus::Wait => match sig {
            Signal::Flashing => FlashStatus::Flashing,
            _ => s,
        },
        FlashStatus::Flashing => match sig {
            Signal::FlashFail => FlashStatus::Failed,
            Signal::FlashSuccess => FlashStatus::Finished,
            _ => s,
        },
    }
}

/// The worker of a run has ended: a run in progress is finished.
pub fn flash_worker_done(s: FlashStatus) -> (r: FlashStatus)
    ensures
        r == (if s == FlashStatus::Flashing {
            FlashStatus::Finished
        } else {
            s
        }),
{
    if s == FlashStatus::Flashing {
        FlashStatus::Finished
    } else {
        s
    }
}

} // verus!
