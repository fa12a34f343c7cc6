//! Which part of the console has the focus and which is shown.
use vstd::prelude::*;

verus! {

#[derive(PartialEq, Eq, Clone, Copy, Structural, Debug)]
pub enum UISelection {
    Main,
    /// The device list, with the index of the selected device if there is one.
    DeviceList(Option<usize>),
    MainTerminal,
    FlashTerminal,
    SelectMode,
    Quit,
}

#[derive(PartialEq, Eq, Clone, Copy, Structural, Debug)]
pub struct UISelectionModel {
    pub focused: UISelection,
    pub current: UISelection,
}

} // verus!
