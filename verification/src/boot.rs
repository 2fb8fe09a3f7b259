//! The firmware's boot-time decision: whether the previous run asked for the
//! STM32 ROM bootloader (through a magic value left in RAM that startup code
//! does not clear), so that the host can flash new firmware over USB DFU.
use vstd::prelude::*;

verus! {

/// Magic value for DFU reset - unlikely to occur naturally in uninitialized RAM
pub const DFU_MAGIC: u32 = 0xDEAD_BEEF;

/// STM32F4 system bootloader address (AN2606).
pub const SYSTEM_MEMORY_BASE: u32 = 0x1FFF_0000;

/// What the firmware does right after reset.
#[derive(Clone, Copy, PartialEq, Eq, Structural, Debug)]
pub enum BootAction {
    /// Remap system memory and jump to the ROM bootloader.
    EnterRomBootloader,
    /// Start the application as usual.
    StartApplication,
}

/// The decision on the flag found in RAM, and the flag to leave there.
pub open spec fn boot_decision(flag: u32) -> (BootAction, u32) {
    if flag == DFU_MAGIC {
        (BootAction::EnterRomBootloader, 0)
    } else {
        (BootAction::StartApplication, flag)
    }
}

/// Decides on the flag found in RAM at reset: the magic value sends the
/// device to the ROM bootloader and is cleared, so that the next reset starts
/// the application; any other value starts the application and is left alone.
pub fn check_bootloader_flag(flag: u32) -> (r: (BootAction, u32))
    ensures
        r == boot_decision(flag),
        flag == 0xDEAD_BEEF ==> r == (BootAction::EnterRomBootloader, 0u32),
        flag != 0xDEAD_BEEF ==> r == (BootAction::StartApplication, flag),
{
    if flag == DFU_MAGIC {
        (BootAction::EnterRomBootloader, 0)
    } else {
        (BootAction::StartApplication, flag)
    }
}

/// The flag that asks the next reset for the ROM bootloader.
pub fn dfu_request_flag() -> (flag: u32)
    ensures
        boot_decision(flag).0 == BootAction::EnterRomBootloader,
        flag == DFU_MAGIC,
        flag == 0xDEAD_BEEF,
{
    DFU_MAGIC
}

/// Only the exact magic value enters the bootloader, and it is cleared; any
/// other value found in RAM starts the application and is left as it was.
pub proof fn lemma_only_magic_enters_bootloader(flag: u32)
    ensures
        flag == 0xDEAD_BEEF ==> boot_decision(flag) == (BootAction::EnterRomBootloader, 0u32),
        flag != 0xDEAD_BEEF ==> boot_decision(flag) == (BootAction::StartApplication, flag),
{
}

/// The device never loops into the bootloader: whatever flag a reset finds,
/// the flag it leaves behind makes the following reset start the application.
pub proof fn lemma_no_bootloader_loop(flag: u32)
    ensures
        boot_decision(boot_decision(flag).1).0 == BootAction::StartApplication,
{
}

} // verus!
