use stm_usb::boot::{check_bootloader_flag, dfu_request_flag, BootAction, DFU_MAGIC, SYSTEM_MEMORY_BASE};
use stm_usb::dfu_target::{
    stm32f4_functional_descriptor, stm32f4_memory_layout, DFU_INTERFACE, DFU_PRODUCT_ID,
    DFU_VENDOR_ID, STM32F4_FLASH_BASE,
};

#[test]
fn magic_flag_enters_bootloader_once() {
    let flag = dfu_request_flag();
    assert_eq!(flag, 0xDEAD_BEEF);
    assert_eq!(flag, DFU_MAGIC);
    let (action, left) = check_bootloader_flag(flag);
    assert_eq!(action, BootAction::EnterRomBootloader);
    assert_eq!(left, 0);
    let (action, left) = check_bootloader_flag(left);
    assert_eq!(action, BootAction::StartApplication);
    assert_eq!(left, 0);
}

#[test]
fn other_flags_start_the_application() {
    for flag in [0u32, 1, 0xDEAD_BEEE, 0xFFFF_FFFF, 0x1234_5678] {
        assert_eq!(check_bootloader_flag(flag), (BootAction::StartApplication, flag));
    }
    assert_eq!(SYSTEM_MEMORY_BASE, 0x1FFF_0000);
}

#[test]
fn stm32f4_flash_layout() {
    let pages = stm32f4_memory_layout().ok().expect("layout parses");
    assert_eq!(pages, vec![16384, 16384, 16384, 16384, 65536, 131072, 131072, 131072]);
    assert_eq!(pages.iter().map(|p| *p as u64).sum::<u64>(), 512 * 1024);
}

#[test]
fn stm32f4_descriptor_and_ids() {
    let d = stm32f4_functional_descriptor();
    assert!(d.can_download && d.can_upload && !d.manifestation_tolerant && d.will_detach);
    assert_eq!(d.detach_timeout, 255);
    assert_eq!(d.transfer_size, 2048);
    assert_eq!(d.dfu_version, (0x01, 0x1a));
    assert_eq!(STM32F4_FLASH_BASE, 0x0800_0000);
    assert_eq!((DFU_VENDOR_ID, DFU_PRODUCT_ID, DFU_INTERFACE), (0x0483, 0xDF11, 0));
}
