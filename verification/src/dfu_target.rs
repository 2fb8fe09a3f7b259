//! What the control panel tells the DFU download about the STM32F4 it
//! flashes: the DfuSe functional descriptor, the flash base address and the
//! layout of the internal flash, parsed by `dfu-core`.
use vstd::prelude::*;

verus! {

/// USB vendor id of the STM32 ROM bootloader in DFU mode.
pub const DFU_VENDOR_ID: u16 = 0x0483;

/// USB product id of the STM32 ROM bootloader in DFU mode.
pub const DFU_PRODUCT_ID: u16 = 0xDF11;

/// The interface of the ROM bootloader that carries DFU.
pub const DFU_INTERFACE: u8 = 0;

/// Start of the STM32F4 internal flash, where the firmware is written.
pub const STM32F4_FLASH_BASE: u32 = 0x0800_0000;

/// The DFU functional descriptor, as plain values.
pub struct DfuseDescriptor {
    pub can_download: bool,
    pub can_upload: bool,
    pub manifestation_tolerant: bool,
    pub will_detach: bool,
    pub detach_timeout: u16,
    pub transfer_size: u16,
    pub dfu_version: (u8, u8),
}

/// The functional descriptor of the STM32 ROM bootloader: DfuSe (version
/// 1.1a), download and upload capable, detaches by itself, 2048-byte blocks.
pub fn stm32f4_functional_descriptor() -> (d: DfuseDescriptor)
    ensures
        d.can_download && d.can_upload && !d.manifestation_tolerant && d.will_detach,
        d.detach_timeout == 255,
        d.transfer_size == 2048,
        d.dfu_version == (0x01u8, 0x1au8),
{
    DfuseDescriptor {
        can_download: true,
        can_upload: true,
        manifestation_tolerant: false,
        will_detach: true,
        detach_timeout: 255,
        transfer_size: 2048,
        dfu_version: (0x01, 0x1a),
    }
}

/// Why `dfu-core` refused a memory layout description, with the offending
/// text.
pub enum LayoutError {
    InvalidPageFormat(String),
    ParseErrorPageCount(String),
    ParseErrorPageSize(String),
    InvalidPrefix(String),
}

/// A refused memory layout description, as a value.
pub enum LayoutFault {
    InvalidPageFormat(Seq<char>),
    ParseErrorPageCount(Seq<char>),
    ParseErrorPageSize(Seq<char>),
    InvalidPrefix(Seq<char>),
}

impl View for LayoutError {
    type V = LayoutFault;

    open spec fn view(&self) -> LayoutFault {
        match self {
            LayoutError::InvalidPageFormat(s) => LayoutFault::InvalidPageFormat(s@),
            LayoutError::ParseErrorPageCount(s) => LayoutFault::ParseErrorPageCount(s@),
            LayoutError::ParseErrorPageSize(s) => LayoutFault::ParseErrorPageSize(s@),
            LayoutError::InvalidPrefix(s) => LayoutFault::InvalidPrefix(s@),
        }
    }
}

/// What `dfu_core::memory_layout::MemoryLayout::try_from` makes of a DfuSe
/// memory layout description such as `04*016Kg,01*064Kg`: the size of each
/// flash page in order, or why the description was refused.
pub uninterp spec fn dfuse_memory_layout(description: Seq<char>) -> Result<Seq<u32>, LayoutFault>;

/// An ASCII decimal digit.
pub open spec fn is_decimal_digit(c: char) -> bool {
    '0' <= c && c <= '9'
}

/// A description that `dfu-core` reads without panicking: it is ASCII (the
/// parser splits it at byte offsets), and no number in it has more than three
/// digits (so that no page count or page size times its unit overflows).
pub open spec fn layout_description_safe(description: Seq<char>) -> bool {
    &&& forall|i: int| 0 <= i < description.len() ==> (#[trigger] description[i] as u32) < 128
    &&& forall|i: int|
        0 <= i && i + 3 < description.len() ==> !(is_decimal_digit(#[trigger] description[i])
            && is_decimal_digit(description[i + 1]) && is_decimal_digit(description[i + 2])
            && is_decimal_digit(description[i + 3]))
}

/// `dfu_core::memory_layout::MemoryLayout::try_from(&str)`: parses a DfuSe
/// memory layout description. Claimed: the pages (or the error, moved into
/// the library's own error type) are what the name `dfuse_memory_layout`
/// gives for the description.
#[verifier::external_body]
fn dfu_core_memory_layout(description: &str) -> (r: Result<Vec<u32>, LayoutError>)
    requires
        layout_description_safe(description@),
    ensures
        r matches Ok(pages) ==> dfuse_memory_layout(description@) matches Ok(p) && p == pages@,
        r matches Err(e) ==> dfuse_memory_layout(description@) matches Err(f) && f == e@,
{
    match dfu_core::memory_layout::MemoryLayout::try_from(description) {
        Ok(layout) => Ok(layout.to_vec()),
        Err(dfu_core::memory_layout::Error::InvalidPageFormat(s)) => Err(LayoutError::InvalidPageFormat(s)),
        Err(dfu_core::memory_layout::Error::ParseErrorPageCount(s)) => Err(LayoutError::ParseErrorPageCount(s)),
        Err(dfu_core::memory_layout::Error::ParseErrorPageSize(s)) => Err(LayoutError::ParseErrorPageSize(s)),
        Err(dfu_core::memory_layout::Error::InvalidPrefix(s)) => Err(LayoutError::InvalidPrefix(s)),
    }
}

/// The STM32F4 internal flash as the ROM bootloader describes it:
/// "@Internal Flash  /0x08000000/04*016Kg,01*064Kg,03*128Kg".
pub fn stm32f4_memory_layout() -> (r: Result<Vec<u32>, LayoutError>)
    ensures
        r matches Ok(pages) ==> dfuse_memory_layout("04*016Kg,01*064Kg,03*128Kg"@) matches Ok(p) && p == pages@,
        r matches Err(e) ==> dfuse_memory_layout("04*016Kg,01*064Kg,03*128Kg"@) matches Err(f) && f == e@,
{
    let description = "04*016Kg,01*064Kg,03*128Kg";
    proof {
        reveal_strlit("04*016Kg,01*064Kg,03*128Kg");
    }
    dfu_core_memory_layout(description)
}

} // verus!
