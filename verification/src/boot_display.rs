//! Boot-time display probing: the framebuffer the kernel draws to.
use vstd::prelude::*;
use bootloader::BootInfo;
use x86_64::VirtAddr;
use crate::drivers::FramebufferInfo;

verus! {

#[verifier::external_type_specification]
#[verifier::external_body]
pub struct ExVirtAddr(x86_64::VirtAddr);

#[verifier::external_type_specification]
#[verifier::external_body]
pub struct ExBootInfo(bootloader::BootInfo);

/// The address that a `VirtAddr` holds (`VirtAddr::as_u64`).
pub uninterp spec fn virt_addr_value(a: VirtAddr) -> u64;

/// A canonical x86-64 virtual address: bits 48 to 63 repeat bit 47.
pub open spec fn is_canonical(x: u64) -> bool {
    x < 0x0000_8000_0000_0000 || x >= 0xffff_8000_0000_0000
}

/// `VirtAddr::as_u64`: the address held, which is canonical.
#[verifier::external_body]
fn virt_addr_as_u64(a: VirtAddr) -> (r: u64)
    ensures
        r == virt_addr_value(a),
        is_canonical(r),
{
    a.as_u64()
}

/// `VirtAddr + u64`: the address `off` bytes further on. It panics on
/// overflow and on a non-canonical result, which `requires` leaves out.
#[verifier::external_body]
fn virt_addr_add(a: VirtAddr, off: u64) -> (r: VirtAddr)
    requires
        virt_addr_value(a) + off <= u64::MAX,
        is_canonical((virt_addr_value(a) + off) as u64),
    ensures
        virt_addr_value(r) == virt_addr_value(a) + off,
{
    a + off
}

/// Physical base of the VGA mode 13h framebuffer (320×200, 256 colours).
pub const VGA_FB_PHYS: u64 = 0xa0000;
pub const VGA_MODE13_WIDTH: u32 = 320;
pub const VGA_MODE13_HEIGHT: u32 = 200;
pub const VGA_MODE13_BPP: u32 = 1;
pub const VGA_MODE13_STRIDE: u32 = 320;

/// The framebuffer of VGA mode 13h, seen through the mapping of physical
/// memory at `phys_mem_offset`.
pub fn framebuffer_info(boot_info: &BootInfo, phys_mem_offset: VirtAddr) -> (r: Option<FramebufferInfo>)
    requires
        virt_addr_value(phys_mem_offset) + VGA_FB_PHYS <= u64::MAX,
        is_canonical((virt_addr_value(phys_mem_offset) + VGA_FB_PHYS) as u64),
    ensures
        r == Some(
            FramebufferInfo {
                base: (virt_addr_value(phys_mem_offset) + VGA_FB_PHYS) as u64,
                width: VGA_MODE13_WIDTH,
                height: VGA_MODE13_HEIGHT,
                bytes_per_pixel: VGA_MODE13_BPP,
                stride: VGA_MODE13_STRIDE,
            },
        ),
{
    let base_vaddr = virt_addr_add(phys_mem_offset, VGA_FB_PHYS);
    Some(
        FramebufferInfo {
            base: virt_addr_as_u64(base_vaddr),
            width: VGA_MODE13_WIDTH,
            height: VGA_MODE13_HEIGHT,
            bytes_per_pixel: VGA_MODE13_BPP,
            stride: VGA_MODE13_STRIDE,
        },
    )
}

} // verus!

verus! {

/// `framebuffer_info` where the mapping offset leaves room for the VGA
/// framebuffer at a canonical address; `None` where it does not.
pub fn framebuffer_info_checked(boot_info: &BootInfo, phys_mem_offset: VirtAddr) -> (r: Option<FramebufferInfo>)
    ensures
        ({
            let base = virt_addr_value(phys_mem_offset) + VGA_FB_PHYS;
            &&& (base <= u64::MAX && is_canonical(base as u64)) ==> r == Some(
                FramebufferInfo {
                    base: base as u64,
                    width: VGA_MODE13_WIDTH,
                    height: VGA_MODE13_HEIGHT,
                    bytes_per_pixel: VGA_MODE13_BPP,
                    stride: VGA_MODE13_STRIDE,
                },
            )
            &&& !(base <= u64::MAX && is_canonical(base as u64)) ==> r is None
        }),
{
    let off = virt_addr_as_u64(phys_mem_offset);
    if off > u64::MAX - VGA_FB_PHYS {
        return None;
    }
    let base = off + VGA_FB_PHYS;
    if !(base < 0x0000_8000_0000_0000 || base >= 0xffff_8000_0000_0000) {
        return None;
    }
    framebuffer_info(boot_info, phys_mem_offset)
}

} // verus!
