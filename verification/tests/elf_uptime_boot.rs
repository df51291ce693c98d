use boggers_ts::boot_display::{framebuffer_info, framebuffer_info_checked};
use boggers_ts::elf_loader::parse_elf64;
use boggers_ts::uptime::{take_preempt_requested, tick, ticks, Uptime};
use boggers_ts::QemuExitCode;

fn elf_header() -> Vec<u8> {
    let mut h = vec![0u8; 64];
    h[0..4].copy_from_slice(&[0x7f, b'E', b'L', b'F']);
    h[4] = 2;
    h[5] = 1;
    h[6] = 1;
    h[16..18].copy_from_slice(&2u16.to_le_bytes());
    h[18..20].copy_from_slice(&62u16.to_le_bytes());
    h[24..32].copy_from_slice(&0x0040_1000u64.to_le_bytes());
    h[32..40].copy_from_slice(&64u64.to_le_bytes());
    h[56..58].copy_from_slice(&3u16.to_le_bytes());
    h
}

#[test]
fn parses_valid_elf64_header() {
    let info = parse_elf64(&elf_header()).unwrap();
    assert_eq!(info.entry_point, 0x0040_1000);
    assert_eq!(info.phoff, 64);
    assert_eq!(info.phnum, 3);
    assert!(info.is_valid);
}

#[test]
fn parses_large_little_endian_fields() {
    let mut h = elf_header();
    h[24..32].copy_from_slice(&0xfedc_ba98_7654_3210u64.to_le_bytes());
    h[56..58].copy_from_slice(&0xabcdu16.to_le_bytes());
    h.extend_from_slice(b"trailing bytes");
    let info = parse_elf64(&h).unwrap();
    assert_eq!(info.entry_point, 0xfedc_ba98_7654_3210);
    assert_eq!(info.phnum, 0xabcd);
}

#[test]
fn rejects_invalid_headers() {
    assert!(parse_elf64(&elf_header()[..63]).is_none());
    assert!(parse_elf64(b"TS is alpha supremacy").is_none());
    let cases: Vec<(usize, u8)> = vec![(0, 0), (1, b'e'), (3, b'G'), (4, 1), (5, 2), (6, 0), (16, 3), (17, 1), (18, 3), (19, 1)];
    for (at, value) in cases {
        let mut h = elf_header();
        h[at] = value;
        assert!(parse_elf64(&h).is_none(), "byte {} = {}", at, value);
    }
}

#[test]
fn preemption_every_twenty_ticks() {
    let mut u = Uptime::new();
    for _ in 0..20 {
        tick(&mut u);
    }
    assert_eq!(ticks(&u), 20);
    assert!(!take_preempt_requested(&mut u));
    tick(&mut u);
    assert_eq!(ticks(&u), 21);
    assert!(take_preempt_requested(&mut u));
    assert!(!take_preempt_requested(&mut u));
    for _ in 0..19 {
        tick(&mut u);
    }
    assert!(!take_preempt_requested(&mut u));
    tick(&mut u);
    assert!(take_preempt_requested(&mut u));
}

#[test]
fn tick_counter_wraps() {
    let mut u = Uptime { ticks: u64::MAX, preempt_requested: false };
    tick(&mut u);
    assert_eq!(ticks(&u), 0);
    // u64::MAX is not a multiple of 20
    assert!(!u.preempt_requested);
    tick(&mut u);
    assert_eq!(ticks(&u), 1);
    assert!(!u.preempt_requested);
}

#[test]
fn qemu_exit_codes() {
    assert_eq!(QemuExitCode::Success.code(), 0x10);
    assert_eq!(QemuExitCode::Failed.code(), 0x11);
}

fn boot_info(offset: u64) -> bootloader::BootInfo {
    bootloader::BootInfo::new(bootloader::bootinfo::MemoryMap::new(), None, 0, offset)
}

#[test]
fn vga_framebuffer_through_physical_mapping() {
    let off = x86_64::VirtAddr::new(0x0000_1000_0000_0000);
    let fb = framebuffer_info(&boot_info(off.as_u64()), off).unwrap();
    assert_eq!(fb.base, 0x0000_1000_000a_0000);
    assert_eq!((fb.width, fb.height, fb.bytes_per_pixel, fb.stride), (320, 200, 1, 320));
    let fb = framebuffer_info_checked(&boot_info(0), x86_64::VirtAddr::new(0)).unwrap();
    assert_eq!(fb.base, 0xa0000);
}

#[test]
fn framebuffer_offset_must_stay_canonical() {
    let off = x86_64::VirtAddr::new(0x0000_7fff_ffff_0000);
    assert!(framebuffer_info_checked(&boot_info(off.as_u64()), off).is_none());
    let high = x86_64::VirtAddr::new(0xffff_ffff_ffff_0000);
    assert!(framebuffer_info_checked(&boot_info(high.as_u64()), high).is_none());
    let upper = x86_64::VirtAddr::new(0xffff_8000_0000_0000);
    assert_eq!(framebuffer_info_checked(&boot_info(upper.as_u64()), upper).unwrap().base, 0xffff_8000_000a_0000);
}
