use safa_core::addr::VirtAddr;
use safa_core::decimal::push_decimal;
use safa_core::dhcp::{
    accepts, check_ack, check_offer, discover_packet, parse_options, request_packet, DHCPError, DHCPOp, DHCPOpt,
    DHCPPacket, DHCP_PACKET_SIZE,
};
use safa_core::elf::{Elf, ElfError, ElfHeader, ElfType, ProgramFlags, ProgramHeader, ProgramType};
use safa_core::errors::ErrorStatus;
use safa_core::percpu::{cpu_local_addr, CpuID, CpuLocalStoragesIter};
use safa_core::timer::{time_since_boot_ms, DurationFmt, SystemInstant};
use safa_core::toolchain::{
    build_freestanding, build_safaos, build_tests_freestanding, extract_host, safaos_rustc_specifier,
    toolchain_is_expected, ArchTarget, HostOS, LinuxABI, RustcTarget,
};
use safa_core::vmm::{ObjectState, VMMMFlags, VirtualMemoryManager};

fn words(v: &[&str]) -> Vec<Vec<u8>> {
    v.iter().map(|s| s.as_bytes().to_vec()).collect()
}

#[test]
fn arch_names() {
    assert_eq!(ArchTarget::from_str(b"x86_64"), Some(ArchTarget::X86_64));
    assert_eq!(ArchTarget::from_str(b"aarch64"), Some(ArchTarget::Arm64));
    assert_eq!(ArchTarget::from_str(b"arm64"), None);
    assert_eq!(ArchTarget::Arm64.as_str(), b"aarch64".to_vec());
    assert_eq!(safaos_rustc_specifier(ArchTarget::X86_64), b"+x86_64-unknown-safaos".to_vec());
    assert_eq!(RustcTarget::SafaOS.into_cargo_target(ArchTarget::Arm64), b"aarch64-unknown-safaos".to_vec());
    assert_eq!(RustcTarget::Freestanding.into_cargo_target(ArchTarget::X86_64), b"x86_64-unknown-none".to_vec());
}

#[test]
fn host_identifiers() {
    assert_eq!(extract_host(b"x86_64-linux-musl"), Some((ArchTarget::X86_64, HostOS::Linux(LinuxABI::Musl))));
    assert_eq!(extract_host(b"x86_64-linux-gnu"), Some((ArchTarget::X86_64, HostOS::Linux(LinuxABI::Gnu))));
    assert_eq!(extract_host(b"aarch64-apple-darwin"), Some((ArchTarget::Arm64, HostOS::MacOS)));
    assert_eq!(extract_host(b"x86_64-linux"), Some((ArchTarget::X86_64, HostOS::Linux(LinuxABI::Gnu))));
    assert_eq!(extract_host(b"x86_64-macos"), Some((ArchTarget::X86_64, HostOS::MacOS)));
    assert_eq!(extract_host(b"macos"), Some((ArchTarget::Arm64, HostOS::MacOS)));
    assert_eq!(extract_host(b"riscv64-linux-gnu"), None);
    assert_eq!(extract_host(b"x86_64-windows"), None);
}

#[test]
fn toolchain_archive_names() {
    let host = (ArchTarget::X86_64, HostOS::Linux(LinuxABI::Gnu));
    assert!(toolchain_is_expected(ArchTarget::X86_64, b"1.90.0-x86_64-unknown-safaos-x86_64-linux-gnu.tar.gz", host));
    assert!(toolchain_is_expected(ArchTarget::Arm64, b"nightly-aarch64-unknown-safaos-x86_64-linux-gnu", host));
    assert!(!toolchain_is_expected(ArchTarget::Arm64, b"1.90.0-x86_64-unknown-safaos-x86_64-linux-gnu.tar.gz", host));
    assert!(!toolchain_is_expected(ArchTarget::X86_64, b"1.90.0-x86_64-unknown-safaos-aarch64-apple-darwin", host));
    assert!(!toolchain_is_expected(ArchTarget::X86_64, b"toolchain", host));
}

#[test]
fn cargo_command_lines() {
    let args = words(&["--release", "", "-p", "init"]);
    assert_eq!(
        build_safaos(ArchTarget::X86_64, &args),
        words(&[
            "+x86_64-unknown-safaos",
            "build",
            "--release",
            "-p",
            "init",
            "--target",
            "x86_64-unknown-safaos",
            "--message-format=json-render-diagnostics",
        ])
    );
    assert_eq!(
        build_freestanding(ArchTarget::Arm64, &words(&["--release"])),
        words(&["build", "--release", "--target", "aarch64-unknown-none", "--message-format=json-render-diagnostics"])
    );
    assert_eq!(
        build_tests_freestanding(ArchTarget::X86_64, &Vec::new()),
        words(&["test", "--no-run", "--target", "x86_64-unknown-none", "--message-format=json-render-diagnostics"])
    );
}

const MAC: [u8; 6] = [0x52, 0x54, 0x00, 0x12, 0x34, 0x56];

#[test]
fn dhcp_discover_layout() {
    let p = discover_packet(MAC, 0xdeadbeef);
    let b = p.as_bytes();
    assert_eq!(b.len(), DHCP_PACKET_SIZE);
    assert_eq!(&b[0..4], &[1, 1, 6, 0]);
    assert_eq!(&b[4..8], &[0xde, 0xad, 0xbe, 0xef]);
    assert!(b[8..28].iter().all(|x| *x == 0));
    assert_eq!(&b[28..34], &MAC);
    assert!(b[34..236].iter().all(|x| *x == 0));
    assert_eq!(&b[236..240], &[0x63, 0x82, 0x53, 0x63]);
    assert_eq!(&b[240..249], &[53, 1, 1, 55, 3, 6, 1, 3, 255]);
    assert!(b[249..].iter().all(|x| *x == 0));
    assert!(p.is_valid());
    assert_eq!(p.xid(), 0xdeadbeef);
    assert_eq!(p.op(), DHCPOp(DHCPOp::DISCOVER));
}

#[test]
fn dhcp_request_layout() {
    let p = request_packet(MAC, 7, [10, 0, 2, 15], [10, 0, 2, 2]);
    let b = p.as_bytes();
    assert_eq!(&b[20..24], &[10, 0, 2, 2]);
    assert_eq!(p.siaddr(), [10, 0, 2, 2]);
    assert_eq!(&b[240..256], &[53, 1, 3, 50, 4, 10, 0, 2, 15, 54, 4, 10, 0, 2, 2, 255]);
}

fn offer_bytes(msg: u8, options_tail: &[u8]) -> DHCPPacket {
    let mut options = vec![DHCPOpt::MSG_TYPE, 1, msg];
    options.extend_from_slice(options_tail);
    options.push(DHCPOpt::END);
    let mut p = DHCPPacket::new(DHCPOp(DHCPOp::OFFER), MAC, 99, &options, [10, 0, 2, 2]);
    p.bytes[16..20].copy_from_slice(&[10, 0, 2, 15]);
    p
}

#[test]
fn dhcp_options_parse() {
    let opts = vec![
        DHCPOpt::SUBNET_MASK, 4, 255, 255, 255, 0,
        DHCPOpt::ROUTER, 8, 10, 0, 2, 2, 10, 0, 2, 3,
        0x42, // an unknown code takes one byte
        DHCPOpt::DNS, 8, 1, 1, 1, 1, 8, 8, 8, 8,
        DHCPOpt::LEASE_TIME, 4, 0, 1, 0x51, 0x80,
        DHCPOpt::DHCP_SERVER_ID, 4, 10, 0, 2, 2,
        DHCPOpt::MSG_TYPE, 1, DHCPOpt::DHCPACK,
        DHCPOpt::END,
        DHCPOpt::SUBNET_MASK, 4, 1, 2, 3, 4,
    ];
    let p = parse_options(&opts);
    assert_eq!(p.subnet_mask, Some([255, 255, 255, 0]));
    assert_eq!(p.router, Some([10, 0, 2, 2]));
    assert_eq!(p.dns, Some(vec![[1, 1, 1, 1], [8, 8, 8, 8]]));
    assert_eq!(p.lease_time, Some(86400));
    assert_eq!(p.dhcp_server_addr, Some([10, 0, 2, 2]));
    assert_eq!(p.msg_type, Some(DHCPOpt(DHCPOpt::DHCPACK)));

    // a router option cut short keeps its first address
    let cut = parse_options(&vec![DHCPOpt::ROUTER, 8, 1, 2, 3, 4, 5]);
    assert_eq!(cut.router, Some([1, 2, 3, 4]));
    // a wrong length is skipped over by the length byte alone
    let skip = parse_options(&vec![DHCPOpt::SUBNET_MASK, 3, DHCPOpt::LEASE_TIME, 4, 0, 0, 0, 9]);
    assert_eq!(skip.subnet_mask, None);
    assert_eq!(skip.lease_time, Some(9));
    let empty_dns = parse_options(&vec![DHCPOpt::DNS, 0]);
    assert_eq!(empty_dns.dns, Some(vec![]));
}

#[test]
fn dhcp_offer_and_ack() {
    let full = [
        DHCPOpt::SUBNET_MASK, 4, 255, 255, 255, 0,
        DHCPOpt::ROUTER, 4, 10, 0, 2, 2,
        DHCPOpt::DNS, 4, 10, 0, 2, 3,
        DHCPOpt::LEASE_TIME, 4, 0, 0, 0x0e, 0x10,
    ];
    let offer = check_offer(&offer_bytes(DHCPOpt::DHCPOFFER, &full)).unwrap();
    assert_eq!(offer.our_addr, [10, 0, 2, 15]);
    assert_eq!(offer.server_addr, [10, 0, 2, 2]);
    assert_eq!(offer.router, [10, 0, 2, 2]);
    assert_eq!(offer.subnet_mask, [255, 255, 255, 0]);
    assert_eq!(offer.dns, vec![[10, 0, 2, 3]]);
    assert_eq!(offer.lease_time, 3600);

    assert_eq!(check_offer(&offer_bytes(DHCPOpt::DHCPACK, &full)).unwrap_err(), DHCPError::ExpectedOffer);
    assert_eq!(
        check_offer(&offer_bytes(DHCPOpt::DHCPOFFER, &full[..12])).unwrap_err(),
        DHCPError::OfferMissingOptions
    );
    assert_eq!(check_ack(&offer_bytes(DHCPOpt::DHCPACK, &[])), Ok(()));
    assert_eq!(check_ack(&offer_bytes(DHCPOpt::DHCPOFFER, &[])), Err(DHCPError::AcknowledgementFailed));
}

#[test]
fn dhcp_accepts_only_its_transaction() {
    let p = offer_bytes(DHCPOpt::DHCPOFFER, &[]);
    let server = ([10, 0, 2, 2], 67u16);
    assert!(accepts(None, server, &p, 99));
    assert!(!accepts(None, server, &p, 98));
    assert!(accepts(Some(server), server, &p, 99));
    assert!(!accepts(Some(([10, 0, 2, 3], 67)), server, &p, 99));
    let mut broken = p.clone();
    broken.bytes[236] = 0;
    assert!(!accepts(None, server, &broken, 99));
    assert!(DHCPPacket::from_bytes(&[0u8; 100]).is_none());
    assert_eq!(DHCPPacket::from_bytes(p.as_bytes()).unwrap().bytes, p.bytes);
}

fn elf_header(kind: u16, machine: u16) -> Vec<u8> {
    let mut b = vec![0u8; 64];
    b[0..4].copy_from_slice(b"\x7fELF");
    b[4] = 2;
    b[5] = 1;
    b[6] = 1;
    b[16..18].copy_from_slice(&kind.to_le_bytes());
    b[18..20].copy_from_slice(&machine.to_le_bytes());
    b[24..32].copy_from_slice(&0x401000u64.to_le_bytes());
    b[32..40].copy_from_slice(&64u64.to_le_bytes());
    b[52..54].copy_from_slice(&64u16.to_le_bytes());
    b[54..56].copy_from_slice(&56u16.to_le_bytes());
    b[56..58].copy_from_slice(&2u16.to_le_bytes());
    b[58..60].copy_from_slice(&64u16.to_le_bytes());
    b
}

#[test]
fn elf_header_parse_and_checks() {
    let b = elf_header(ElfType::EXE, 0x3E);
    let h = ElfHeader::from_bytes(&b).unwrap();
    assert!(h.verify());
    assert_eq!(h.entry_point, VirtAddr::from(0x401000));
    assert_eq!(h.program_headers_table_entries_number, 2);
    assert_eq!(h.supported(), Ok(()));
    let elf = Elf::new(&b).unwrap();
    assert_eq!(elf.get_program_offset(1), Some(64 + 56));
    assert_eq!(elf.get_program_offset(2), None);

    assert!(ElfHeader::from_bytes(&b[..63]).is_none());
    let mut bad_magic = b.clone();
    bad_magic[1] = b'X';
    assert_eq!(Elf::new(&bad_magic).err(), Some(ElfError::NotAnElf));
    assert_eq!(Elf::new(&elf_header(ElfType::EXE, 0xB7)).err(), Some(ElfError::UnsupportedInstructionSet));
    assert_eq!(Elf::new(&elf_header(4, 0x3E)).err(), Some(ElfError::UnsupportedKind));
    let mut elf32 = b.clone();
    elf32[4] = 1;
    assert_eq!(Elf::new(&elf32).err(), Some(ElfError::UnsupportedClass));
    let mut big = b.clone();
    big[5] = 2;
    assert_eq!(Elf::new(&big).err(), Some(ElfError::UnsupportedEndianness));
    assert_eq!(ElfError::NotAnElf.into_err(), ErrorStatus::NotExecutable);
    assert_eq!(ElfError::Corrupted.into_err(), ErrorStatus::Corrupted);
}

#[test]
fn elf_load_maps_segments() {
    let mut ph = vec![0u8; 56];
    ph[0..4].copy_from_slice(&ProgramType::LOAD.to_le_bytes());
    ph[4..8].copy_from_slice(&(ProgramFlags::READ | ProgramFlags::EXEC).to_le_bytes());
    ph[8..16].copy_from_slice(&0x1000u64.to_le_bytes());
    ph[16..24].copy_from_slice(&0x401000u64.to_le_bytes());
    ph[32..40].copy_from_slice(&0x1800u64.to_le_bytes());
    ph[40..48].copy_from_slice(&0x2800u64.to_le_bytes());
    ph[48..56].copy_from_slice(&0x1000u64.to_le_bytes());
    let header = ProgramHeader::from_bytes(&ph, 0).unwrap();
    assert_eq!(header.memz, 0x2800);
    assert!(ProgramHeader::from_bytes(&ph, 1).is_none());

    let elf = Elf::new(&elf_header(ElfType::EXE, 0x3E)).unwrap();
    let mut vmm = VirtualMemoryManager::new_user();
    let (info, segs) = elf.load_exec(&mut vmm, VirtAddr::null(), &vec![header]).unwrap();
    assert_eq!(info.entry, VirtAddr::from(0x401000));
    assert_eq!(info.elf_end, VirtAddr::from(0x401000 + 0x2800));
    assert_eq!(segs.len(), 1);
    assert_eq!(segs[0].offset, 0x1000);
    assert_eq!(segs[0].size, 0x1800);
    assert_eq!(segs[0].dest, VirtAddr::from(0x401000));
    let obj = vmm.lookup_addr(VirtAddr::from(0x402000)).unwrap();
    match obj.state {
        ObjectState::Allocated(f) => {
            assert!(f.contains(VMMMFlags::EXECUTABLE));
            assert!(f.contains(VMMMFlags::USER_ACCESSIBLE));
            assert!(!f.contains(VMMMFlags::WRITEABLE));
        }
        other => panic!("unexpected state {:?}", other),
    }
}

#[test]
fn elf_relocatable_is_not_loaded() {
    let elf = Elf::new(&elf_header(ElfType::RELOC, 0x3E)).unwrap();
    let mut vmm = VirtualMemoryManager::new_user();
    assert_eq!(elf.load_exec(&mut vmm, VirtAddr::null(), &Vec::new()).err(), Some(ElfError::NotAnExecutable));
    assert_eq!(vmm.len(), 1);
}

#[test]
fn time_and_durations() {
    let start = SystemInstant::now(1_000);
    // 2_501_000 cycles at 1000 MHz: 2.5 ms
    assert_eq!(start.elapsed(2_501_000, 1000), (0, 2_500_000));
    assert_eq!(SystemInstant::boot().elapsed(3_000_000_000, 1000), (3, 0));
    assert_eq!(time_since_boot_ms(3_500_000, 1000), 3);
    assert_eq!(DurationFmt::new(1, 250_003_000).to_string(), b"1s:250ms:3us".to_vec());
    assert_eq!(DurationFmt::new(0, 42_000).to_string(), b"42us".to_vec());
    assert_eq!(DurationFmt::new(2, 0).to_string(), b"2s".to_vec());
    assert_eq!(DurationFmt::new(0, 0).to_string(), Vec::<u8>::new());
}

#[test]
fn decimal_text() {
    let mut out = b"n=".to_vec();
    push_decimal(&mut out, 0);
    push_decimal(&mut out, 1234567890);
    assert_eq!(out, b"n=01234567890".to_vec());
    let mut max = Vec::new();
    push_decimal(&mut max, u64::MAX);
    assert_eq!(max, u64::MAX.to_string().into_bytes());
}

#[test]
fn cpu_ids() {
    assert_eq!(CpuID::from_u16(3, 4), Some(CpuID(3)));
    assert_eq!(CpuID::from_u16(4, 4), None);
    assert_eq!(CpuID(12).to_string(), b"CPU #12".to_vec());
    assert_eq!(cpu_local_addr(VirtAddr::from(0x10000), 0x2000, CpuID(3)), VirtAddr::from(0x16000));
    let online = vec![true, false, true, true];
    let mut it = CpuLocalStoragesIter::new(3);
    assert_eq!(it.len_hint(), 3);
    assert_eq!(it.next(&online), Some(CpuID(0)));
    assert_eq!(it.next(&online), Some(CpuID(2)));
    assert_eq!(it.next(&online), None);
    assert_eq!(it.next(&online), None);
}

#[test]
fn journal_last_lines() {
    let lines: Vec<Vec<u8>> = vec![b"one".to_vec(), b"two".to_vec(), b"three".to_vec()];
    assert_eq!(safa_core::journal::last_lines(lines.clone(), 2), vec![b"two".to_vec(), b"three".to_vec()]);
    assert_eq!(safa_core::journal::last_lines(lines.clone(), 0), Vec::<Vec<u8>>::new());
    assert_eq!(safa_core::journal::last_lines(lines.clone(), 10), lines);
    assert_eq!(safa_core::journal::last_lines(Vec::new(), 3), Vec::<Vec<u8>>::new());
}
