//! Finding the feature in a process's memory.

use xwlrvnc::hook::util::{parse_bool, parse_hex, untag, Arch, Environ, Mapping, Mappings};
use xwlrvnc::hook::{aarch64, arm, x86_64};
use xwlrvnc::hook::search::{begin, code_read, locate, pointer_read, Missing, Step};
use xwlrvnc::hook::{find_bytes, find_check, find_typeinfo, find_vtable, patched, slot_addr, target, Target};

const MAPS: &[u8] = b"1000-2000 r--p 00000000 08:01 123 /lib/a.so\n\
2000-3000 r-xp 00001000 08:01 123 /lib/a.so\n\
3000-4000 rw-p 00002000 08:01 123 /lib/a.so\n\
5000-6000 ---p 00000000 08:01 123 /lib/a.so\n\
7000-8000 rw-p 00000000 00:00 0 [heap]\n\
nonsense\n";

#[test]
fn switches_are_read_whatever_their_case() {
    for s in ["1", "true", "TRUE", "Yes"] {
        assert_eq!(parse_bool(s.as_bytes()), Some(true), "{s}");
    }
    for s in ["0", "false", "No", "FALSE"] {
        assert_eq!(parse_bool(s.as_bytes()), Some(false), "{s}");
    }
    assert_eq!(parse_bool(b""), None);
    for s in ["truest", "falsey", "falsehood", "fals", "10"] {
        assert_eq!(parse_bool(s.as_bytes()), None, "{s}");
    }
}

#[test]
fn hexadecimal_numbers_end_at_the_first_other_byte() {
    let mut p = 1;
    assert_eq!(parse_hex(b"x1aF-", &mut p), Some(0x1af));
    assert_eq!(p, 4);
    assert_eq!(parse_hex(b"x1aF-", &mut p), None);
    assert_eq!(p, 4);
    let mut p = 0;
    assert_eq!(parse_hex(b"1ffffffffffffffff", &mut p), Some(usize::MAX));
}

#[test]
fn variables_are_found_by_their_whole_name() {
    let env = Environ::read(b"A=1\0BROKEN\0AB=x=y\0A=2\0");
    assert_eq!(env.get(b"A"), Some(&b"1"[..]));
    assert_eq!(env.get(b"AB"), Some(&b"x=y"[..]));
    assert_eq!(env.get(b"B"), None);
    assert_eq!(env.get(b"BROKEN"), None);
    assert_eq!(Environ::read(b"").get(b"A"), None);
}

#[test]
fn the_memory_map_is_read_line_by_line() {
    let m = Mappings::read(MAPS, 100);
    assert_eq!(m.maps.len(), 4, "what cannot be read is left out");
    let first = m.maps[0];
    assert_eq!((first.lo, first.hi, first.rd, first.wr, first.ex), (0x1000, 0x2000, true, false, false));
    assert!(first.private && first.file_backed);
    assert!(!m.maps[3].file_backed, "the heap");
    assert_eq!(m.file_offset(0x2010), Some(0x1010));
    assert_eq!(m.file_offset(0x4000), None);
    assert_eq!(m.find_mapping(0x1500, true), None);
    assert_eq!(m.find_mapping(0x2500, true).map(|m| m.lo), Some(0x2000));
    assert_eq!(Mappings::read(MAPS, 2).maps.len(), 2);
    assert_eq!(Mapping::parse(b"1000-2000 r--"), None);
    assert_eq!(Mapping::parse(b"1000 2000 r--p 0 0:0"), None);
    assert_eq!(first.file_offset(0x1234), 0x234);
}

#[test]
fn pointers_lose_their_tags() {
    assert_eq!(untag(0x1001, Arch::Arm), 0x1000);
    assert_eq!(untag(0x1001, Arch::X86_64), 0x1001);
    assert_eq!(untag(0xff00_0000_0000_1001, Arch::Aarch64), 0x1001);
}

#[test]
fn the_check_is_found_and_patched() {
    // CMP; JNE +1; RET
    let code = [0x83, 0xf8, 0x02, 0x75, 0x01, 0xc3, 0x90];
    assert_eq!(x86_64::find(&code), Some(3));
    assert_eq!(patched(&code, 3, Arch::X86_64), [0xeb]);
    assert_eq!(x86_64::find(&[0x75, 0x00, 0xc3]), None);
    let code = [
        0x1f, 0x20, 0x03, 0xd5, 0x60, 0x00, 0x00, 0x54, 0x00, 0x00, 0x80, 0x52, 0xc0, 0x03, 0x5f, 0xd6,
    ];
    assert_eq!(aarch64::find(&code), Some(4));
    assert_eq!(patched(&code, 4, Arch::Aarch64), [0x6e]);
    assert_eq!(aarch64::find(&code[1..]), None, "only at whole instructions");
    let code = [
        0x02, 0x00, 0x53, 0xe3, 1, 2, 3, 4, 0x00, 0x00, 0xa0, 0x13, 0x1e, 0xff, 0x2f, 0xe1,
    ];
    assert_eq!(arm::find(&code), Some(0));
    assert_eq!(patched(&code, 0, Arch::Arm), [0x03, 0x00, 0x53, 0xe1]);
    assert_eq!(find_check(&code, Arch::X86_64), None);
}

fn put(s: &mut [u8], at: usize, v: u64) {
    s[at..at + 8].copy_from_slice(&v.to_le_bytes());
}

#[test]
fn the_name_leads_to_the_function() {
    let maps = Mappings::read(MAPS, 100);
    let name = b"N5smisc25SFeatureDynamicResolutionE\0";
    let mut rodata = vec![0u8; 0x1000];
    rodata[0x20..0x20 + name.len()].copy_from_slice(name);
    let code = vec![0u8; 0x1000];
    let mut data = vec![0u8; 0x1000];
    // a pointer to the name that is no type information, then one that is
    put(&mut data, 0x18, 0x1020);
    put(&mut data, 0x40, 0x3f00);
    put(&mut data, 0x48, 0x1020);
    // the virtual table of it
    put(&mut data, 0x80, 0x3040);
    put(&mut data, 0x88, 0x2100);
    let all: Vec<&[u8]> = vec![&rodata, &code, &data, &[]];
    assert_eq!(find_bytes(&maps, &all, name, 0x9999), Some(0x1020));
    assert_eq!(find_bytes(&maps, &all, name, 0x1020), None, "not our own copy");
    assert_eq!(find_typeinfo(&maps, &all, 0x1020, Arch::X86_64), Some(0x3040));
    assert_eq!(find_vtable(&maps, &all, 0x3040, Arch::X86_64), Some(0x3088));
    assert_eq!(find_vtable(&maps, &all, 0x3041, Arch::X86_64), None);
    assert_eq!(slot_addr(&maps, 0x3088, 1, Arch::X86_64), Some(0x3090));
    assert_eq!(slot_addr(&maps, 0x3ffc, 0, Arch::X86_64), None);
    match target(&maps, 0x2ff0, Arch::X86_64) {
        Target::Scan { addr, len, map } => assert_eq!((addr, len, map.lo), (0x2ff0, 16, 0x2000)),
        _ => panic!("it is code"),
    }
    assert_eq!(target(&maps, 0x1100, Arch::X86_64), Target::Stop);
    assert_eq!(target(&maps, 0x2101, Arch::Arm), Target::Skip);
}

#[test]
fn the_search_ends_at_the_first_check() {
    let maps = Mappings::read(MAPS, 100);
    let name = b"N5smisc25SFeatureDynamicResolutionE\0";
    let mut rodata = vec![0u8; 0x1000];
    rodata[0x20..0x20 + name.len()].copy_from_slice(name);
    let code = vec![0u8; 0x1000];
    let mut data = vec![0u8; 0x1000];
    put(&mut data, 0x40, 0x3f00);
    let arch = Arch::X86_64;
    assert_eq!(locate(&maps, &vec![&rodata[..], &code, &data, &[]], b"none", 0x9999, arch), Err(Missing::Name));
    assert_eq!(locate(&maps, &vec![&rodata[..], &code, &data, &[]], name, 0x9999, arch), Err(Missing::Typeinfo));
    put(&mut data, 0x48, 0x1020);
    assert_eq!(locate(&maps, &vec![&rodata[..], &code, &data, &[]], name, 0x9999, arch), Err(Missing::Vtable));
    put(&mut data, 0x80, 0x3040);
    put(&mut data, 0x88, 0x2100);
    assert_eq!(locate(&maps, &vec![&rodata[..], &code, &data, &[]], name, 0x9999, arch), Ok(0x3088));

    assert_eq!(begin(&maps, 0x3088, arch), Step::Read { slot: 0, addr: 0x3088 });
    let scan = pointer_read(&maps, 0x3088, 0, 0x2100, arch);
    assert_eq!(scan, Step::Scan { slot: 0, addr: 0x2100, len: 64, map: maps.maps[1] });
    // no check in this one, so the next slot is read
    assert_eq!(code_read(&maps, 0x3088, 0, &[0x90; 64], arch), Step::Read { slot: 1, addr: 0x3090 });
    let found = code_read(&maps, 0x3088, 1, &[0x90, 0x75, 0x01, 0xc3, 0x90], arch);
    assert_eq!(found, Step::Patch { slot: 1, at: 1 });
    // the table ends with a pointer that is not to code, with its memory, and after 16 slots
    assert_eq!(pointer_read(&maps, 0x3088, 1, 0x1100, arch), Step::NotFound);
    assert_eq!(code_read(&maps, 0x3ff8, 0, &[0x90; 64], arch), Step::NotFound);
    assert_eq!(code_read(&maps, 0x3088, 15, &[0x90; 64], arch), Step::NotFound);
    // thumb code is passed over
    assert_eq!(pointer_read(&maps, 0x3088, 3, 0x2101, Arch::Arm), Step::Read { slot: 4, addr: 0x3098 });
}
