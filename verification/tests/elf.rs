use pyroscope_kit::elf::{
    pick_symbols, resolve_elf_symbols, resolve_elf_symbols_from_bytes, DynamicSymbol, ElfSymbols,
    ObjectImage,
};
use pyroscope_kit::errors::InitError;
use pyroscope_kit::maps::PythonBinary;

/// Build a minimal ELF64 LE shared object in memory containing exactly the
/// symbols requested.  The file has:
///
///   ELF header  (64 B)
///   .dynstr     (variable, at offset 64)
///   .dynsym     (3 × 24 B = 72 B, follows .dynstr)
///   Section header table  (4 × 64 B, follows .dynsym)
///
/// No segments, no PT_DYNAMIC.  The `object` crate locates `.dynsym` and
/// `.dynstr` by section name when no PT_DYNAMIC is present, which is enough
/// for `dynamic_symbols()` to work.
fn build_elf_fixture(syms: &[(&str, u64)]) -> Vec<u8> {
    // ── .dynstr ──────────────────────────────────────────────────────────
    // Layout:  \0  <name0>\0  <name1>\0  …
    let mut dynstr: Vec<u8> = vec![0u8]; // index 0 = empty string (null symbol name)
    let mut name_offsets: Vec<u32> = Vec::new();
    for (name, _) in syms {
        name_offsets.push(dynstr.len() as u32);
        dynstr.extend_from_slice(name.as_bytes());
        dynstr.push(0);
    }
    // Pad .dynstr to 8-byte alignment
    while dynstr.len() % 8 != 0 {
        dynstr.push(0);
    }

    // ── layout constants ─────────────────────────────────────────────────
    let elf_hdr_size: u64 = 64;
    let sym_size: u64 = 24; // Elf64_Sym
    let n_syms: u64 = 1 + syms.len() as u64; // null entry + real entries
    let shdr_size: u64 = 64; // Elf64_Shdr
    let n_shdrs: u64 = 4; // NULL, .dynstr, .dynsym, .shstrtab

    let dynstr_off = elf_hdr_size;
    let dynstr_len = dynstr.len() as u64;
    let dynsym_off = dynstr_off + dynstr_len;
    let dynsym_len = n_syms * sym_size;

    // .shstrtab: \0.dynstr\0.dynsym\0.shstrtab\0
    let shstrtab_raw: &[u8] = b"\x00.dynstr\x00.dynsym\x00.shstrtab\x00";
    let shstrtab_off = dynsym_off + dynsym_len;
    let shstrtab_len = shstrtab_raw.len() as u64;

    let shdr_off = shstrtab_off + shstrtab_len;

    // section name indices within .shstrtab
    let shstrtab_idx_dynstr: u32 = 1; // offset of ".dynstr" in shstrtab_raw
    let shstrtab_idx_dynsym: u32 = 9; // offset of ".dynsym"
    let shstrtab_idx_shstrtab: u32 = 17; // offset of ".shstrtab"

    // .shstrtab section index (for e_shstrndx)
    let shstrndx: u16 = 3;

    // ── ELF header ───────────────────────────────────────────────────────
    let mut buf: Vec<u8> = Vec::new();

    // e_ident[16]
    buf.extend_from_slice(b"\x7fELF"); // magic
    buf.push(2); // EI_CLASS = ELFCLASS64
    buf.push(1); // EI_DATA  = ELFDATA2LSB
    buf.push(1); // EI_VERSION = EV_CURRENT
    buf.push(0); // EI_OSABI = ELFOSABI_NONE
    buf.extend_from_slice(&[0u8; 8]); // padding

    buf.extend_from_slice(&3u16.to_le_bytes()); // e_type = ET_DYN
    buf.extend_from_slice(&62u16.to_le_bytes()); // e_machine = EM_X86_64
    buf.extend_from_slice(&1u32.to_le_bytes()); // e_version
    buf.extend_from_slice(&0u64.to_le_bytes()); // e_entry
    buf.extend_from_slice(&0u64.to_le_bytes()); // e_phoff (no segments)
    buf.extend_from_slice(&shdr_off.to_le_bytes()); // e_shoff
    buf.extend_from_slice(&0u32.to_le_bytes()); // e_flags
    buf.extend_from_slice(&(elf_hdr_size as u16).to_le_bytes()); // e_ehsize
    buf.extend_from_slice(&0u16.to_le_bytes()); // e_phentsize
    buf.extend_from_slice(&0u16.to_le_bytes()); // e_phnum
    buf.extend_from_slice(&(shdr_size as u16).to_le_bytes()); // e_shentsize
    buf.extend_from_slice(&(n_shdrs as u16).to_le_bytes()); // e_shnum
    buf.extend_from_slice(&shstrndx.to_le_bytes()); // e_shstrndx

    assert_eq!(buf.len(), 64);

    // ── .dynstr ──────────────────────────────────────────────────────────
    buf.extend_from_slice(&dynstr);
    assert_eq!(buf.len() as u64, dynsym_off);

    // ── .dynsym ──────────────────────────────────────────────────────────
    // Null symbol entry (all zeros)
    buf.extend_from_slice(&[0u8; 24]);

    // Real symbol entries: Elf64_Sym { st_name, st_info, st_other, st_shndx, st_value, st_size }
    for (i, (_name, addr)) in syms.iter().enumerate() {
        let st_name = name_offsets[i];
        buf.extend_from_slice(&st_name.to_le_bytes()); // st_name  (u32)
        buf.push(0x12); // st_info = STB_GLOBAL | STT_OBJECT
        buf.push(0); // st_other
        buf.extend_from_slice(&0u16.to_le_bytes()); // st_shndx = SHN_UNDEF (ok for test)
        buf.extend_from_slice(&addr.to_le_bytes()); // st_value (u64)
        buf.extend_from_slice(&0u64.to_le_bytes()); // st_size
    }

    assert_eq!(buf.len() as u64, shstrtab_off);

    // ── .shstrtab ────────────────────────────────────────────────────────
    buf.extend_from_slice(shstrtab_raw);
    assert_eq!(buf.len() as u64, shdr_off);

    // ── Section header table ─────────────────────────────────────────────
    // Helper: write one Elf64_Shdr
    let write_shdr = |buf: &mut Vec<u8>,
                      sh_name: u32,
                      sh_type: u32,
                      sh_flags: u64,
                      sh_addr: u64,
                      sh_offset: u64,
                      sh_size: u64,
                      sh_link: u32,
                      sh_info: u32,
                      sh_addralign: u64,
                      sh_entsize: u64| {
        buf.extend_from_slice(&sh_name.to_le_bytes());
        buf.extend_from_slice(&sh_type.to_le_bytes());
        buf.extend_from_slice(&sh_flags.to_le_bytes());
        buf.extend_from_slice(&sh_addr.to_le_bytes());
        buf.extend_from_slice(&sh_offset.to_le_bytes());
        buf.extend_from_slice(&sh_size.to_le_bytes());
        buf.extend_from_slice(&sh_link.to_le_bytes());
        buf.extend_from_slice(&sh_info.to_le_bytes());
        buf.extend_from_slice(&sh_addralign.to_le_bytes());
        buf.extend_from_slice(&sh_entsize.to_le_bytes());
    };

    // SHT_NULL
    write_shdr(&mut buf, 0, 0, 0, 0, 0, 0, 0, 0, 0, 0);

    // .dynstr  SHT_STRTAB = 3
    write_shdr(
        &mut buf,
        shstrtab_idx_dynstr,
        3,
        0,
        0,
        dynstr_off,
        dynstr_len,
        0,
        0,
        1,
        0,
    );

    // .dynsym  SHT_DYNSYM = 11
    // sh_link = index of .dynstr section (1), sh_info = first global symbol index (1)
    write_shdr(
        &mut buf,
        shstrtab_idx_dynsym,
        11,
        0,
        0,
        dynsym_off,
        dynsym_len,
        1,
        1,
        8,
        sym_size,
    );

    // .shstrtab  SHT_STRTAB = 3
    write_shdr(
        &mut buf,
        shstrtab_idx_shstrtab,
        3,
        0,
        0,
        shstrtab_off,
        shstrtab_len,
        0,
        0,
        1,
        0,
    );

    buf
}

#[test]
fn elf_fixture_both_symbols_found() {
    let py_runtime_val: u64 = 0x1000;
    let py_version_val: u64 = 0x2000;
    let elf = build_elf_fixture(&[
        ("_PyRuntime", py_runtime_val),
        ("Py_Version", py_version_val),
    ]);

    let mapped_base: u64 = 0x7f0000000000;
    // For an ET_DYN with no PT_LOAD the file's base is 0, so load_bias = mapped_base.
    let result = resolve_elf_symbols_from_bytes(&elf, mapped_base).unwrap();
    assert_eq!(result.py_runtime_addr, mapped_base + py_runtime_val);
    assert_eq!(result.py_version_addr, mapped_base + py_version_val);
}

#[test]
fn elf_fixture_missing_py_runtime() {
    let elf = build_elf_fixture(&[("Py_Version", 0x2000)]);
    let result = resolve_elf_symbols_from_bytes(&elf, 0x7f0000000000);
    assert_eq!(result, Err(InitError::SymbolNotFound));
}

#[test]
fn elf_fixture_missing_py_version() {
    let elf = build_elf_fixture(&[("_PyRuntime", 0x1000)]);
    let result = resolve_elf_symbols_from_bytes(&elf, 0x7f0000000000);
    assert_eq!(result, Err(InitError::SymbolNotFound));
}

#[test]
fn elf_fixture_no_symbols() {
    let elf = build_elf_fixture(&[]);
    let result = resolve_elf_symbols_from_bytes(&elf, 0x7f0000000000);
    assert_eq!(result, Err(InitError::SymbolNotFound));
}

#[test]
fn elf_invalid_bytes_returns_elf_parse_error() {
    let result = resolve_elf_symbols_from_bytes(b"not an elf file", 0x1000);
    assert_eq!(result, Err(InitError::ElfParse));
}

fn symbol(name: &str, address: u64) -> DynamicSymbol {
    DynamicSymbol { name: Some(name.as_bytes().to_vec()), address }
}

fn unnamed(address: u64) -> DynamicSymbol {
    DynamicSymbol { name: None, address }
}

fn image(segment_addresses: Vec<u64>, dynamic_symbols: Vec<DynamicSymbol>) -> ObjectImage {
    ObjectImage { segment_addresses, dynamic_symbols }
}

/// The fixture with program headers of the given types and addresses behind everything else.
fn build_elf_with_segments(syms: &[(&str, u64)], segments: &[(u32, u64)]) -> Vec<u8> {
    let mut elf = build_elf_fixture(syms);
    let phoff = elf.len() as u64;
    elf[32..40].copy_from_slice(&phoff.to_le_bytes());
    elf[54..56].copy_from_slice(&56u16.to_le_bytes());
    elf[56..58].copy_from_slice(&(segments.len() as u16).to_le_bytes());
    for (p_type, p_vaddr) in segments {
        elf.extend_from_slice(&p_type.to_le_bytes());
        elf.extend_from_slice(&5u32.to_le_bytes()); // p_flags
        elf.extend_from_slice(&0u64.to_le_bytes()); // p_offset
        elf.extend_from_slice(&p_vaddr.to_le_bytes());
        elf.extend_from_slice(&p_vaddr.to_le_bytes()); // p_paddr
        elf.extend_from_slice(&0u64.to_le_bytes()); // p_filesz
        elf.extend_from_slice(&0u64.to_le_bytes()); // p_memsz
        elf.extend_from_slice(&0x1000u64.to_le_bytes()); // p_align
    }
    elf
}

const PT_LOAD: u32 = 1;
const PT_NOTE: u32 = 4;

#[test]
fn fixed_address_binary_keeps_its_addresses() {
    let syms = [("_PyRuntime", 0x60_1000), ("Py_Version", 0x60_2000)];
    let elf = build_elf_with_segments(&syms, &[(PT_LOAD, 0x40_0000), (PT_LOAD, 0x60_0000)]);
    assert_eq!(
        resolve_elf_symbols_from_bytes(&elf, 0x40_0000),
        Ok(ElfSymbols { py_runtime_addr: 0x60_1000, py_version_addr: 0x60_2000 })
    );
}

#[test]
fn position_independent_binary_moves_by_its_mapping() {
    let syms = [("_PyRuntime", 0x1000), ("Py_Version", 0x2000)];
    let elf = build_elf_with_segments(&syms, &[(PT_LOAD, 0), (PT_LOAD, 0x1000)]);
    assert_eq!(
        resolve_elf_symbols_from_bytes(&elf, 0x7f00_0000_0000),
        Ok(ElfSymbols { py_runtime_addr: 0x7f00_0000_1000, py_version_addr: 0x7f00_0000_2000 })
    );
}

#[test]
fn segments_that_are_not_loaded_do_not_count() {
    let syms = [("_PyRuntime", 0x40_1000), ("Py_Version", 0x40_2000)];
    let elf = build_elf_with_segments(&syms, &[(PT_NOTE, 0x123), (PT_LOAD, 0x40_0000)]);
    assert_eq!(
        resolve_elf_symbols_from_bytes(&elf, 0x50_0000),
        Ok(ElfSymbols { py_runtime_addr: 0x50_1000, py_version_addr: 0x50_2000 })
    );
}

#[test]
fn other_symbols_are_passed_over() {
    let elf = build_elf_fixture(&[
        ("PyObject_Call", 0x500),
        ("Py_Version", 0x2000),
        ("_PyRuntime_Finalize", 0x600),
        ("_PyRuntime", 0x1000),
        ("_PyRuntime", 0x9999),
    ]);
    assert_eq!(
        resolve_elf_symbols_from_bytes(&elf, 0x10_0000),
        Ok(ElfSymbols { py_runtime_addr: 0x10_1000, py_version_addr: 0x10_2000 })
    );
}

#[test]
fn addresses_wrap_around() {
    let elf = build_elf_fixture(&[("_PyRuntime", 0x1000), ("Py_Version", 0x2000)]);
    assert_eq!(
        resolve_elf_symbols_from_bytes(&elf, u64::MAX),
        Ok(ElfSymbols { py_runtime_addr: 0xfff, py_version_addr: 0x1fff })
    );
}

#[test]
fn addresses_move_with_the_mapping() {
    let elf = build_elf_fixture(&[("_PyRuntime", 0x1000), ("Py_Version", 0x2000)]);
    let low = resolve_elf_symbols_from_bytes(&elf, 0x4000).unwrap();
    let high = resolve_elf_symbols_from_bytes(&elf, 0x4000 + 0x123).unwrap();
    assert_eq!(high.py_runtime_addr, low.py_runtime_addr + 0x123);
    assert_eq!(high.py_version_addr, low.py_version_addr + 0x123);
}

#[test]
fn empty_and_cut_files_do_not_parse() {
    let elf = build_elf_fixture(&[("_PyRuntime", 0x1000), ("Py_Version", 0x2000)]);
    assert_eq!(resolve_elf_symbols_from_bytes(&[], 0), Err(InitError::ElfParse));
    assert_eq!(resolve_elf_symbols_from_bytes(&elf[..15], 0), Err(InitError::ElfParse));
    assert_eq!(resolve_elf_symbols_from_bytes(&elf[..40], 0), Err(InitError::ElfParse));
}

#[test]
fn file_that_cannot_be_read_is_an_io_error() {
    let binary = PythonBinary { base: 0x7000, path: String::from("/usr/bin/python3") };
    let elf = build_elf_fixture(&[("_PyRuntime", 0x10), ("Py_Version", 0x20)]);
    assert_eq!(resolve_elf_symbols(&binary, None), Err(InitError::Io));
    assert_eq!(
        resolve_elf_symbols(&binary, Some(elf.as_slice())),
        Ok(ElfSymbols { py_runtime_addr: 0x7010, py_version_addr: 0x7020 })
    );
    assert_eq!(resolve_elf_symbols(&binary, Some(b"MZ".as_slice())), Err(InitError::ElfParse));
}

#[test]
fn table_is_read_until_both_names_are_seen() {
    // The second `_PyRuntime` comes before `Py_Version`, so it counts; the third does not.
    let table = image(
        vec![],
        vec![
            symbol("_PyRuntime", 1),
            unnamed(7),
            symbol("_PyRuntime", 2),
            symbol("Py_Version", 3),
            symbol("_PyRuntime", 4),
            symbol("Py_Version", 5),
        ],
    );
    assert_eq!(
        pick_symbols(&table, 0x100),
        Ok(ElfSymbols { py_runtime_addr: 0x102, py_version_addr: 0x103 })
    );
}

#[test]
fn base_of_the_file_is_taken_off() {
    let table = image(
        vec![0x40_0000, 0x10],
        vec![symbol("Py_Version", 0x40_0020), symbol("_PyRuntime", 0x40_0010)],
    );
    assert_eq!(
        pick_symbols(&table, 0x40_0000),
        Ok(ElfSymbols { py_runtime_addr: 0x40_0010, py_version_addr: 0x40_0020 })
    );
    assert_eq!(
        pick_symbols(&table, 0),
        Ok(ElfSymbols { py_runtime_addr: 0x10, py_version_addr: 0x20 })
    );
}

#[test]
fn unreadable_names_are_no_names() {
    let table = image(vec![], vec![unnamed(1), symbol("Py_Version", 2)]);
    assert_eq!(pick_symbols(&table, 0), Err(InitError::SymbolNotFound));
}
