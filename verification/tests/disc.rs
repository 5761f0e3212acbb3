use decompiler::big_endian::word_at;
use decompiler::dol::reader::Reader as DolReader;
use decompiler::dol::section::Section;
use decompiler::gamecube_disc::fs_table_reader::FsTableReader;
use decompiler::gamecube_disc::reader::Reader as DiscReader;
use decompiler::gamecube_disc::SIZE;
use decompiler::gamecube_disc::header_reader::HeaderReader;
use decompiler::text::escape;

/// A DOL file with one section that is loaded to `load_address` and holds
/// the given words.
fn dol_image(load_address: u32, words: &[u32]) -> Vec<u8> {
    let mut image = vec![0u8; 0x100];
    let size = 4 * words.len() as u32;
    image[0x00..0x04].copy_from_slice(&0x100u32.to_be_bytes());
    image[0x48..0x4c].copy_from_slice(&load_address.to_be_bytes());
    image[0x90..0x94].copy_from_slice(&size.to_be_bytes());
    image[0xe0..0xe4].copy_from_slice(&load_address.to_be_bytes());
    for word in words {
        image.extend_from_slice(&word.to_be_bytes());
    }
    image
}

#[test]
fn test() {
    const DATA: &'static [u8] = &[0x41, 0x42, 0x43, 0x44, 0x45, 0x46, 0x01, 0x02];
    let header = HeaderReader::new(DATA);
    assert_eq!(header.game_code(), "ABCD");
    assert_eq!(header.maker_code(), "EF");
    assert_eq!(header.disc_id(), 1);
    assert_eq!(header.version(), 2);
}

#[test]
fn header_codes_are_escaped() {
    let data = [0x00, b'\n', b'"', 0x7f, b'\\', 0xff, 9, 8];
    let header = HeaderReader::new(&data);
    assert_eq!(header.game_code(), "\\u{0}\\n\\\"\\u{7f}");
    assert_eq!(header.maker_code(), "\\\\\\u{ff}");
    assert_eq!(header.disc_id(), 9);
    assert_eq!(header.version(), 8);
}

#[test]
fn escape_agrees_with_the_standard_library() {
    for byte in 0..=255u8 {
        let expected: String = (byte as char).escape_default().collect();
        assert_eq!(escape(&[byte]), expected);
    }
    assert_eq!(escape(&[]), "");
    assert_eq!(escape(b"a\tb"), "a\\tb");
}

#[test]
fn words_are_big_endian() {
    let data = [0x12, 0x34, 0x56, 0x78, 0x9a];
    assert_eq!(word_at(&data, 0), Some(0x12345678));
    assert_eq!(word_at(&data, 1), Some(0x3456789a));
    assert_eq!(word_at(&data, 2), None);
    assert_eq!(word_at(&data, 5), None);
    assert_eq!(word_at(&data, 6), None);
    assert_eq!(word_at(&[0xff, 0xff, 0xff, 0xff], 0), Some(0xffff_ffff));
}

#[test]
fn section_maps_whole_words_only() {
    let section = Section { offset: 0x100, load_address: 0x8000_3100, size: 8 };
    assert_eq!(section.offset_for_dword_address(0x8000_30fc), None);
    assert_eq!(section.offset_for_dword_address(0x8000_3100), Some(0x100));
    assert_eq!(section.offset_for_dword_address(0x8000_3104), Some(0x104));
    // The last byte of the word would lie behind the section.
    assert_eq!(section.offset_for_dword_address(0x8000_3105), None);
    assert_eq!(section.offset_for_dword_address(0x8000_3108), None);
    let empty = Section { offset: 0, load_address: 0, size: 0 };
    assert_eq!(empty.offset_for_dword_address(0), None);
    let short = Section { offset: 0, load_address: 0, size: 3 };
    assert_eq!(short.offset_for_dword_address(0), None);
    let high = Section { offset: 0xffff_fffc, load_address: 0, size: 16 };
    assert_eq!(high.offset_for_dword_address(0), Some(0xffff_fffc));
    assert_eq!(high.offset_for_dword_address(4), None);
}

#[test]
fn dol_reader_reads_loaded_words() {
    let image = dol_image(0x8000_3100, &[0x38600005, 0x4e800020]);
    let dol = DolReader::new(&image);
    assert_eq!(dol.entry_point(), 0x8000_3100);
    assert_eq!(dol.try_entry_point(), Some(0x8000_3100));
    assert_eq!(dol.read(0x8000_3100), 0x38600005);
    assert_eq!(dol.read(0x8000_3104), 0x4e800020);
    assert_eq!(dol.read(0x8000_3102), 0x00054e80);
    assert_eq!(dol.try_read(0x8000_3100), Some(0x38600005));
    assert_eq!(dol.try_read(0x8000_3104), Some(0x4e800020));
    assert_eq!(dol.try_read(0x8000_3102), Some(0x00054e80));
    assert_eq!(dol.try_read(0x8000_3108), None);
    assert_eq!(dol.try_read(0x8000_30fc), None);
    assert_eq!(dol.try_read(0), None);
    let first = dol.section(0);
    assert_eq!(first, Section { offset: 0x100, load_address: 0x8000_3100, size: 8 });
    assert_eq!(dol.section(17), Section { offset: 0, load_address: 0, size: 0 });
    let mut sections = dol.iter_sections();
    assert_eq!(sections.len(), 18);
    assert_eq!(sections.next(), Some(first));
    let mut count = 1;
    while let Some(section) = sections.next() {
        assert_eq!(section.size, 0);
        count += 1;
    }
    assert_eq!(count, 18);
    assert_eq!(sections.len(), 0);
    assert_eq!(sections.next(), None);
}

#[test]
fn dol_reader_takes_the_first_section_that_maps_an_address() {
    let mut image = dol_image(0x1000, &[1, 2, 3, 4]);
    // A second section over the last two words of the first, loaded to the
    // same place as its first two words.
    image[0x04..0x08].copy_from_slice(&0x108u32.to_be_bytes());
    image[0x4c..0x50].copy_from_slice(&0x1000u32.to_be_bytes());
    image[0x94..0x98].copy_from_slice(&8u32.to_be_bytes());
    let dol = DolReader::new(&image);
    assert_eq!(dol.read(0x1000), 1);
    assert_eq!(dol.read(0x1008), 3);
    // Move the first section away: now the second one answers.
    image[0x48..0x4c].copy_from_slice(&0x2000u32.to_be_bytes());
    let dol = DolReader::new(&image);
    assert_eq!(dol.read(0x1000), 3);
    assert_eq!(dol.read(0x2000), 1);
    assert_eq!(dol.try_read(0x1008), None);
}

#[test]
fn dol_reader_refuses_what_is_no_dol() {
    assert!(DolReader::try_new(&[]).is_none());
    assert!(DolReader::try_new(&[0u8; 0xd7]).is_none());
    // A header without sections: nothing covers the tables.
    assert!(DolReader::try_new(&[0u8; 0x100]).is_none());
    // A section that ends behind the file.
    let mut image = dol_image(0x1000, &[1, 2]);
    image.pop();
    assert!(DolReader::try_new(&image).is_none());
    // A section whose end is no 32-bit number.
    let mut image = dol_image(0x1000, &[1, 2]);
    image[0x90..0x94].copy_from_slice(&0xffff_ff00u32.to_be_bytes());
    assert!(DolReader::try_new(&image).is_none());
    // What lies behind the last section is cut off.
    let mut image = dol_image(0x1000, &[]);
    image[0x90..0x94].copy_from_slice(&0u32.to_be_bytes());
    image[0x00..0x04].copy_from_slice(&0xd8u32.to_be_bytes());
    let dol = DolReader::try_new(&image).unwrap();
    assert_eq!(dol.try_entry_point(), None);
}

#[test]
fn fs_table_reader_finds_the_names() {
    let mut table = vec![0u8; 24];
    table[8..12].copy_from_slice(&2u32.to_be_bytes());
    table.extend_from_slice(b"names");
    let reader = FsTableReader::new(&table);
    assert_eq!(reader.root_entry_count(), 2);
    assert_eq!(reader.string_table(), &b"names"[..]);
    assert_eq!(reader.try_root_entry_count(), Some(2));
    assert_eq!(reader.try_string_table(), Some(&b"names"[..]));
    let short = FsTableReader::new(&table[..11]);
    assert_eq!(short.try_root_entry_count(), None);
    assert_eq!(short.try_string_table(), None);
    let cut = FsTableReader::new(&table[..23]);
    assert_eq!(cut.try_root_entry_count(), Some(2));
    assert_eq!(cut.try_string_table(), None);
    let exact = FsTableReader::new(&table[..24]);
    assert_eq!(exact.string_table(), &b""[..]);
}

#[test]
fn disc_reader_finds_the_executable_and_the_table() {
    let mut image = vec![0u8; SIZE + 4];
    image[0..8].copy_from_slice(b"GALE01\x00\x02");
    let dol = dol_image(0x8000_3100, &[0x38600005, 0x4e800020]);
    image[0x420..0x424].copy_from_slice(&0x1000u32.to_be_bytes());
    image[0x1000..0x1000 + dol.len()].copy_from_slice(&dol);
    image[0x424..0x428].copy_from_slice(&0x2000u32.to_be_bytes());
    image[0x428..0x42c].copy_from_slice(&29u32.to_be_bytes());
    image[0x2008..0x200c].copy_from_slice(&2u32.to_be_bytes());
    image[0x2018..0x201d].copy_from_slice(b"names");
    {
        let disc = DiscReader::new(&image);
        assert_eq!(disc.header().game_code(), "GALE");
        assert_eq!(disc.header().maker_code(), "01");
        assert_eq!(disc.header().disc_id(), 0);
        assert_eq!(disc.header().version(), 2);
        let executable = disc.main_executable();
        assert_eq!(executable.entry_point(), 0x8000_3100);
        assert_eq!(executable.read(0x8000_3104), 0x4e800020);
        assert_eq!(executable.try_read(0x8000_3108), None);
        assert!(disc.try_main_executable().is_some());
        let table = disc.fs_table();
        assert_eq!(table.root_entry_count(), 2);
        assert_eq!(table.string_table(), &b"names"[..]);
        assert!(disc.try_fs_table().is_some());
        assert!(disc.find_file("opening.bnr").is_none());
    }
    // Nothing that reads as a DOL file stands at the offset.
    image[0x420..0x424].copy_from_slice(&0x3000u32.to_be_bytes());
    // The table would end behind the image.
    image[0x424..0x428].copy_from_slice(&((SIZE - 28) as u32).to_be_bytes());
    {
        let disc = DiscReader::new(&image);
        assert!(disc.try_main_executable().is_none());
        assert!(disc.try_fs_table().is_none());
    }
    // The table ends where the image ends; the offset of the executable
    // lies behind the image.
    image[0x424..0x428].copy_from_slice(&((SIZE - 29) as u32).to_be_bytes());
    image[0x420..0x424].copy_from_slice(&((SIZE + 1) as u32).to_be_bytes());
    let disc = DiscReader::new(&image);
    assert!(disc.try_fs_table().is_some());
    assert!(disc.try_main_executable().is_none());
}
