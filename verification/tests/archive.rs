use std::io::Write;

use unzipr::archive::new_from_bytes;
use unzipr::common::{get_files_list, new_from_file, parse_files_rec, FileRead};
use unzipr::error::ErrorKind;

fn stored() -> zip::write::FileOptions {
    zip::write::FileOptions::default().compression_method(zip::CompressionMethod::Stored)
}

fn packed(members: &[(&str, &[u8])], options: zip::write::FileOptions) -> Vec<u8> {
    let mut writer = zip::ZipWriter::new(std::io::Cursor::new(Vec::new()));
    for (name, content) in members {
        if name.ends_with('/') {
            writer.add_directory(*name, options).unwrap();
        } else {
            writer.start_file(*name, options).unwrap();
            writer.write_all(content).unwrap();
        }
    }
    writer.finish().unwrap().into_inner()
}

/// Where the record of the entry at `index` begins in the central directory.
fn central_record(bytes: &[u8], index: usize) -> usize {
    let mut seen = 0;
    for at in 0..bytes.len() - 3 {
        if bytes[at..at + 4] == [0x50, 0x4b, 0x01, 0x02] {
            if seen == index {
                return at;
            }
            seen += 1;
        }
    }
    panic!("no such record");
}

/// Marks the entry at `index` as encrypted, so that the decoder does not open it.
fn lock_entry(bytes: &mut Vec<u8>, index: usize) {
    let at = central_record(bytes, index);
    bytes[at + 8] |= 1;
}

/// Spoils the local header of the entry at `index`, so that the decoder cannot find it.
fn lose_entry(bytes: &mut Vec<u8>, index: usize) {
    let mut seen = 0;
    for at in 0..bytes.len() - 3 {
        if bytes[at..at + 4] == [0x50, 0x4b, 0x03, 0x04] {
            if seen == index {
                bytes[at] = b'X';
                return;
            }
            seen += 1;
        }
    }
    panic!("no such header");
}

fn is_io_error(kind: &ErrorKind) -> bool {
    matches!(kind, ErrorKind::IoError(_))
}

/// Takes the recorded attributes from the entry at `index`, and with them its mode.
fn strip_mode(bytes: &mut Vec<u8>, index: usize) {
    let at = central_record(bytes, index);
    for offset in 38..42 {
        bytes[at + offset] = 0;
    }
}

/// Changes one byte of the stored content `content`, so that its checksum no longer fits.
fn damage_content(bytes: &mut Vec<u8>, content: &[u8]) {
    let at = bytes.windows(content.len()).position(|window| window == content).unwrap();
    bytes[at] ^= 0xff;
}

#[test]
fn entries_come_by_index_with_name_and_mode() {
    let bytes = packed(&[("dir/", b""), ("dir/file.txt", b"content")], stored());
    let mut archive = new_from_bytes(bytes).unwrap();
    assert_eq!(2, archive.len());
    let first = archive.read_entry_by_index(0).ok().unwrap();
    assert_eq!("dir/", first.name);
    assert!(first.is_directory());
    assert_eq!(Some(0o40755), first.unix_mode);
    let second = archive.read_entry_by_index(1).ok().unwrap();
    assert_eq!("dir/file.txt", second.name);
    assert!(!second.is_directory());
    assert_eq!(Some(0o100644), second.unix_mode);
}

#[test]
fn the_mode_is_the_one_that_was_recorded() {
    let bytes = packed(&[("run.sh", b"#!/bin/sh\n")], stored().unix_permissions(0o750));
    let mut archive = new_from_bytes(bytes).unwrap();
    assert_eq!(Some(0o100750), archive.read_entry_by_index(0).ok().unwrap().unix_mode);
}

#[test]
fn an_entry_without_attributes_has_no_mode() {
    let mut bytes = packed(&[("a", b"1"), ("b", b"2")], stored());
    strip_mode(&mut bytes, 1);
    let mut archive = new_from_bytes(bytes).unwrap();
    assert_eq!(Some(0o100644), archive.read_entry_by_index(0).ok().unwrap().unix_mode);
    assert_eq!(None, archive.read_entry_by_index(1).ok().unwrap().unix_mode);
}

#[test]
fn content_comes_by_index() {
    let bytes = packed(&[("a", b"first"), ("b", b""), ("c", b"third")], stored());
    let mut archive = new_from_bytes(bytes).unwrap();
    assert_eq!(b"first".to_vec(), archive.read_content_by_index(0).ok().unwrap());
    assert_eq!(Vec::<u8>::new(), archive.read_content_by_index(1).ok().unwrap());
    assert_eq!(b"third".to_vec(), archive.read_content_by_index(2).ok().unwrap());
}

#[test]
fn compressed_content_comes_out_as_it_went_in() {
    let content: Vec<u8> = (0..20000u32).map(|n| (n % 7) as u8).collect();
    let bytes = packed(&[("big", &content)], zip::write::FileOptions::default());
    assert!(bytes.len() < content.len());
    let mut archive = new_from_bytes(bytes).unwrap();
    assert_eq!(content, archive.read_entry_by_name("big").ok().unwrap());
}

#[test]
fn content_comes_by_name() {
    let bytes = packed(&[("a", b"first"), ("dir/b", b"second")], stored());
    let mut archive = new_from_bytes(bytes).unwrap();
    assert_eq!(b"second".to_vec(), archive.read_entry_by_name("dir/b").ok().unwrap());
    assert_eq!(b"first".to_vec(), archive.read_entry_by_name("a").ok().unwrap());
    let error = archive.read_entry_by_name("b").err().unwrap();
    assert_eq!(ErrorKind::ZipFileEntryNotFound("b".to_string()), error.kind());
    let error = archive.read_entry_by_name("").err().unwrap();
    assert_eq!(ErrorKind::ZipFileEntryNotFound("".to_string()), error.kind());
}

#[test]
fn the_first_bearer_of_a_name_is_read_and_every_bearer_is_listed() {
    let bytes = packed(&[("x", b"one"), ("x", b"two"), ("x", b"three")], stored());
    let mut archive = new_from_bytes(bytes).unwrap();
    assert_eq!(b"one".to_vec(), archive.read_entry_by_name("x").ok().unwrap());
    assert_eq!(vec!["x", "x", "x"], get_files_list(&mut archive).unwrap());
    assert_eq!(b"two".to_vec(), archive.read_content_by_index(1).ok().unwrap());
}

#[test]
fn damaged_content_is_an_io_error_with_the_message() {
    let mut bytes = packed(&[("good", b"fine content"), ("bad", b"spoiled content")], stored());
    damage_content(&mut bytes, b"spoiled content");
    let mut archive = new_from_bytes(bytes).unwrap();
    assert_eq!(vec!["good", "bad"], get_files_list(&mut archive).unwrap());
    assert_eq!(b"fine content".to_vec(), archive.read_entry_by_name("good").ok().unwrap());
    let error = archive.read_entry_by_name("bad").err().unwrap();
    assert_eq!(ErrorKind::IoError("Invalid checksum".to_string()), error.kind());
    let error = archive.read_content_by_index(1).err().unwrap();
    assert_eq!(ErrorKind::IoError("Invalid checksum".to_string()), error.kind());
}

#[test]
fn an_entry_that_does_not_open_has_its_name_and_no_content() {
    let mut bytes = packed(
        &[("locked", b"a secret that is long enough"), ("open", b"plain")],
        stored(),
    );
    lock_entry(&mut bytes, 0);
    let mut archive = new_from_bytes(bytes).unwrap();
    assert_eq!(vec!["locked", "open"], get_files_list(&mut archive).unwrap());
    assert_eq!("locked", archive.read_entry_by_index(0).ok().unwrap().name);
    assert!(archive.contains("locked"));
    let error = archive.read_entry_by_name("locked").err().unwrap();
    assert!(is_io_error(&error.kind()), "{:?}", error.kind());
    let error = archive.read_content_by_index(0).err().unwrap();
    assert!(is_io_error(&error.kind()), "{:?}", error.kind());
    assert_eq!(b"plain".to_vec(), archive.read_entry_by_name("open").ok().unwrap());
}

#[test]
fn the_first_bearer_counts_even_where_it_does_not_open() {
    let mut bytes = packed(
        &[("twin", b"a secret that is long enough"), ("twin", b"plain")],
        stored(),
    );
    lock_entry(&mut bytes, 0);
    let mut archive = new_from_bytes(bytes).unwrap();
    let error = archive.read_entry_by_name("twin").err().unwrap();
    assert!(is_io_error(&error.kind()), "{:?}", error.kind());
    assert_eq!(b"plain".to_vec(), archive.read_content_by_index(1).ok().unwrap());
}

#[test]
fn a_name_that_no_entry_has_is_not_found_whatever_else_is_wrong() {
    let mut bytes = packed(&[("a", b"1"), ("b", b"2"), ("c", b"3")], stored());
    lock_entry(&mut bytes, 0);
    lose_entry(&mut bytes, 1);
    let mut archive = new_from_bytes(bytes).unwrap();
    assert!(!archive.contains("d"));
    let error = archive.read_entry_by_name("d").err().unwrap();
    assert_eq!(ErrorKind::ZipFileEntryNotFound("d".to_string()), error.kind());
    assert!(archive.contains("a") && archive.contains("b") && archive.contains("c"));
}

#[test]
fn a_lost_entry_gives_no_name_and_stands_in_no_ones_way() {
    let mut bytes = packed(&[("a", b"1"), ("b", b"2"), ("c", b"3")], stored());
    lose_entry(&mut bytes, 1);
    let mut archive = new_from_bytes(bytes).unwrap();
    assert_eq!(3, archive.len());
    let error = archive.read_entry_by_index(1).err().unwrap();
    assert_eq!(ErrorKind::IoError("invalid Zip archive: Invalid local file header".to_string()), error.kind());
    assert_eq!(b"1".to_vec(), archive.read_entry_by_name("a").ok().unwrap());
    assert_eq!(b"3".to_vec(), archive.read_entry_by_name("c").ok().unwrap());
    assert_eq!(b"3".to_vec(), archive.read_content_by_index(2).ok().unwrap());
}

#[test]
fn a_name_of_lost_entries_only_fails_with_the_message_of_the_first_lost_entry() {
    let mut bytes = packed(&[("a", b"1"), ("b", b"2"), ("c", b"3")], stored());
    lose_entry(&mut bytes, 1);
    let mut archive = new_from_bytes(bytes).unwrap();
    assert!(archive.contains("b"));
    let error = archive.read_entry_by_name("b").err().unwrap();
    assert_eq!(ErrorKind::IoError("invalid Zip archive: Invalid local file header".to_string()), error.kind());
}

#[test]
fn the_first_readable_bearer_counts_where_an_earlier_one_is_lost() {
    let mut bytes = packed(&[("x", b"0"), ("twin", b"one"), ("twin", b"two")], stored());
    lose_entry(&mut bytes, 0);
    lose_entry(&mut bytes, 0);
    let mut archive = new_from_bytes(bytes).unwrap();
    assert!(archive.read_entry_by_index(0).is_err());
    assert!(archive.read_entry_by_index(1).is_err());
    assert_eq!(b"two".to_vec(), archive.read_entry_by_name("twin").ok().unwrap());
    assert!(matches!(archive.read_entry_by_name("x").err().unwrap().kind(), ErrorKind::IoError(_)));
}

#[test]
fn a_walk_is_not_stopped_by_a_lost_entry_of_another_name() {
    let inner = packed(&[("deep.txt", b"deep down")], stored());
    let mut outer = packed(&[("other", b"o"), ("inner.zip", &inner)], stored());
    lose_entry(&mut outer, 0);
    let mut end = parse_files_rec(new_from_bytes(outer).unwrap(), &["inner.zip"]).unwrap();
    assert_eq!(vec!["deep.txt"], get_files_list(&mut end).unwrap());
}

#[test]
fn listing_fails_at_the_first_entry_that_is_lost() {
    let mut bytes = packed(&[("a", b"1"), ("b", b"2"), ("c", b"3")], stored());
    lose_entry(&mut bytes, 1);
    let mut archive = new_from_bytes(bytes).unwrap();
    let error = get_files_list(&mut archive).err().unwrap();
    assert_eq!(ErrorKind::IoError("invalid Zip archive: Invalid local file header".to_string()), error.kind());
}

/// The archive with `extra` put into the central record of its first entry, and with
/// the offset of that entry replaced where one is given.
fn with_extra_data(good: &[u8], extra: &[u8], offset: Option<[u8; 4]>) -> Vec<u8> {
    let directory = central_record(good, 0);
    let end = good.windows(4).position(|window| window == [0x50, 0x4b, 0x05, 0x06]).unwrap();
    let mut header = good[directory..end].to_vec();
    let name_length = u16::from_le_bytes([header[28], header[29]]) as usize;
    header[30..32].copy_from_slice(&(extra.len() as u16).to_le_bytes());
    if let Some(offset) = offset {
        header[42..46].copy_from_slice(&offset);
    }
    let tail = header.split_off(46 + name_length);
    header.extend_from_slice(extra);
    header.extend_from_slice(&tail);
    let mut footer = good[end..].to_vec();
    let size = u32::from_le_bytes([footer[12], footer[13], footer[14], footer[15]]);
    footer[12..16].copy_from_slice(&(size + extra.len() as u32).to_le_bytes());
    let mut bytes = good[..directory].to_vec();
    bytes.extend_from_slice(&header);
    bytes.extend_from_slice(&footer);
    bytes
}

#[test]
fn an_offset_beyond_all_numbers_is_no_archive() {
    let good = packed(&[("a", b"x")], stored());
    let mut extra = vec![0x01, 0x00, 0x08, 0x00];
    extra.extend_from_slice(&[0xff; 8]);
    let mut bytes = vec![0u8];
    bytes.extend_from_slice(&with_extra_data(&good, &extra, Some([0xff; 4])));
    assert!(new_from_bytes(bytes.clone()).is_err());
    let error = new_from_file("crafted.zip", FileRead::Contents(bytes)).err().unwrap();
    assert_eq!(ErrorKind::NotZipArchive("crafted.zip".to_string()), error.kind());
}

#[test]
fn stray_encryption_data_makes_the_content_unreadable_and_nothing_else() {
    let good = packed(&[("a", b"x"), ("b", b"y")], stored());
    let extra = [0x01, 0x99, 0x07, 0x00, 0x02, 0x00, 0x41, 0x45, 0x01, 0x00, 0x00];
    let bytes = with_extra_data(&good, &extra, None);
    let mut archive = new_from_bytes(bytes).unwrap();
    assert_eq!(vec!["a", "b"], get_files_list(&mut archive).unwrap());
    assert!(archive.contains("a"));
    let error = archive.read_entry_by_name("a").err().unwrap();
    assert_eq!(
        ErrorKind::IoError("invalid password for file in archive".to_string()),
        error.kind()
    );
    assert_eq!(b"y".to_vec(), archive.read_entry_by_name("b").ok().unwrap());
}

#[test]
fn a_name_that_ends_in_either_separator_is_a_directory() {
    let bytes = packed(&[("plain", b"x")], stored());
    let mut writer = zip::ZipWriter::new_append(std::io::Cursor::new(bytes)).unwrap();
    writer.start_file("back\\", stored()).unwrap();
    writer.add_directory("forward/", stored()).unwrap();
    let bytes = writer.finish().unwrap().into_inner();
    let mut archive = new_from_bytes(bytes).unwrap();
    assert!(!archive.read_entry_by_index(0).ok().unwrap().is_directory());
    assert!(archive.read_entry_by_index(1).ok().unwrap().is_directory());
    assert!(archive.read_entry_by_index(2).ok().unwrap().is_directory());
}

#[test]
fn reading_leaves_the_archive_as_it_was() {
    let bytes = packed(&[("a", b"first"), ("b", b"second")], stored());
    let mut archive = new_from_bytes(bytes).unwrap();
    let before = get_files_list(&mut archive).unwrap();
    archive.read_entry_by_name("b").ok().unwrap();
    archive.read_content_by_index(0).ok().unwrap();
    archive.read_entry_by_name("missing").err().unwrap();
    assert_eq!(before, get_files_list(&mut archive).unwrap());
    assert_eq!(b"second".to_vec(), archive.read_entry_by_name("b").ok().unwrap());
}

#[test]
fn buffers_that_are_no_containers_are_refused() {
    let good = packed(&[("a", b"first")], stored());
    let mut cut = good.clone();
    cut.truncate(good.len() - 10);
    let mut spoiled = good.clone();
    let at = central_record(&spoiled, 0);
    spoiled[at] = b'X';
    for (label, bytes) in [
        ("empty", Vec::new()),
        ("text", b"This is a plain text file, long enough to hold a footer.".to_vec()),
        ("cut", cut),
        ("spoiled", spoiled),
    ] {
        assert!(new_from_bytes(bytes.clone()).is_err(), "{}", label);
        let error = new_from_file(label, FileRead::Contents(bytes)).err().unwrap();
        assert_eq!(ErrorKind::NotZipArchive(label.to_string()), error.kind());
    }
    assert!(new_from_bytes(good).is_ok());
}

#[test]
fn an_empty_chain_gives_the_archive_back() {
    let bytes = packed(&[("a", b"first"), ("b/", b"")], stored());
    let archive = new_from_bytes(bytes).unwrap();
    let mut same = parse_files_rec(archive, &[]).unwrap();
    assert_eq!(vec!["a", "b/"], get_files_list(&mut same).unwrap());
    assert_eq!(b"first".to_vec(), same.read_entry_by_name("a").ok().unwrap());
}

#[test]
fn a_chain_can_be_walked_in_parts() {
    let innermost = packed(&[("deep.txt", b"deep down")], stored());
    let middle = packed(&[("c.zip", &innermost), ("m.txt", b"middle")], stored());
    let outer = packed(&[("o.txt", b"outer"), ("b.zip", &middle)], stored());

    let whole = parse_files_rec(new_from_bytes(outer.clone()).unwrap(), &["b.zip", "c.zip"]);
    let mut whole = whole.unwrap();

    let first = parse_files_rec(new_from_bytes(outer.clone()).unwrap(), &["b.zip"]).unwrap();
    let mut parts = parse_files_rec(first, &["c.zip"]).unwrap();

    assert_eq!(get_files_list(&mut whole).unwrap(), get_files_list(&mut parts).unwrap());
    assert_eq!(b"deep down".to_vec(), whole.read_entry_by_name("deep.txt").ok().unwrap());
    assert_eq!(b"deep down".to_vec(), parts.read_entry_by_name("deep.txt").ok().unwrap());

    let whole = parse_files_rec(new_from_bytes(outer.clone()).unwrap(), &["b.zip", "m.txt"]);
    let first = parse_files_rec(new_from_bytes(outer.clone()).unwrap(), &["b.zip"]).unwrap();
    let parts = parse_files_rec(first, &["m.txt"]);
    assert_eq!(ErrorKind::ZipEntryNotZipArchive("m.txt".to_string()), whole.err().unwrap().kind());
    assert_eq!(ErrorKind::ZipEntryNotZipArchive("m.txt".to_string()), parts.err().unwrap().kind());

    let whole = parse_files_rec(new_from_bytes(outer).unwrap(), &["x.zip", "c.zip"]);
    assert_eq!(ErrorKind::ZipFileEntryNotFound("x.zip".to_string()), whole.err().unwrap().kind());
}

#[test]
fn a_missing_member_ends_the_walk() {
    let bytes = packed(&[("a", b"first")], stored());
    let end = parse_files_rec(new_from_bytes(bytes).unwrap(), &["missing_member"]);
    assert_eq!(
        ErrorKind::ZipFileEntryNotFound("missing_member".to_string()),
        end.err().unwrap().kind()
    );
}

#[test]
fn a_member_with_damaged_content_ends_the_walk_with_the_message() {
    let inner = packed(&[("a", b"first")], stored());
    let mut outer = packed(&[("inner.zip", &inner)], stored());
    damage_content(&mut outer, &inner);
    let end = parse_files_rec(new_from_bytes(outer).unwrap(), &["inner.zip"]);
    assert_eq!(ErrorKind::IoError("Invalid checksum".to_string()), end.err().unwrap().kind());
}
