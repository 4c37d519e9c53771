use std::io::Write;

use unzipr::archive::new_from_bytes;
use unzipr::common::{
    get_files_list, new_from_file, parse_file_to_archive, parse_files_rec, string_vec_to_str_vec,
    FileRead,
};
use unzipr::error::ErrorKind;

/// An archive with the directory `test/` and the file `test/test.txt`.
fn test_zip() -> Vec<u8> {
    let mut writer = zip::ZipWriter::new(std::io::Cursor::new(Vec::new()));
    let options = zip::write::FileOptions::default();
    writer.add_directory("test/", options).unwrap();
    writer.start_file("test/test.txt", options).unwrap();
    writer.write_all(b"test\n").unwrap();
    writer.finish().unwrap().into_inner()
}

/// An archive whose only member, `test.zip`, is the archive above.
fn test_test_zip() -> Vec<u8> {
    let mut writer = zip::ZipWriter::new(std::io::Cursor::new(Vec::new()));
    let options = zip::write::FileOptions::default();
    writer.start_file("test.zip", options).unwrap();
    writer.write_all(&test_zip()).unwrap();
    writer.finish().unwrap().into_inner()
}

fn test_txt() -> Vec<u8> {
    b"test\n".to_vec()
}

#[test]
fn common_test_parsing_file_to_archive() {
    let inner_files = Vec::new();
    let mut archive = parse_file_to_archive(
        &"tests/resources/test.zip".to_string(),
        FileRead::Contents(test_zip()),
        &inner_files,
    )
    .unwrap();
    let files_list = get_files_list(&mut archive).unwrap();

    assert_eq!(2, files_list.len());
    assert_eq!("test/", files_list[0]);
    assert_eq!("test/test.txt", files_list[1]);
}

#[test]
fn common_test_parsing_txt_file_to_archive() {
    let txt_file = "tests/resources/test.txt".to_string();
    let inner_files = Vec::new();
    let archive = parse_file_to_archive(&txt_file, FileRead::Contents(test_txt()), &inner_files);
    assert_eq!(ErrorKind::NotZipArchive(txt_file), archive.err().unwrap().kind());
}

#[test]
fn common_test_parsing_files_in_nested_zip() {
    let test_archive = new_from_file(
        "tests/resources/test-test.zip",
        FileRead::Contents(test_test_zip()),
    )
    .unwrap();
    let nested_archives = vec!["test.zip"];
    let mut archive = parse_files_rec(test_archive, &nested_archives).unwrap();
    let files_list = get_files_list(&mut archive).unwrap();

    assert_eq!(2, files_list.len());
    assert_eq!("test/", files_list[0]);
    assert_eq!("test/test.txt", files_list[1]);
}

#[test]
fn common_test_new_archive_from_file() {
    let archive = new_from_file("tests/resources/test.zip", FileRead::Contents(test_zip()));
    assert_eq!(2, archive.unwrap().len());
}

#[test]
fn common_test_new_archive_from_nonexistent_file() {
    let non_existent_file = "tests/resources/does-not-exist.zip";
    let archive = new_from_file(non_existent_file, FileRead::NotFound);
    assert_eq!(
        ErrorKind::DoesNotExist(non_existent_file.to_string()),
        archive.err().unwrap().kind()
    );
}

#[test]
fn common_test_new_archive_from_nonzip_file() {
    let test_txt_file = "tests/resources/test.txt";
    let archive = new_from_file(test_txt_file, FileRead::Contents(test_txt()));
    assert_eq!(
        ErrorKind::NotZipArchive(test_txt_file.to_string()),
        archive.err().unwrap().kind()
    );
}

#[test]
fn common_test_new_archive_from_bytes() {
    let buf = test_zip();
    let archive = new_from_bytes(buf).unwrap();

    assert_eq!(2, archive.len());
}

#[test]
fn common_test_get_files_list() {
    let mut archive =
        new_from_file("tests/resources/test.zip", FileRead::Contents(test_zip())).unwrap();
    let files_list = get_files_list(&mut archive).unwrap();

    assert_eq!(2, files_list.len());
    assert_eq!("test/", files_list[0]);
    assert_eq!("test/test.txt", files_list[1]);
}

#[test]
fn main_test_new_archive_from_file() {
    let archive = new_from_file("tests/resources/test.zip", FileRead::Contents(test_zip()));
    assert_eq!(2, archive.unwrap().len());
}

#[test]
fn main_test_new_archive_from_nonexistent_file() {
    let archive = new_from_file("tests/resources/does-not-exist.zip", FileRead::NotFound);
    assert_eq!(
        ErrorKind::DoesNotExist("tests/resources/does-not-exist.zip".to_string()),
        archive.err().unwrap().kind()
    );
}

#[test]
fn main_test_new_archive_from_nonzip_file() {
    let archive = new_from_file("tests/resources/test.txt", FileRead::Contents(test_txt()));
    assert_eq!(
        ErrorKind::NotZipArchive("tests/resources/test.txt".to_string()),
        archive.err().unwrap().kind()
    );
}

#[test]
fn main_test_new_archive_from_bytes() {
    let buf = test_zip();
    let archive = new_from_bytes(buf).unwrap();

    assert_eq!(2, archive.len());
}

#[test]
fn main_test_get_files_list() {
    let mut archive =
        new_from_file("tests/resources/test.zip", FileRead::Contents(test_zip())).unwrap();
    let files_list = get_files_list(&mut archive).unwrap();

    assert_eq!(2, files_list.len());
    assert_eq!("test/", files_list[0]);
    assert_eq!("test/test.txt", files_list[1]);
}

#[test]
fn main_test_parsing_file_to_archive() {
    let inner_files = Vec::new();
    let mut archive = parse_file_to_archive(
        &"tests/resources/test.zip".to_string(),
        FileRead::Contents(test_zip()),
        &inner_files,
    )
    .unwrap();
    let files_list = get_files_list(&mut archive).unwrap();

    assert_eq!(2, files_list.len());
    assert_eq!("test/", files_list[0]);
    assert_eq!("test/test.txt", files_list[1]);
}

#[test]
fn main_test_parsing_txt_file_to_archive() {
    let inner_files = Vec::new();
    let archive = parse_file_to_archive(
        &"tests/resources/test.txt".to_string(),
        FileRead::Contents(test_txt()),
        &inner_files,
    );
    assert_eq!(
        ErrorKind::NotZipArchive("tests/resources/test.txt".to_string()),
        archive.err().unwrap().kind()
    );
}

#[test]
fn main_test_parsing_files_in_nested_zip() {
    let test_archive = new_from_file(
        "tests/resources/test-test.zip",
        FileRead::Contents(test_test_zip()),
    )
    .unwrap();
    let nested_archives = vec!["test.zip"];
    let mut archive = parse_files_rec(test_archive, &nested_archives).unwrap();
    let files_list = get_files_list(&mut archive).unwrap();

    assert_eq!(2, files_list.len());
    assert_eq!("test/", files_list[0]);
    assert_eq!("test/test.txt", files_list[1]);
}

#[test]
fn string_vec_to_str_vec_keeps_every_name_in_order() {
    let input = vec!["a.zip".to_string(), "".to_string(), "dir/b.zip".to_string()];
    assert_eq!(vec!["a.zip", "", "dir/b.zip"], string_vec_to_str_vec(&input));
    let none: Vec<String> = Vec::new();
    assert!(string_vec_to_str_vec(&none).is_empty());
}

#[test]
fn unreadable_outer_file_fails_with_its_message() {
    let archive = new_from_file("outer.zip", FileRead::Failed("Permission denied".to_string()));
    assert_eq!(
        ErrorKind::IoError("Permission denied".to_string()),
        archive.err().unwrap().kind()
    );
}

#[test]
fn empty_buffer_is_no_archive() {
    assert!(new_from_bytes(Vec::new()).is_err());
    let archive = new_from_file("empty", FileRead::Contents(Vec::new()));
    assert_eq!(ErrorKind::NotZipArchive("empty".to_string()), archive.err().unwrap().kind());
}

#[test]
fn archive_without_entries_lists_nothing() {
    let mut writer = zip::ZipWriter::new(std::io::Cursor::new(Vec::new()));
    let bytes = writer.finish().unwrap().into_inner();
    let mut archive = new_from_bytes(bytes).unwrap();
    assert_eq!(0, archive.len());
    assert!(get_files_list(&mut archive).unwrap().is_empty());
}

#[test]
fn owned_names_copies_the_stretch_it_is_asked_for() {
    let input = vec!["outer.zip", "a.zip", "b.zip", "c.txt"];
    assert_eq!(vec!["a.zip", "b.zip", "c.txt"], unzipr::common::owned_names(&input, 1, 4));
    assert_eq!(vec!["a.zip", "b.zip"], unzipr::common::owned_names(&input, 1, 3));
    assert!(unzipr::common::owned_names(&input, 2, 2).is_empty());
}
