use smn_archive::archive::Archive;
use smn_archive::form::Form;
use smn_archive::form_refgroup::FormRefGroup;
use smn_archive::form_string::FormString;
use smn_archive::io_delete_form::delete_form;
use smn_archive::io_read_archive::{get_form_exists, read_archive_info, read_lite_archive};
use smn_archive::io_read_block::read_block_index;
use smn_archive::io_read_form::{read_form, read_forms};
use smn_archive::io_write_archive::{write_archive_info, write_archive_skeleton};
use smn_archive::io_write_form::write_form;
use smn_archive::types_id::{ArchiveID, FormID, GlobalID};
use smn_archive::types_misc::{LangCode, Version};
use smn_archive::types_str::{StrLrg, StrSml};
use smn_archive::ArchiveError;

fn sml(s: &str) -> StrSml {
    StrSml::from_str(s).expect("valid small string")
}

fn lrg(s: &str) -> StrLrg {
    StrLrg::from_str(s).expect("valid large string")
}

fn skeleton(description: &str) -> Vec<u8> {
    let archive = Archive::new(ArchiveID::new(1), Version::new(1, 0), lrg(description));
    write_archive_skeleton(&archive)
}

fn string_form(id: u16, name: &str, texts: &[&str]) -> Form {
    let langs = [LangCode::EN, LangCode::FR, LangCode::ES, LangCode::DE];
    Form::Str(FormString::new(
        FormID::new(id),
        sml(name),
        texts.iter().enumerate().map(|(i, _)| langs[i]).collect(),
        texts.iter().map(|t| lrg(t)).collect(),
    ))
}

fn index_entries(bytes: &[u8]) -> Vec<(u16, u32)> {
    let info = read_archive_info(bytes).expect("readable archive");
    let index = read_block_index(bytes, info.bytestart_index as usize, info.form_count)
        .expect("readable index");
    index
        .indexes
        .iter()
        .map(|e| (e.form_id.to_u16(), e.data_start_offset))
        .collect()
}

#[test]
fn test_write_archive_skeleton_success() {
    let bytes = skeleton("Standard Test Archive Skeleton");
    assert!(!bytes.is_empty());
    let info = read_archive_info(&bytes).expect("skeleton is readable");
    assert_eq!(info.description.to_string(), "Standard Test Archive Skeleton");
    assert_eq!(info.get_form_count(), 0);
}

#[test]
fn test_write_archive_info_success() {
    let bytes = skeleton("Standard Test Archive Skeleton");
    let updated = Archive::new(
        ArchiveID::new(2),
        Version::new(2, 3),
        lrg("An Edited Test Archive Skeleton"),
    );
    let out = write_archive_info(&bytes, &updated).expect("info rewrite succeeds");
    let info = read_archive_info(&out).expect("rewritten archive is readable");
    assert_eq!(info.archive_id.to_u8(), 2);
    assert_eq!(info.version.to_string(), "2.3");
    assert_eq!(info.description.to_string(), "An Edited Test Archive Skeleton");
    assert_eq!(info.get_form_count(), 0);
}

#[test]
fn test_write_form_new_first() {
    let bytes = skeleton("Empty Archive");
    let form = string_form(1, "Test Form", &["Test String", "Cha\u{ee}ne de test"]);
    let out = write_form(&bytes, &form).expect("Failed to write form to the empty archive.");
    assert!(
        get_form_exists(&out, FormID::new(1)).unwrap(),
        "The form should exist in the archive."
    );
}

#[test]
fn test_write_form_new_start() {
    let bytes = skeleton("Test Archive");
    let out = write_form(&bytes, &string_form(2, "Test Form", &["Hello", "Bonjour"])).unwrap();
    let out = write_form(&out, &string_form(1, "Test Form at Start", &["Hello"])).unwrap();
    let form = read_form(&out, FormID::new(1)).expect("form readable");
    assert_eq!(form.form_id().to_u16(), 1, "The form ID should be 1.");
}

#[test]
fn test_write_form_new_end() {
    let bytes = skeleton("Test Archive");
    let out = write_form(&bytes, &string_form(2, "Test Form", &["Hello", "Bonjour"])).unwrap();
    let out = write_form(&out, &string_form(5, "Test Form at END", &["Hello"])).unwrap();
    let form = read_form(&out, FormID::new(5)).expect("form readable");
    assert_eq!(form.form_id().to_u16(), 5, "The form ID should be 5.");
}

#[test]
fn test_write_form_new_mid() {
    let bytes = skeleton("Test Archive");
    let out = write_form(&bytes, &string_form(2, "Test Form", &["Hello", "Bonjour"])).unwrap();
    let out = write_form(&out, &string_form(5, "Test Form at END", &["Hello"])).unwrap();
    let out = write_form(&out, &string_form(3, "Test Form at MID", &["Hello"])).unwrap();
    let form = read_form(&out, FormID::new(3)).expect("form readable");
    assert_eq!(form.form_id().to_u16(), 3, "The form ID should be 3.");
}

#[test]
fn test_write_form_exist_last() {
    let bytes = skeleton("Test Archive");
    let out = write_form(&bytes, &string_form(2, "Test Form", &["Hello", "Bonjour"])).unwrap();
    let out = write_form(&out, &string_form(5, "Test Form at END", &["Hello"])).unwrap();
    let out =
        write_form(&out, &string_form(5, "Test Form at END Overwrite", &["Hello"])).unwrap();
    let form = read_form(&out, FormID::new(5)).expect("form readable");
    assert_eq!(form.form_id().to_u16(), 5, "The form ID should be 5.");
    assert_eq!(form.form_name().to_string(), "Test Form at END Overwrite");
}

#[test]
fn test_write_form_exist_inner() {
    let bytes = skeleton("Test Archive");
    let out = write_form(&bytes, &string_form(2, "Test Form", &["Hello", "Bonjour"])).unwrap();
    let out = write_form(&out, &string_form(5, "Test Form at END", &["Hello"])).unwrap();
    let out = write_form(&out, &string_form(3, "Test Form at MID", &["Hello"])).unwrap();
    let out =
        write_form(&out, &string_form(3, "Test Form at MID Overwrite", &["Hello"])).unwrap();
    let form = read_form(&out, FormID::new(3)).expect("form readable");
    assert_eq!(form.form_id().to_u16(), 3, "The form ID should be 3.");
    assert_eq!(form.form_name().to_string(), "Test Form at MID Overwrite");
}

#[test]
fn skeleton_round_trip_reports_exact_metadata() {
    let archive = Archive::new(ArchiveID::new(1), Version::new(1, 0), lrg("Test Archive"));
    let bytes = write_archive_skeleton(&archive);
    let info = read_archive_info(&bytes).expect("readable");
    assert_eq!(info.archive_id.to_u8(), 1);
    assert_eq!(info.version.to_string(), "1.0");
    assert_eq!(info.description.to_string(), "Test Archive");
    assert_eq!(info.get_form_count(), 0);
    // the file is exactly the header plus the eight bytestart bytes
    assert_eq!(bytes.len(), info.get_header_byte_count() + 8);
    assert_eq!(info.bytestart_index, info.bytestart_data);
}

#[test]
fn empty_archive_delete_reports_not_found() {
    let bytes = skeleton("Test Archive");
    read_archive_info(&bytes).expect("readable");
    assert_eq!(delete_form(&bytes, FormID::new(3)), Err(ArchiveError::NotFound));
}

#[test]
fn insert_overwrite_delete_string_form() {
    let bytes = skeleton("Test Archive");
    let form = string_form(5, "StrWelcome", &["Welcome", "Bienvenue"]);
    let out = write_form(&bytes, &form).expect("insert succeeds");
    let back = read_form(&out, FormID::new(5)).expect("readable");
    assert_eq!(back, form);
    let longer = string_form(5, "StrWelcome", &["WELCOME INDEED", "BIENVENUE ICI"]);
    let out = write_form(&out, &longer).expect("overwrite succeeds");
    let back = read_form(&out, FormID::new(5)).expect("readable");
    assert_eq!(back, longer);
    let out = delete_form(&out, FormID::new(5)).expect("delete succeeds");
    assert!(!get_form_exists(&out, FormID::new(5)).unwrap());
    let info = read_archive_info(&out).expect("readable");
    assert_eq!(info.get_form_count(), 0);
    assert_eq!(info.bytestart_index, info.bytestart_data);
}

#[test]
fn single_form_archive_grows_shrinks_and_empties() {
    let bytes = skeleton("Test Archive");
    let out = write_form(&bytes, &string_form(9, "Solo", &["abc"])).unwrap();
    let out = write_form(&out, &string_form(9, "Solo", &["abcdefghij"])).unwrap();
    let longer_len = read_archive_info(&out).unwrap().bytestart_index;
    let out = write_form(&out, &string_form(9, "Solo", &["a"])).unwrap();
    let shorter_len = read_archive_info(&out).unwrap().bytestart_index;
    assert!(shorter_len < longer_len);
    let back = read_form(&out, FormID::new(9)).unwrap();
    assert_eq!(back, string_form(9, "Solo", &["a"]));
    let out = delete_form(&out, FormID::new(9)).unwrap();
    let info = read_archive_info(&out).unwrap();
    assert_eq!(info.get_form_count(), 0);
    assert_eq!(info.bytestart_index, info.bytestart_data);
}

#[test]
fn three_way_insert_order_sorts_the_index() {
    let bytes = skeleton("Test Archive");
    let out = write_form(&bytes, &string_form(5, "Five", &["five"])).unwrap();
    let out = write_form(&out, &string_form(1, "One", &["one"])).unwrap();
    let out = write_form(&out, &string_form(10, "Ten", &["ten"])).unwrap();
    let out = write_form(&out, &string_form(7, "Seven", &["seven"])).unwrap();
    let ids: Vec<u16> = index_entries(&out).iter().map(|e| e.0).collect();
    assert_eq!(ids, vec![1, 5, 7, 10]);
    for id in [1u16, 5, 7, 10] {
        let form = read_form(&out, FormID::new(id)).expect("present");
        assert_eq!(form.form_id().to_u16(), id);
    }
    let lite = read_lite_archive(&out).expect("listable");
    assert_eq!(lite.archive_items.len(), 4);
    assert_eq!(lite.archive_items[1].form_name.to_string(), "Five");
}

#[test]
fn overwrite_in_place_touches_no_offset() {
    let bytes = skeleton("Test Archive");
    let out = write_form(&bytes, &string_form(2, "Aa", &["left"])).unwrap();
    let out = write_form(&out, &string_form(8, "Bb", &["right"])).unwrap();
    let before = index_entries(&out);
    let bi_before = read_archive_info(&out).unwrap().bytestart_index;
    // same name and text lengths, so the encoded length is identical
    let out = write_form(&out, &string_form(2, "Ax", &["LEFT"])).unwrap();
    let after = index_entries(&out);
    let bi_after = read_archive_info(&out).unwrap().bytestart_index;
    assert_eq!(before[1], after[1]);
    assert_eq!(bi_before, bi_after);
}

#[test]
fn middle_insert_shifts_only_later_offsets() {
    let bytes = skeleton("Test Archive");
    let ten = string_form(10, "Ten", &["ten"]);
    let thirty = string_form(30, "Thirty", &["thirty"]);
    let out = write_form(&bytes, &ten).unwrap();
    let out = write_form(&out, &thirty).unwrap();
    let before = index_entries(&out);
    let l_ten = match &ten {
        Form::Str(f) => f.get_byte_count() as u32,
        _ => unreachable!(),
    };
    assert_eq!(before, vec![(10, 0), (30, l_ten)]);
    let bi_before = read_archive_info(&out).unwrap().bytestart_index;
    let twenty = string_form(20, "Twenty", &["twenty"]);
    let l_twenty = match &twenty {
        Form::Str(f) => f.get_byte_count() as u32,
        _ => unreachable!(),
    };
    let out = write_form(&out, &twenty).unwrap();
    let after = index_entries(&out);
    assert_eq!(after, vec![(10, 0), (20, l_ten), (30, l_ten + l_twenty)]);
    let bi_after = read_archive_info(&out).unwrap().bytestart_index;
    assert_eq!(bi_after, bi_before + l_twenty);
}

#[test]
fn batch_read_preserves_order() {
    let bytes = skeleton("Test Archive");
    let out = write_form(&bytes, &string_form(5, "Five", &["five"])).unwrap();
    let out = write_form(&out, &string_form(1, "One", &["one"])).unwrap();
    let out = write_form(&out, &string_form(10, "Ten", &["ten"])).unwrap();
    let out = write_form(&out, &string_form(7, "Seven", &["seven"])).unwrap();
    let ids = vec![FormID::new(7), FormID::new(1), FormID::new(10)];
    let forms = read_forms(&out, &ids).expect("all present");
    let got: Vec<u16> = forms.iter().map(|f| f.form_id().to_u16()).collect();
    assert_eq!(got, vec![7, 1, 10]);
    let missing = vec![FormID::new(7), FormID::new(2)];
    assert_eq!(read_forms(&out, &missing), Err(ArchiveError::NotFound));
}

#[test]
fn overwrite_with_other_type_is_invalid_data() {
    let bytes = skeleton("Test Archive");
    let out = write_form(&bytes, &string_form(5, "Five", &["five"])).unwrap();
    let clash = Form::RefGroup(FormRefGroup::new(
        FormID::new(5),
        sml("Grp"),
        vec![GlobalID::new(ArchiveID::new(1), FormID::new(9))],
    ));
    assert_eq!(write_form(&out, &clash), Err(ArchiveError::InvalidData));
}

#[test]
fn garbage_bytes_are_corrupt() {
    let garbage = vec![1u8, 2, 3];
    assert_eq!(
        read_archive_info(&garbage).map(|a| a.get_form_count()),
        Err(ArchiveError::Corrupt)
    );
    assert!(matches!(
        read_form(&garbage, FormID::new(1)),
        Err(ArchiveError::Corrupt)
    ));
    assert!(matches!(
        write_form(&garbage, &string_form(1, "X", &["x"])),
        Err(ArchiveError::Corrupt)
    ));
    assert!(matches!(
        delete_form(&garbage, FormID::new(1)),
        Err(ArchiveError::Corrupt)
    ));
}

#[test]
fn read_missing_form_is_not_found() {
    let bytes = skeleton("Test Archive");
    let out = write_form(&bytes, &string_form(5, "Five", &["five"])).unwrap();
    assert_eq!(
        read_form(&out, FormID::new(6)).map(|f| f.form_id().to_u16()),
        Err(ArchiveError::NotFound)
    );
}

#[test]
fn deletes_at_every_position_keep_order_and_offsets() {
    let bytes = skeleton("Test Archive");
    let mut out = bytes;
    for id in [1u16, 5, 7, 10] {
        out = write_form(&out, &string_form(id, "Form", &["text"])).unwrap();
    }
    // delete an inner form
    out = delete_form(&out, FormID::new(5)).unwrap();
    let ids: Vec<u16> = index_entries(&out).iter().map(|e| e.0).collect();
    assert_eq!(ids, vec![1, 7, 10]);
    // delete the last form
    out = delete_form(&out, FormID::new(10)).unwrap();
    let entries = index_entries(&out);
    let ids: Vec<u16> = entries.iter().map(|e| e.0).collect();
    assert_eq!(ids, vec![1, 7]);
    assert_eq!(entries[0].1, 0);
    // delete the first form
    out = delete_form(&out, FormID::new(1)).unwrap();
    let entries = index_entries(&out);
    assert_eq!(entries, vec![(7, 0)]);
    for (id, _) in entries {
        assert_eq!(read_form(&out, FormID::new(id)).unwrap().form_id().to_u16(), id);
    }
}

#[test]
fn insert_into_full_index_is_overflow() {
    // a well-formed archive holding the maximum number of forms, built
    // directly as bytes: empty description, then 65535 minimal records
    let count: usize = 65535;
    let mut bytes: Vec<u8> = Vec::new();
    bytes.push(1); // archive id
    bytes.push(1); // version major
    bytes.push(0); // version minor
    bytes.extend_from_slice(&[0, 0]); // empty description
    bytes.extend_from_slice(&(count as u16).to_be_bytes());
    let bd = (bytes.len() + 8) as u32;
    let record_len = 5u32; // id, tag, empty name, zero languages
    let bi = bd + record_len * count as u32;
    bytes.extend_from_slice(&bi.to_be_bytes());
    bytes.extend_from_slice(&bd.to_be_bytes());
    for id in 0..count {
        bytes.extend_from_slice(&(id as u16).to_be_bytes());
        bytes.push(0); // STRING tag
        bytes.push(0); // empty name
        bytes.push(0); // no languages
    }
    for id in 0..count {
        bytes.extend_from_slice(&(id as u16).to_be_bytes());
        bytes.push(0);
        bytes.extend_from_slice(&(record_len * id as u32).to_be_bytes());
    }
    let info = read_archive_info(&bytes).expect("crafted archive is readable");
    assert_eq!(info.get_form_count(), 65535);
    // every id is taken, so any write would need a 65536th entry
    let result = write_form(&bytes, &string_form(65535, "Full", &["x"]));
    assert_eq!(result, Err(ArchiveError::Overflow));
}
