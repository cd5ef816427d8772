use smn_archive::form::Form;
use smn_archive::form_refgroup::FormRefGroup;
use smn_archive::form_string::FormString;
use smn_archive::form_world::FormWorld;
use smn_archive::types_color::{LrgColor, SmlColor};
use smn_archive::types_id::{ArchiveID, EntID, FormID, GlobalID};
use smn_archive::types_misc::{FormType, LangCode, Version};
use smn_archive::types_str::{StrLrg, StrSml};
use smn_archive::types_vectors::{Vec2Int, Vec3Int};

fn sml(s: &str) -> StrSml {
    StrSml::from_str(s).expect("valid small string")
}

fn lrg(s: &str) -> StrLrg {
    StrLrg::from_str(s).expect("valid large string")
}

#[test]
fn form_id_to_string_pads_to_five_digits() {
    assert_eq!(FormID::new(5).to_string(), "00005");
    assert_eq!(FormID::new(65535).to_string(), "65535");
    assert_eq!(FormID::new(5).get_byte_count(), 2);
    assert_eq!(FormID::new(0x1234).to_bytes(), [0x12, 0x34]);
    assert_eq!(FormID::from_bytes([0x12, 0x34]).to_u16(), 0x1234);
}

#[test]
fn archive_id_to_string_pads_to_three_digits() {
    assert_eq!(ArchiveID::new(1).to_string(), "001");
    assert_eq!(ArchiveID::new(255).to_string(), "255");
    assert_eq!(ArchiveID::new(7).to_bytes(), [7]);
}

#[test]
fn global_and_ent_ids_concatenate_their_parts() {
    let g = GlobalID::new(ArchiveID::new(1), FormID::new(513));
    assert_eq!(g.to_string(), "00100513");
    assert_eq!(g.to_bytes(), [1, 2, 1]);
    let e = EntID::new(g, FormID::new(7));
    assert_eq!(e.to_string(), "0010051300007");
    assert_eq!(e.to_bytes(), vec![1, 2, 1, 0, 7]);
    assert_eq!(e.global_id().to_string(), "00100513");
    assert_eq!(e.reference_id().to_u16(), 7);
}

#[test]
fn version_renders_major_dot_minor() {
    let v = Version::new(1, 0);
    assert_eq!(v.to_string(), "1.0");
    assert_eq!(v.to_bytes(), [1, 0]);
    assert_eq!(Version::new(12, 34).to_string(), "12.34");
}

#[test]
fn lang_code_and_form_type_bytes_round_trip() {
    assert_eq!(LangCode::EN.to_byte(), 1);
    assert_eq!(LangCode::FR.to_int(), 2);
    assert_eq!(LangCode::from_byte(3), Some(LangCode::ES));
    assert_eq!(LangCode::from_byte(9), None);
    assert_eq!(LangCode::DE.to_string(), "DE");
    assert_eq!(FormType::STRING.to_u8(), 0);
    assert_eq!(FormType::WEATHER.to_byte(), 4);
    assert_eq!(FormType::from_byte(2), Some(FormType::REFGROUP));
    assert_eq!(FormType::from_byte(5), None);
    assert_eq!(FormType::WORLD.to_string(), "WORLD");
}

#[test]
fn vectors_and_colors_encode_big_endian() {
    let v = Vec3Int::new(1, -2, 3);
    assert_eq!(v.to_string(), "(1, -2, 3)");
    let b = v.to_bytes();
    assert_eq!(b[0..4], [0, 0, 0, 1]);
    assert_eq!(b[4..8], [0xFF, 0xFF, 0xFF, 0xFE]);
    assert_eq!(b[8..12], [0, 0, 0, 3]);
    let v2 = Vec2Int::new(-1, 2);
    assert_eq!(v2.to_string(), "(-1, 2)");
    let c = SmlColor::new(1, 2, 3, 4);
    assert_eq!(c.to_bytes(), [1, 2, 3, 4]);
    assert_eq!(c.to_string(), "RGBA(1, 2, 3, 4)");
    let lc = LrgColor::new(256, 2, 3, 4);
    assert_eq!(lc.to_bytes(), vec![1, 0, 0, 2, 0, 3, 0, 4]);
    assert_eq!(LrgColor::from_bytes([1, 0, 0, 2, 0, 3, 0, 4]), lc);
}

#[test]
fn small_string_round_trips_including_accents() {
    let s = sml("Cha\u{ee}ne de test");
    let bytes = s.to_bytes();
    assert_eq!(bytes[0] as usize, 14);
    let (back, consumed) = StrSml::read_from_byte_buffer(&bytes).expect("decodes");
    assert_eq!(consumed, bytes.len());
    assert_eq!(back, s);
    assert_eq!(back.to_string(), "Cha\u{ee}ne de test");
}

#[test]
fn large_string_round_trips() {
    let s = lrg("Bienvenue");
    let bytes = s.to_bytes();
    assert_eq!(&bytes[0..2], &[0, 9]);
    let (back, consumed) = StrLrg::read_from_byte_buffer(&bytes).expect("decodes");
    assert_eq!(consumed, bytes.len());
    assert_eq!(back, s);
}

#[test]
fn string_rejects_over_length() {
    let long: String = "x".repeat(256);
    assert!(StrSml::from_str(&long).is_err());
    assert!(StrSml::from_str("fits").is_ok());
}

#[test]
fn form_string_encodes_and_decodes_exactly() {
    let f = FormString::new(
        FormID::new(5),
        sml("StrWelcome"),
        vec![LangCode::EN, LangCode::FR],
        vec![lrg("Welcome"), lrg("Bienvenue")],
    );
    let bytes = f.to_bytes();
    assert_eq!(bytes.len(), f.get_byte_count());
    assert_eq!(&bytes[0..3], &[0, 5, 0]);
    let (back, consumed) = FormString::read_from_byte_buffer(&bytes).expect("decodes");
    assert_eq!(consumed, bytes.len());
    assert_eq!(back, f);
    // decode then re-encode reproduces the payload byte for byte
    assert_eq!(back.to_bytes(), bytes);
}

#[test]
fn form_world_encodes_and_decodes_exactly() {
    let f = FormWorld::new(
        FormID::new(9),
        sml("WrldDesert"),
        GlobalID::new(ArchiveID::new(1), FormID::new(2)),
        sml("desert_map"),
        vec![GlobalID::new(ArchiveID::new(1), FormID::new(3))],
        vec![Vec3Int::new(10, -20, 30)],
    );
    let bytes = f.to_bytes();
    assert_eq!(bytes.len(), f.get_byte_count());
    assert_eq!(bytes[2], 1);
    let (back, consumed) = FormWorld::read_from_byte_buffer(&bytes).expect("decodes");
    assert_eq!(consumed, bytes.len());
    assert_eq!(back, f);
    assert_eq!(back.to_bytes(), bytes);
}

#[test]
fn form_refgroup_encodes_and_decodes_exactly() {
    let f = FormRefGroup::new(
        FormID::new(4),
        sml("RefHub"),
        vec![
            GlobalID::new(ArchiveID::new(1), FormID::new(5)),
            GlobalID::new(ArchiveID::new(2), FormID::new(6)),
        ],
    );
    let bytes = f.to_bytes();
    assert_eq!(bytes.len(), f.get_byte_count());
    assert_eq!(bytes[2], 2);
    let (back, consumed) = FormRefGroup::read_from_byte_buffer(&bytes).expect("decodes");
    assert_eq!(consumed, bytes.len());
    assert_eq!(back, f);
    assert_eq!(back.to_bytes(), bytes);
}

#[test]
fn form_dispatch_reads_the_tagged_variant() {
    let f = FormString::new(FormID::new(3), sml("Tagged"), vec![LangCode::EN], vec![lrg("one")]);
    let bytes = f.to_bytes();
    let (form, consumed) = Form::read_from_byte_buffer(&bytes).expect("decodes");
    assert_eq!(consumed, bytes.len());
    assert_eq!(form.form_id().to_u16(), 3);
    assert_eq!(form.form_type(), FormType::STRING);
    assert_eq!(form.form_name().to_string(), "Tagged");
    assert_eq!(form.to_bytes(), bytes);
    assert_eq!(form.get_byte_count(), bytes.len());
}

#[test]
fn unknown_tag_is_a_corrupt_record() {
    let mut bytes = FormString::new(FormID::new(3), sml("T"), vec![], vec![]).to_bytes();
    bytes[2] = 9;
    assert!(Form::read_from_byte_buffer(&bytes).is_err());
}
