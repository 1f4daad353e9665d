use imebind::hex::{parse_hex, IntErrorKind};
use imebind::tip::{format_tip, parse_guid, parse_tip, read_guid, read_tip, tip_parse_panics, Guid, TipError};
use imebind::tsf::{
    active_tip_text, description_text, format_hkl_tip, parse_hkl_tip, select_keyboard_profiles,
    ActiveProfile, FoundProfile, Profile,
};

const PINYIN: &str = "0804:{81D4E9C9-1D3B-41BC-9E6C-4B40BF79E35E}{FA550B04-5AD7-411F-A5AC-CA038EC515D7}";

fn clsid() -> Guid {
    Guid::from_values(0x81D4E9C9, 0x1D3B, 0x41BC, [0x9E, 0x6C, 0x4B, 0x40, 0xBF, 0x79, 0xE3, 0x5E])
}

fn profile() -> Guid {
    Guid::from_values(0xFA550B04, 0x5AD7, 0x411F, [0xA5, 0xAC, 0xCA, 0x03, 0x8E, 0xC5, 0x15, 0xD7])
}

fn keyboard() -> Guid {
    Guid::from_values(0x34745C63, 0xB2F0, 0x4784, [0x8B, 0x67, 0x5E, 0x12, 0xC8, 0x70, 0x1A, 0x31])
}

#[test]
fn format_tip_matches_the_readme_example() {
    assert_eq!(format_tip(0x0804, &clsid(), &profile()), PINYIN);
}

#[test]
fn format_tip_pads_every_field() {
    let g = Guid::from_values(0x1, 0x2, 0x3, [0, 1, 2, 3, 4, 5, 6, 0xAB]);
    assert_eq!(
        format_tip(0x9, &g, &g),
        "0009:{00000001-0002-0003-0001-0203040506AB}{00000001-0002-0003-0001-0203040506AB}"
    );
}

#[test]
fn parse_tip_reads_the_readme_example() {
    assert_eq!(parse_tip(PINYIN), Ok((0x0804, clsid(), profile())));
}

#[test]
fn parse_tip_accepts_lower_case() {
    let lower = PINYIN.to_lowercase();
    assert_eq!(parse_tip(&lower), Ok((0x0804, clsid(), profile())));
}

#[test]
fn tip_text_round_trips() {
    let a = Guid::from_values(0xDEADBEEF, 0xFFFF, 0x0000, [0xFF, 0, 0x10, 0x01, 0x7F, 0x80, 0xC0, 0x0F]);
    let b = Guid::from_values(0, 0, 0, [0; 8]);
    for l in [0u16, 1, 0x0409, 0xFFFF] {
        let t = format_tip(l, &a, &b);
        assert_eq!(parse_tip(&t), Ok((l, a, b)));
    }
}

#[test]
fn parse_tip_missing_colon() {
    assert_eq!(parse_tip("0804"), Err("缺少冒号".to_string()));
    assert_eq!(read_tip("0804"), Some(Err(TipError::MissingColon)));
}

#[test]
fn parse_tip_language_width() {
    assert_eq!(parse_tip("08041:{a}{b}"), Err("语言 ID 应为 4 位十六进制".to_string()));
    assert_eq!(parse_tip("804:{a}{b}"), Err("语言 ID 应为 4 位十六进制".to_string()));
}

#[test]
fn parse_tip_language_digits() {
    assert_eq!(parse_tip("080G:{a}{b}"), Err("invalid digit found in string".to_string()));
    assert_eq!(read_tip("080G:{a}{b}"), Some(Err(TipError::LangId(IntErrorKind::InvalidDigit))));
}

#[test]
fn parse_tip_language_with_plus_sign() {
    let t = "+804:{81D4E9C9-1D3B-41BC-9E6C-4B40BF79E35E}{FA550B04-5AD7-411F-A5AC-CA038EC515D7}";
    assert_eq!(parse_tip(t), Ok((0x0804, clsid(), profile())));
}

#[test]
fn parse_tip_missing_braces() {
    assert_eq!(parse_tip("0804:"), Err("缺少第一个 {".to_string()));
    assert_eq!(parse_tip("0804:{"), Err("缺少第一个 }".to_string()));
    assert_eq!(parse_tip("0804:{abc}"), Err("缺少第二个 {".to_string()));
    assert_eq!(parse_tip("0804:{abc}{def"), Err("缺少第二个 }".to_string()));
}

#[test]
fn parse_tip_guid_segments() {
    assert_eq!(parse_tip("0804:{1-2}{3}"), Err("GUID 段数不对: 1-2".to_string()));
    assert_eq!(
        read_tip("0804:{1-2}{3}"),
        Some(Err(TipError::GuidSegments("1-2".to_string())))
    );
}

#[test]
fn parse_tip_guid_tail_length() {
    assert_eq!(
        parse_tip("0804:{1-2-3-4-5}{x}"),
        Err("GUID 尾部长度不对: 45".to_string())
    );
}

#[test]
fn parse_tip_guid_field_overflow_and_empty() {
    assert_eq!(
        parse_tip("0804:{123456789-0-0-0000-000000000000}{x}"),
        Err("number too large to fit in target type".to_string())
    );
    assert_eq!(
        parse_tip("0804:{-0-0-0000-000000000000}{x}"),
        Err("cannot parse integer from empty string".to_string())
    );
}

#[test]
fn parse_tip_second_guid_error() {
    let t = "0804:{81D4E9C9-1D3B-41BC-9E6C-4B40BF79E35E}{FA550B04}";
    assert_eq!(parse_tip(t), Err("GUID 段数不对: FA550B04".to_string()));
}

#[test]
fn close_before_open_panics() {
    assert!(tip_parse_panics("0804:}{x}"));
    assert_eq!(read_tip("0804:}{x}"), None);
    assert!(!tip_parse_panics(PINYIN));
}

#[test]
fn tail_cut_inside_a_character_panics() {
    // "€0" is four bytes, twelve more make sixteen; the first pair ends inside "€".
    let t = "0804:{00000000-0000-0000-€0-000000000000}{x}";
    assert!(tip_parse_panics(t));
    // "é" is two bytes: the first pair is exactly "é", which is no hex digit.
    let t2 = "0804:{00000000-0000-0000-é0-0000000000000}{x}";
    assert!(!tip_parse_panics(t2));
    assert_eq!(parse_tip(t2), Err("invalid digit found in string".to_string()));
}

#[test]
fn parse_guid_with_and_without_braces() {
    assert_eq!(parse_guid("{81D4E9C9-1D3B-41BC-9E6C-4B40BF79E35E}"), Ok(clsid()));
    assert_eq!(parse_guid("81D4E9C9-1D3B-41BC-9E6C-4B40BF79E35E"), Ok(clsid()));
    assert_eq!(parse_guid("{{81D4E9C9-1D3B-41BC-9E6C-4B40BF79E35E}}"), Ok(clsid()));
    assert_eq!(read_guid("}{"), Some(Err(TipError::GuidSegments(String::new()))));
}

#[test]
fn tip_error_messages() {
    assert_eq!(TipError::MissingColon.message(), "缺少冒号");
    assert_eq!(TipError::GuidTail("ab".to_string()).message(), "GUID 尾部长度不对: ab");
    assert_eq!(
        TipError::<String>::GuidField(IntErrorKind::PosOverflow).message(),
        "number too large to fit in target type"
    );
}

#[test]
fn parse_hex_like_from_str_radix() {
    let b = b"+ff";
    assert_eq!(parse_hex(b, 0, 3, 0xff), Ok(0xff));
    assert_eq!(parse_hex(b, 0, 1, 0xff), Err(IntErrorKind::InvalidDigit));
    assert_eq!(parse_hex(b, 0, 0, 0xff), Err(IntErrorKind::Empty));
    assert_eq!(parse_hex(b"100", 0, 3, 0xff), Err(IntErrorKind::PosOverflow));
    assert_eq!(parse_hex(b"10z", 0, 3, 0xff), Err(IntErrorKind::InvalidDigit));
    assert_eq!(parse_hex(b"-1", 0, 2, 0xff), Err(IntErrorKind::InvalidDigit));
    assert_eq!(parse_hex(b"FFFFFFFF", 0, 8, 0xffff_ffff), Ok(0xffff_ffff));
}

#[test]
fn hkl_text_round_trips() {
    assert_eq!(format_hkl_tip(0x0409, 0x04090409), "0409:HKL:04090409");
    assert_eq!(format_hkl_tip(0x0804, 0x0804), "0804:HKL:00000804");
    assert_eq!(parse_hkl_tip("0409:HKL:04090409"), Some((0x0409, 0x04090409)));
    assert_eq!(parse_hkl_tip("0804:HKL:00000804"), Some((0x0804, 0x0804)));
    assert_eq!(parse_hkl_tip(PINYIN), None);
    assert_eq!(parse_hkl_tip("0409:HKL:"), None);
}

#[test]
fn hkl_text_of_a_wide_handle() {
    let h: usize = if usize::BITS == 64 { 0xF001_0409_usize << 8 } else { 0xF001_0409 };
    let t = format_hkl_tip(0x0409, h);
    assert_eq!(parse_hkl_tip(&t), Some((0x0409, h)));
}

#[test]
fn active_tip_text_by_profile_type() {
    let tsf = ActiveProfile { profile_type: 1, langid: 0x0804, clsid: clsid(), guid_profile: profile(), hkl: 0 };
    assert_eq!(active_tip_text(&tsf), PINYIN);
    let layout = ActiveProfile { profile_type: 2, langid: 0x0409, clsid: clsid(), guid_profile: profile(), hkl: 0x04090409 };
    assert_eq!(active_tip_text(&layout), "0409:HKL:04090409");
}

fn found(profile_type: u32, catid: Guid, langid: u16, p: Guid) -> FoundProfile {
    FoundProfile { enum_langid: langid, profile_type, catid, langid, clsid: clsid(), guid_profile: p }
}

#[test]
fn keyboard_profiles_listed_once() {
    let other = Guid::from_values(1, 2, 3, [4; 8]);
    let list = vec![
        found(1, keyboard(), 0x0804, profile()),
        found(2, keyboard(), 0x0804, other),
        found(1, other, 0x0804, other),
        found(1, keyboard(), 0x0804, profile()),
        found(1, keyboard(), 0x0000, profile()),
        found(1, keyboard(), 0x0804, other),
    ];
    assert_eq!(select_keyboard_profiles(&list), vec![0, 4, 5]);
}

#[test]
fn profile_name_and_tip() {
    let f = found(1, keyboard(), 0x0804, profile());
    let named = Profile::from_found(&f, Some("微软拼音".to_string()));
    assert_eq!(named.name, "微软拼音");
    assert_eq!(named.tip(), PINYIN);
    let unnamed = Profile::from_found(&f, description_text(String::new()));
    assert_eq!(unnamed.name, PINYIN);
    assert_eq!(description_text("x".to_string()), Some("x".to_string()));
}

#[test]
fn tip_reads_the_same_in_either_case() {
    let lower = "0804:{81d4e9c9-1d3b-41bc-9e6c-4b40bf79e35e}{fa550b04-5ad7-411f-a5ac-ca038ec515d7}";
    assert_eq!(parse_tip(lower), parse_tip(&lower.to_ascii_uppercase()));
    assert_eq!(parse_tip(lower), parse_tip("0804:{81D4e9C9-1d3B-41bc-9E6c-4B40bf79E35e}{Fa550B04-5aD7-411f-A5ac-cA038Ec515D7}"));
    assert!(parse_tip(lower).is_ok());
}
