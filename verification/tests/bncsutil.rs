use bncsutil::auth::auth_check;
use bncsutil::exeinfo::civil_from_days;
use bncsutil::exeinfo::format_exe_info;
use bncsutil::exeinfo::select_executable;
use bncsutil::exeinfo::select_support_files;
use bncsutil::keydecode::create_key_info;
use bncsutil::keydecode::keydecode_quick;
use bncsutil::mpq::extract_mpq_number;
use bncsutil::revision::check_revision;
use bncsutil::revision::check_revision_flat;
use bncsutil::revision::parse_formula;
use bncsutil::sha1::sha1;
use bncsutil::version;
use bncsutil::xsha1::pvpgn_password_hash;
use bncsutil::xsha1::xsha1;
use bncsutil::AuthError;

#[test]
fn test_version() {
    assert_eq!(version(), 10300);
}

#[test]
fn test_extract_mpq_number() {
    let ver = extract_mpq_number("ver-IX86-1.mpq".to_string());

    assert_eq!(ver, Some(1));
}

#[test]
fn test_extract_mpq_number_edges() {
    assert_eq!(extract_mpq_number(String::new()), None);
    assert_eq!(extract_mpq_number("no-dot-here".to_string()), None);
    assert_eq!(extract_mpq_number("ver-IX86-x.mpq".to_string()), None);
    assert_eq!(extract_mpq_number("ver-IX86-.mpq".to_string()), None);
    assert_eq!(extract_mpq_number("ver-IX86-99999999999.mpq".to_string()), None);
    assert_eq!(extract_mpq_number("123.mpq".to_string()), Some(123));
    assert_eq!(extract_mpq_number("ver-IX86-7.mpq".to_string()), Some(7));
    assert_eq!(
        extract_mpq_number("ver-IX86-4294967295.mpq".to_string()),
        Some(4294967295)
    );
}

#[test]
fn test_sha1_reference_vector() {
    let digest = sha1(&b"abc".to_vec());
    assert_eq!(
        digest,
        vec![
            0xA9, 0x99, 0x3E, 0x36, 0x47, 0x06, 0x81, 0x6A, 0xBA, 0x3E, 0x25, 0x71, 0x78, 0x50,
            0xC2, 0x6C, 0x9C, 0xD0, 0xD8, 0x9D
        ]
    );
}

#[test]
fn test_sha1_empty_vector() {
    let digest = sha1(&Vec::new());
    assert_eq!(
        digest,
        vec![
            0xDA, 0x39, 0xA3, 0xEE, 0x5E, 0x6B, 0x4B, 0x0D, 0x32, 0x55, 0xBF, 0xEF, 0x95, 0x60,
            0x18, 0x90, 0xAF, 0xD8, 0x07, 0x09
        ]
    );
}

#[test]
fn test_pvpgn_password_hash() {
    assert_eq!(
        pvpgn_password_hash("pass".to_string()),
        vec![
            110, 200, 23, 20, 119, 166, 65, 4, 164, 164, 111, 5, 24, 230, 149, 79, 255, 64, 104,
            62
        ]
    )
}

#[test]
fn test_xsha1_pure() {
    let a = xsha1(&b"some password".to_vec());
    let b = xsha1(&b"some password".to_vec());
    assert_eq!(a.len(), 20);
    assert_eq!(a, b);
}

#[test]
fn test_parse_formula_shapes() {
    assert!(parse_formula("B=454282227 C=2370009462 A=2264812340 4 A=A^S B=B-C C=C-A A=A+B").is_ok());
    assert!(parse_formula("A=1 0").is_ok());
    assert!(parse_formula("").is_err());
    assert!(parse_formula("A=1 2 A=A+B").is_err());
    assert!(parse_formula("A=1 1 A=A*B").is_err());
    assert!(parse_formula("S=1 0").is_err());
    assert!(parse_formula("hello world").is_err());
}

#[test]
fn test_check_revision_empty_file() {
    // An empty file rounds to zero words, so only the seed mixes into A.
    let files = vec![Vec::new()];
    let r = check_revision("A=1 B=2 C=3 1 A=A^S", &files, 1);
    assert_eq!(r, Ok((1u64 ^ 0xF6A14FFC) as u64));
}

#[test]
fn test_check_revision_padded_file() {
    // Four zero bytes pad to 1024 with 0xFF: one zero word, then 255
    // words of all ones XORed into A an odd number of times.
    let files = vec![vec![0u8, 0, 0, 0]];
    let r = check_revision("A=0 1 A=A^S", &files, 0);
    assert_eq!(r, Ok((0xE7F4CB62u64 ^ 0xFFFFFFFF) as u64));
    assert_eq!(r, Ok(403387549));
}

#[test]
fn test_check_revision_deterministic() {
    let files = vec![vec![1u8, 2, 3, 4, 5], vec![9u8; 2000]];
    let formula = "B=454282227 C=2370009462 A=2264812340 4 A=A^S B=B-C C=C-A A=A+B";
    let r1 = check_revision(formula, &files, 1);
    let r2 = check_revision(formula, &files, 1);
    assert!(r1.is_ok());
    assert_eq!(r1, r2);
}

#[test]
fn test_check_revision_file_set_sensitivity() {
    let formula = "B=454282227 C=2370009462 A=2264812340 4 A=A^S B=B-C C=C-A A=A+B";
    let one = vec![vec![7u8; 100]];
    let three = vec![vec![7u8; 100], vec![8u8; 50], vec![9u8; 60]];
    let r1 = check_revision(formula, &one, 1);
    let r3 = check_revision(formula, &three, 1);
    assert!(r1.is_ok());
    assert!(r3.is_ok());
    assert_ne!(r1, r3);
}

#[test]
fn test_check_revision_flat_matches_variable_mode() {
    let formula = "B=454282227 C=2370009462 A=2264812340 4 A=A^S B=B-C C=C-A A=A+B";
    let f1 = vec![7u8; 100];
    let f2 = vec![8u8; 50];
    let f3 = vec![9u8; 60];
    let files = vec![f1.clone(), f2.clone(), f3.clone()];
    let flat = check_revision_flat(formula, f1, f2, f3, 1);
    let var = check_revision(formula, &files, 1);
    assert_eq!(flat, var);
}

#[test]
fn test_check_revision_errors() {
    let files = vec![vec![0u8; 4]];
    assert_eq!(
        check_revision("", &files, 1),
        Err(AuthError::FormulaParseError)
    );
    assert_eq!(
        check_revision("A=1 0", &files, 8),
        Err(AuthError::UnsupportedArchiveVersion)
    );
}

#[test]
fn test_keydecode_rejects_wrong_length() {
    let r = keydecode_quick("FFFFF".to_string(), 1, 2);
    assert_eq!(r.unwrap_err(), AuthError::InvalidKeyFormat);
    let r25 = keydecode_quick("F".repeat(25), 1, 2);
    assert_eq!(r25.unwrap_err(), AuthError::InvalidKeyFormat);
    let r27 = keydecode_quick("F".repeat(27), 1, 2);
    assert_eq!(r27.unwrap_err(), AuthError::InvalidKeyFormat);
    let ki = create_key_info("FFFFF".to_string(), 1, 2);
    assert_eq!(ki.unwrap_err(), AuthError::InvalidKeyFormat);
}

#[test]
fn test_keydecode_hash_is_twenty_bytes() {
    let key = "FFFFFFFFFFFFFFFFFFFFFFFFFF".to_string();
    let (_public_value, _product, hash) = keydecode_quick(key, 130744796, 2115470359).unwrap();
    assert_eq!(hash.len(), 20);
}

#[test]
fn test_keydecode_pure() {
    let key = "246789BCDEFGHJKMNPQRTVWXYZ".to_string();
    let a = keydecode_quick(key.clone(), 130744796, 2115470359).unwrap();
    let b = keydecode_quick(key.clone(), 130744796, 2115470359).unwrap();
    assert_eq!(a, b);
    let ka = create_key_info(key.clone(), 130744796, 2115470359).unwrap();
    let kb = create_key_info(key, 130744796, 2115470359).unwrap();
    assert_eq!(ka, kb);
}

#[test]
fn test_key_info_layout() {
    let key = "FFFFFFFFFFFFFFFFFFFFFFFFFF".to_string();
    let (public_value, product, hash) =
        keydecode_quick(key.clone(), 130744796, 2115470359).unwrap();
    let info = create_key_info(key, 130744796, 2115470359).unwrap();
    assert_eq!(info.len(), 36);
    assert_eq!(&info[0..4], &[0, 0, 0, 26]);
    assert_eq!(&info[4..8], &product.to_be_bytes());
    assert_eq!(&info[8..12], &public_value.to_be_bytes());
    assert_eq!(&info[12..16], &[0, 0, 0, 0]);
    assert_eq!(&info[16..36], &hash[..]);
}

#[test]
fn test_key_info_tokens_matter() {
    let key = "246789BCDEFGHJKMNPQRTVWXYZ".to_string();
    let a = create_key_info(key.clone(), 1, 2).unwrap();
    let b = create_key_info(key, 3, 4).unwrap();
    assert_eq!(a.len(), 36);
    assert_eq!(b.len(), 36);
    // The tokens feed the hash, so the last twenty bytes must differ.
    assert_eq!(a[0..16], b[0..16]);
    assert_ne!(a[16..36], b[16..36]);
}

#[test]
fn test_format_exe_info() {
    let info = format_exe_info("war3.exe", 2, 2, 2024, 12, 39, 34, 562152);
    assert_eq!(info, "war3.exe 02/02/24 12:39:34 562152");
}

#[test]
fn test_format_exe_info_truncates() {
    let long_name: String = "x".repeat(1500);
    let info = format_exe_info(&long_name, 1, 1, 2000, 0, 0, 0, 1);
    assert_eq!(info.len(), 1024);
    assert!(info.chars().all(|c| c == 'x'));
}

#[test]
fn test_civil_from_days() {
    assert_eq!(civil_from_days(0), (1970, 1, 1));
    assert_eq!(civil_from_days(31), (1970, 2, 1));
    assert_eq!(civil_from_days(365), (1971, 1, 1));
    // 2024-02-02, the day of 1706877574 seconds since the epoch.
    assert_eq!(civil_from_days(19755), (2024, 2, 2));
    // 2000-02-29: a leap day of a 400-divisible year.
    assert_eq!(civil_from_days(11016), (2000, 2, 29));
}

#[test]
fn test_select_executable() {
    let names = vec![
        "game.dll".to_string(),
        "war3.exe".to_string(),
        "Warcraft III.exe".to_string(),
    ];
    assert_eq!(select_executable(&names).unwrap(), "Warcraft III.exe");
    let names2 = vec!["war3.exe".to_string()];
    assert_eq!(select_executable(&names2).unwrap(), "war3.exe");
    let none: Vec<String> = vec!["readme.txt".to_string()];
    assert_eq!(
        select_executable(&none).unwrap_err(),
        AuthError::ExecutableNotFound
    );
}

#[test]
fn test_select_support_files() {
    let names = vec![
        "storm.dll".to_string(),
        "game.dll".to_string(),
        "war3.exe".to_string(),
    ];
    let (storm, game) = select_support_files(&names).unwrap();
    assert_eq!(storm, "storm.dll");
    assert_eq!(game, "game.dll");
    let upper = vec![
        "Storm.dll".to_string(),
        "storm.dll".to_string(),
        "game.dll".to_string(),
    ];
    assert_eq!(select_support_files(&upper).unwrap().0, "Storm.dll");
    let missing = vec!["game.dll".to_string()];
    assert_eq!(
        select_support_files(&missing).unwrap_err(),
        AuthError::SupportFileMissing
    );
}

#[test]
fn test_auth_check_single_file_mode() {
    let key = "FFFFFFFFFFFFFFFFFFFFFFFFFF".to_string();
    let exe = vec![1u8, 2, 3, 4];
    let files = vec![exe];
    let formula = "A=1239576727 C=1604096186 B=4198521212 4 A=A+S B=B-C C=C^A A=A+B";
    let bundle = auth_check(
        true,
        29,
        18613504,
        "war3.exe 02/02/24 12:39:34 562152".to_string(),
        formula,
        "ver-IX86-1.mpq".to_string(),
        &files,
        key.clone(),
        key.clone(),
        130744796,
        2115470359,
    )
    .unwrap();
    assert_eq!(bundle.exe_version, 18613504);
    assert_eq!(bundle.exe_info, "war3.exe 02/02/24 12:39:34 562152");
    assert_eq!(bundle.key_info_primary.len(), 36);
    assert_eq!(bundle.key_info_secondary.len(), 36);
    assert_eq!(
        Ok(bundle.revision_checksum),
        check_revision(formula, &files, 1)
    );
    assert_eq!(
        bundle.key_info_primary,
        create_key_info(key, 130744796, 2115470359).unwrap()
    );
}

#[test]
fn test_auth_check_without_expansion_key() {
    let key = "FFFFFFFFFFFFFFFFFFFFFFFFFF".to_string();
    let files = vec![vec![1u8, 2, 3, 4], vec![5u8, 6], vec![7u8]];
    let bundle = auth_check(
        false,
        28,
        1,
        "info".to_string(),
        "A=1 1 A=A+S",
        "ver-IX86-1.mpq".to_string(),
        &files,
        key,
        "ignored".to_string(),
        1,
        2,
    )
    .unwrap();
    assert_eq!(bundle.key_info_secondary.len(), 0);
    assert_eq!(bundle.key_info_primary.len(), 36);
}

#[test]
fn test_auth_check_faults() {
    let key = "FFFFFFFFFFFFFFFFFFFFFFFFFF".to_string();
    let files = vec![vec![0u8; 4]];
    let bad_mpq = auth_check(
        true,
        29,
        0,
        String::new(),
        "A=1 0",
        "no-number".to_string(),
        &files,
        key.clone(),
        key.clone(),
        1,
        2,
    );
    assert_eq!(bad_mpq.unwrap_err(), AuthError::UnsupportedArchiveVersion);
    let bad_formula = auth_check(
        true,
        29,
        0,
        String::new(),
        "garbage",
        "ver-IX86-1.mpq".to_string(),
        &files,
        key.clone(),
        key.clone(),
        1,
        2,
    );
    assert_eq!(bad_formula.unwrap_err(), AuthError::FormulaParseError);
    let bad_key = auth_check(
        true,
        29,
        0,
        String::new(),
        "A=1 0",
        "ver-IX86-1.mpq".to_string(),
        &files,
        "short".to_string(),
        key.clone(),
        1,
        2,
    );
    assert_eq!(bad_key.unwrap_err(), AuthError::InvalidKeyFormat);
}


#[test]
fn test_keydecode_key_sensitivity() {
    // Changing a single key character must change the decoded value.
    let a = keydecode_quick("FFFFFFFFFFFFFFFFFFFFFFFFFF".to_string(), 1, 2).unwrap();
    let b = keydecode_quick("2FFFFFFFFFFFFFFFFFFFFFFFFF".to_string(), 1, 2).unwrap();
    assert_ne!(a, b);
}
