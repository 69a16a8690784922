use regex::Regex;

use sharify::utils::{
    decode_user_email, email_contains_invalid_chars, encode_user_email, generate_code_challenge,
    generate_code_verifier, get_authorized_bytes, hex_uuid_to_valid_email,
};

const LENGTH: usize = 15;
const DUMMY_EMAILS: [&str; 6] = [
    "test@hotmail.com",
    "dummy-email@gmail.com",
    "invalid\\/email@wrong,;^$.chars",
    "smol@email.io",
    "i-lack_ideas_for-this-one@gmail.com",
    "i_am_bond_james_bond-007@mail.uk",
];

fn are_emails_alike(a: String, b: String) -> bool {
    a.chars().zip(b.chars()).enumerate().fold(
        true,
        |b, (_, (char1, char2))| if b { char1 == char2 } else { b },
    )
}

// Email & HEX UUID conversions
#[test]
fn converts_email_to_valid_uuid() {
    let reg = Regex::new(&format!("(:?(\\d|[A-F]){{4}}:?){{{LENGTH}}}")).unwrap();

    for email in DUMMY_EMAILS {
        let hex = encode_user_email(email.to_owned(), LENGTH);

        assert!(reg.is_match(&hex));
    }
}

#[test]
fn converts_uuid_to_string() {
    for email in DUMMY_EMAILS {
        let hex = encode_user_email(email.to_owned(), LENGTH);

        let hex_in_str = decode_user_email(&hex);

        if email_contains_invalid_chars(email.to_owned()) {
            assert!(!are_emails_alike(email.to_owned(), hex_in_str));
            continue;
        }

        assert!(are_emails_alike(email.to_owned(), hex_in_str));
    }
}

#[test]
fn converts_uuid_to_initial_email() {
    let length = DUMMY_EMAILS.iter().fold(
        0,
        |i, &email| if email.len() > i { email.len() + 1 } else { i },
    );

    for email in DUMMY_EMAILS {
        if email_contains_invalid_chars(email.to_owned()) {
            continue;
        }

        let hex = encode_user_email(email.to_owned(), length);

        let res = hex_uuid_to_valid_email(hex, email.len());

        assert!(res.is_some_and(|e| e == email));
    }
}

#[test]
fn encodes_pairs_as_uppercase_hex_groups() {
    assert_eq!(encode_user_email("ab".to_owned(), 1), "6162");
    assert_eq!(encode_user_email("ab".to_owned(), 2), "6162:6162");
    assert_eq!(encode_user_email("abc".to_owned(), 2), "6162:6330");
    assert_eq!(encode_user_email("".to_owned(), 4), "");
    assert_eq!(encode_user_email("  ".to_owned(), 4), "");
}

#[test]
fn decodes_groups_back_to_characters() {
    assert_eq!(decode_user_email(&"6162:6330".to_owned()), "abc0");
    assert_eq!(decode_user_email(&"6162".to_owned()), "ab");
    assert_eq!(decode_user_email(&String::new()), "");
}

#[test]
fn flags_identifiers_with_characters_out_of_range() {
    assert!(email_contains_invalid_chars("has space".to_owned()));
    assert!(email_contains_invalid_chars("comma,".to_owned()));
    assert!(!email_contains_invalid_chars("plain-id@mail.io".to_owned()));
}

#[test]
fn recovers_email_of_known_length() {
    let hex = encode_user_email("smol@email.io".to_owned(), 36);
    let back = hex_uuid_to_valid_email(hex, "smol@email.io".len());
    assert_eq!(back, Some("smol@email.io".to_owned()));
}

#[test]
fn refuses_recovery_from_too_short_encoding() {
    let hex = encode_user_email("ab".to_owned(), 1);
    assert_eq!(hex_uuid_to_valid_email(hex, 50), None);
}

#[test]
fn authorized_bytes_cover_the_permitted_range() {
    let bytes = get_authorized_bytes();
    assert!(bytes.contains(&'0'));
    assert!(bytes.contains(&'-'));
    assert!(bytes.contains(&'z'));
    assert!(!bytes.contains(&','));
}

#[test]
fn code_verifier_is_128_alphanumeric_characters() {
    let v = generate_code_verifier();
    assert_eq!(v.len(), 128);
    assert!(v.chars().all(|c| c.is_ascii_alphanumeric()));
}

#[test]
fn code_challenge_matches_the_reference_vector() {
    let challenge = generate_code_challenge(
        "dBjftJeZ4CVP-mB92K27uhbUJU1p1r_wW1gFWFOEjXk".to_owned(),
    );
    assert_eq!(challenge, "E9Melhoa2OwvFrEMTJguCHaoeK1t8URWbuGJSstw-cM");
}

#[test]
fn decoding_ignores_extra_characters_of_a_group() {
    assert_eq!(decode_user_email(&"616261626".to_owned()), "ab");
    assert_eq!(decode_user_email(&"61626162:6330".to_owned()), "abc0");
    assert_eq!(decode_user_email(&"61:6330".to_owned()), "c0");
}
