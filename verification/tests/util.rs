use sesame::error::VaultError;
use sesame::secret::{SecretKey, SecretString};
use sesame::text::{bytes_contain, bytes_eq, bytes_lt, starts_with_bytes, str_contains, str_eq, str_starts_with};
use sesame::generator::{
    accept_sample, gen_password_bytes, shuffle_with, u32_of_le_bytes, Classes, DIGITS, LOWERS,
    SPECIALS, UPPERS,
};
use sesame::util::{
    confirm, gen_password, id_from_bytes, new_id, now_unix, pick_one, prompt_new_password,
    prompt_password_optional, prompt_with_default, rand_index, read_line, to_hex, unix_stamp,
};

fn password_text(r: Result<SecretString, VaultError>) -> String {
    match r {
        Ok(s) => s.expose().to_string(),
        Err(e) => panic!("no password: {:?}", e),
    }
}

fn password_error(r: Result<SecretString, VaultError>) -> VaultError {
    match r {
        Ok(_) => panic!("a password was generated"),
        Err(e) => e,
    }
}

#[test]
fn secret_key_holds_what_it_was_given() {
    let mut bytes = [0u8; 32];
    for i in 0..32 {
        bytes[i] = i as u8;
    }
    let key = SecretKey::new(bytes);
    assert_eq!(key.expose(), &bytes);
}

#[test]
fn secret_string_holds_what_it_was_given() {
    let s = SecretString::new("hunter2".to_string());
    assert_eq!(s.expose(), "hunter2");
}

#[test]
fn hex_of_bytes() {
    assert_eq!(to_hex(&[]), "");
    assert_eq!(to_hex(&[0x00, 0x09, 0x0a, 0xab, 0xff, 0x10]), "00090aabff10");
    assert_eq!(id_from_bytes(&[0xde; 16]), "dededededededededededededededede");
}

#[test]
fn new_id_is_32_lower_hex_characters() {
    let a = new_id().unwrap();
    let b = new_id().unwrap();
    assert_eq!(a.len(), 32);
    assert!(a.chars().all(|c| c.is_ascii_digit() || ('a'..='f').contains(&c)));
    assert_ne!(a, b);
}

#[test]
fn unix_stamp_of_seconds() {
    assert_eq!(unix_stamp(Some(0)), 0);
    assert_eq!(unix_stamp(Some(1_700_000_000)), 1_700_000_000);
    assert_eq!(unix_stamp(Some(i64::MAX as u64)), i64::MAX);
    assert_eq!(unix_stamp(Some(i64::MAX as u64 + 1)), i64::MAX);
    assert_eq!(unix_stamp(Some(u64::MAX)), i64::MAX);
    assert_eq!(unix_stamp(None), 0);
}

#[test]
fn now_unix_is_in_this_century() {
    let now = now_unix();
    assert!(now >= 0);
    assert!(now > 1_600_000_000);
    assert!(now < 4_102_444_800);
}

#[test]
fn sample_is_accepted_below_the_limit() {
    assert_eq!(accept_sample(0, 10), Some(0));
    assert_eq!(accept_sample(57, 10), Some(7));
    assert_eq!(accept_sample(4_294_967_289, 10), Some(9));
    assert_eq!(accept_sample(4_294_967_290, 10), None);
    assert_eq!(accept_sample(u32::MAX, 10), None);
    assert_eq!(accept_sample(u32::MAX, 1), None);
    assert_eq!(accept_sample(u32::MAX - 1, 1), Some(0));
    assert_eq!(accept_sample(5, 0), None);
    assert_eq!(accept_sample(u32::MAX - 1, u32::MAX), Some(u32::MAX - 1));
}

#[test]
fn four_bytes_low_byte_first() {
    assert_eq!(u32_of_le_bytes(&[1, 2, 3, 4]), 0x0403_0201);
    assert_eq!(u32_of_le_bytes(&[0xff, 0xff, 0xff, 0xff]), u32::MAX);
    assert_eq!(u32_of_le_bytes(&[0, 0, 0, 0]), 0);
    assert_eq!(u32_of_le_bytes(&[0x78, 0x56, 0x34, 0x12]), 0x1234_5678);
}

#[test]
fn rand_index_stays_below_n() {
    for n in [1usize, 2, 3, 10, 81, 1000] {
        let mut seen = vec![false; n];
        for _ in 0..200 {
            let i = rand_index(n).unwrap();
            assert!(i < n);
            seen[i] = true;
        }
        if n <= 3 {
            assert!(seen.iter().all(|s| *s));
        }
    }
}

#[test]
fn rand_index_refuses_zero() {
    assert_eq!(rand_index(0), Err(VaultError::Validation));
}

#[test]
fn pick_one_takes_a_byte_of_the_alphabet() {
    for _ in 0..100 {
        let c = pick_one(b"abc").unwrap();
        assert!(b"abc".contains(&c));
    }
    assert_eq!(pick_one(b"z"), Ok(b'z'));
    assert_eq!(pick_one(b""), Err(VaultError::Validation));
}

#[test]
fn pools_leave_out_the_ambiguous_glyphs() {
    assert_eq!(&UPPERS[..], b"ABCDEFGHJKLMNPQRSTUVWXYZ");
    assert_eq!(&LOWERS[..], b"abcdefghijkmnopqrstuvwxyz");
    assert_eq!(&DIGITS[..], b"23456789");
    assert_eq!(&SPECIALS[..], b"!@#$%^&*()[]{}-_=+:;,.?/");
}

#[test]
fn generated_password_has_every_class() {
    for _ in 0..200 {
        let p = password_text(gen_password(12, false, false, false, false));
        assert_eq!(p.len(), 12);
        assert_eq!(p.chars().count(), 12);
        assert!(p.bytes().any(|c| UPPERS.contains(&c)));
        assert!(p.bytes().any(|c| LOWERS.contains(&c)));
        assert!(p.bytes().any(|c| DIGITS.contains(&c)));
        assert!(p.bytes().any(|c| SPECIALS.contains(&c)));
        assert!(!p.contains(|c| "Il10O".contains(c)));
    }
}

#[test]
fn generated_password_keeps_to_the_enabled_classes() {
    for _ in 0..50 {
        let p = password_text(gen_password(20, true, true, false, true));
        assert_eq!(p.len(), 20);
        assert!(p.bytes().all(|c| DIGITS.contains(&c)));
        let q = password_text(gen_password(20, false, true, true, false));
        assert!(q.bytes().all(|c| UPPERS.contains(&c) || SPECIALS.contains(&c)));
        assert!(q.bytes().any(|c| UPPERS.contains(&c)));
        assert!(q.bytes().any(|c| SPECIALS.contains(&c)));
    }
}

#[test]
fn generated_password_may_be_as_short_as_its_classes() {
    for _ in 0..50 {
        let p = password_text(gen_password(4, false, false, false, false));
        assert_eq!(p.len(), 4);
        assert!(p.bytes().any(|c| UPPERS.contains(&c)));
        assert!(p.bytes().any(|c| LOWERS.contains(&c)));
        assert!(p.bytes().any(|c| DIGITS.contains(&c)));
        assert!(p.bytes().any(|c| SPECIALS.contains(&c)));
    }
    assert_eq!(password_text(gen_password(1, true, true, false, true)).len(), 1);
}

#[test]
fn generated_password_is_shuffled() {
    let mut first_is_upper = 0;
    for _ in 0..200 {
        let p = password_text(gen_password(4, false, false, false, false));
        if UPPERS.contains(&p.as_bytes()[0]) {
            first_is_upper += 1;
        }
    }
    assert!(first_is_upper < 200);
}

#[test]
fn generator_refuses_a_length_below_the_classes() {
    assert_eq!(password_error(gen_password(2, false, false, false, false)), VaultError::Validation);
    assert_eq!(password_error(gen_password(3, false, false, false, false)), VaultError::Validation);
    assert_eq!(password_error(gen_password(0, true, true, true, false)), VaultError::Validation);
    assert_eq!(password_error(gen_password(1, true, true, false, false)), VaultError::Validation);
}

#[test]
fn generator_refuses_no_classes() {
    assert_eq!(password_error(gen_password(12, true, true, true, true)), VaultError::Validation);
    assert_eq!(password_error(gen_password(0, true, true, true, true)), VaultError::Validation);
}

#[test]
fn password_bytes_follow_the_classes() {
    let classes = Classes { upper: false, lower: true, digit: true, special: false };
    let bytes = gen_password_bytes(16, classes).unwrap();
    assert_eq!(bytes.len(), 16);
    assert!(bytes.iter().all(|c| LOWERS.contains(c) || DIGITS.contains(c)));
    let none = Classes { upper: false, lower: false, digit: false, special: false };
    assert_eq!(gen_password_bytes(16, none), Err(VaultError::Validation));
}

#[test]
fn read_line_trims() {
    assert_eq!(read_line("  hello world \n"), "hello world");
    assert_eq!(read_line("\n"), "");
    assert_eq!(read_line("\u{a0}x\u{2003}"), "x");
}

#[test]
fn empty_answer_keeps_the_current_value() {
    assert_eq!(prompt_with_default("\n", "current"), "current");
    assert_eq!(prompt_with_default("   \t\n", "current"), "current");
    assert_eq!(prompt_with_default(" new \n", "current"), "new");
}

#[test]
fn empty_password_answer_is_no_change() {
    assert_eq!(prompt_password_optional(String::new()), None);
    assert_eq!(prompt_password_optional("pw".to_string()), Some("pw".to_string()));
    assert_eq!(prompt_password_optional(" ".to_string()), Some(" ".to_string()));
}

#[test]
fn new_password_must_be_typed_twice_alike() {
    let ok = prompt_new_password(SecretString::new("abc".into()), SecretString::new("abc".into()));
    assert_eq!(password_text(ok), "abc");
    let bad = prompt_new_password(SecretString::new("abc".into()), SecretString::new("abd".into()));
    assert_eq!(password_error(bad), VaultError::Validation);
}

#[test]
fn only_y_confirms() {
    assert!(confirm("y"));
    assert!(confirm("Y\n"));
    assert!(confirm("  y  \n"));
    assert!(!confirm("yes"));
    assert!(!confirm("n"));
    assert!(!confirm(""));
    assert!(!confirm("\n"));
}

#[test]
fn byte_order_is_lexicographic() {
    assert!(bytes_lt(b"", b"a"));
    assert!(!bytes_lt(b"", b""));
    assert!(!bytes_lt(b"a", b""));
    assert!(bytes_lt(b"a", b"b"));
    assert!(bytes_lt(b"a", b"aa"));
    assert!(bytes_lt(b"ab", b"b"));
    assert!(!bytes_lt(b"b", b"ab"));
    assert!(!bytes_lt(b"abc", b"abc"));
    assert!(bytes_lt(b"abc", b"abd"));
    assert_eq!(bytes_lt("Z".as_bytes(), "a".as_bytes()), "Z" < "a");
    assert_eq!(bytes_lt("é".as_bytes(), "z".as_bytes()), "é" < "z");
}

#[test]
fn byte_strings_compare_equal() {
    assert!(bytes_eq(b"", b""));
    assert!(bytes_eq(b"abc", b"abc"));
    assert!(!bytes_eq(b"abc", b"abd"));
    assert!(!bytes_eq(b"abc", b"ab"));
    assert!(str_eq("héllo", "héllo"));
    assert!(!str_eq("héllo", "hello"));
}

#[test]
fn prefixes_and_substrings() {
    assert!(starts_with_bytes(b"abcdef", b"abc"));
    assert!(starts_with_bytes(b"abc", b""));
    assert!(starts_with_bytes(b"abc", b"abc"));
    assert!(!starts_with_bytes(b"abc", b"abcd"));
    assert!(!starts_with_bytes(b"abc", b"bc"));
    assert!(bytes_contain(b"hello world", b"o w"));
    assert!(bytes_contain(b"hello", b""));
    assert!(bytes_contain(b"", b""));
    assert!(bytes_contain(b"hello", b"hello"));
    assert!(bytes_contain(b"hello", b"lo"));
    assert!(!bytes_contain(b"hello", b"hello!"));
    assert!(!bytes_contain(b"hello", b"ol"));
    assert!(!bytes_contain(b"", b"a"));
    assert!(str_contains("grüße", "üß"));
    assert!(str_starts_with("abcd1234", "abcd"));
    assert!(!str_starts_with("abcd1234", "bcd"));
}

#[test]
fn shuffle_follows_its_draws() {
    assert_eq!(shuffle_with(b"abcd".to_vec(), &vec![0, 0, 0]), b"bcda".to_vec());
    assert_eq!(shuffle_with(b"abc".to_vec(), &vec![1, 0]), b"cab".to_vec());
    assert_eq!(shuffle_with(b"abcd".to_vec(), &vec![1]), b"adcb".to_vec());
}

#[test]
fn shuffle_with_each_draw_at_its_own_place_changes_nothing() {
    assert_eq!(shuffle_with(b"abcd".to_vec(), &vec![3, 2, 1]), b"abcd".to_vec());
    assert_eq!(shuffle_with(b"abcd".to_vec(), &Vec::new()), b"abcd".to_vec());
    assert_eq!(shuffle_with(Vec::new(), &Vec::new()), Vec::<u8>::new());
    assert_eq!(shuffle_with(b"a".to_vec(), &Vec::new()), b"a".to_vec());
}

#[test]
fn shuffle_passes_over_draws_that_do_not_fit() {
    assert_eq!(shuffle_with(b"ab".to_vec(), &vec![5, 0, 0]), b"ab".to_vec());
    assert_eq!(shuffle_with(b"ab".to_vec(), &vec![0, 0, 1, 1]), b"ba".to_vec());
    assert_eq!(shuffle_with(b"ab".to_vec(), &vec![0, 1, 1, 1]), b"ab".to_vec());
    assert_eq!(shuffle_with(Vec::new(), &vec![0, 0]), Vec::<u8>::new());
}

#[test]
fn shuffle_keeps_the_bytes() {
    let mut mixed = shuffle_with(b"hello world".to_vec(), &vec![3, 0, 7, 2, 2, 5, 1, 0, 1, 0]);
    assert_ne!(mixed, b"hello world".to_vec());
    mixed.sort();
    let mut sorted = b"hello world".to_vec();
    sorted.sort();
    assert_eq!(mixed, sorted);
}
