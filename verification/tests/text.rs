use cybervault::cli::confirm_master_password;
use cybervault::display::{entry_noun, footer_hint, hex_to_rgb, input_prompt, secret_mask_len};
use cybervault::app::Mode;
use cybervault::keysmith_gen::{generation_args, generation_result, Kind};
use cybervault::text::{chars_of, occurs, strip_line_ends, trim};

fn reference_hex(hex: &str) -> (u8, u8, u8) {
    let hex = hex.trim_start_matches('#');
    let r = u8::from_str_radix(hex.get(0..2).unwrap_or("ff"), 16).unwrap_or(255);
    let g = u8::from_str_radix(hex.get(2..4).unwrap_or("ff"), 16).unwrap_or(255);
    let b = u8::from_str_radix(hex.get(4..6).unwrap_or("ff"), 16).unwrap_or(255);
    (r, g, b)
}

#[test]
fn hex_colors_parse_like_from_str_radix() {
    let samples = [
        "#ff00aa", "ff00aa", "##12AbCd", "#abc", "", "#", "#+f+f+f", "#-f0000", "#zz1122",
        "#é00000", "#0é0000", "#00é000", "#1", "#123", "#12345", "#1234567", "+1+2+3", "#ü",
    ];
    for s in samples {
        assert_eq!(hex_to_rgb(s), reference_hex(s), "{s:?}");
    }
    assert_eq!(hex_to_rgb("#ff00aa"), (255, 0, 170));
    assert_eq!(hex_to_rgb("#abc"), (171, 255, 255));
}

#[test]
fn trim_matches_std() {
    let samples = ["", "  a  ", "\t\nx y\r\n", "\u{3000}wide\u{2003}", "\u{85}nl\u{a0}", "no-space", "   "];
    for s in samples {
        assert_eq!(trim(s), s.trim(), "{s:?}");
    }
}

#[test]
fn every_char_is_whitespace_exactly_when_std_says_so() {
    for c in (0u32..=0x10FFFF).filter_map(char::from_u32) {
        let s = c.to_string();
        assert_eq!(trim(&s).is_empty(), c.is_whitespace(), "{c:?}");
    }
}

#[test]
fn strip_line_ends_removes_only_trailing_newlines() {
    assert_eq!(strip_line_ends("secret\n"), "secret");
    assert_eq!(strip_line_ends("secret\r\n\r\n"), "secret");
    assert_eq!(strip_line_ends("\nsecret \n"), "\nsecret ");
    assert_eq!(strip_line_ends(""), "");
    assert_eq!(strip_line_ends("\r\n"), "");
}

#[test]
fn occurs_finds_substrings() {
    let hay = chars_of("github");
    assert!(occurs(&chars_of("git"), &hay));
    assert!(occurs(&chars_of("hub"), &hay));
    assert!(occurs(&chars_of(""), &hay));
    assert!(!occurs(&chars_of("lab"), &hay));
    assert!(!occurs(&chars_of("githubs"), &hay));
}

#[test]
fn secret_mask_is_capped_at_32() {
    assert_eq!(secret_mask_len("abc"), 3);
    assert_eq!(secret_mask_len("ééé"), 3);
    assert_eq!(secret_mask_len(&"x".repeat(40)), 32);
    assert_eq!(secret_mask_len(""), 0);
}

#[test]
fn titles_and_hints_per_mode() {
    assert_eq!(entry_noun(1), "entry");
    assert_eq!(entry_noun(0), "entries");
    assert_eq!(entry_noun(2), "entries");
    assert_eq!(input_prompt(Mode::Filter), Some(("filter", false)));
    assert_eq!(input_prompt(Mode::AddSecret).unwrap().1, true);
    assert_eq!(input_prompt(Mode::Normal), None);
    assert_eq!(footer_hint(Mode::ConfirmRemove), "remove this entry? y/n");
    assert_eq!(footer_hint(Mode::AddLabel), "enter confirm  esc cancel");
}

#[test]
fn keysmith_arguments_per_kind() {
    assert_eq!(generation_args(Kind::Password), vec!["password", "--raw", "--length", "24"]);
    assert_eq!(generation_args(Kind::Passphrase), vec!["passphrase", "--raw"]);
}

#[test]
fn keysmith_output_is_read_into_a_secret_or_an_error() {
    assert_eq!(generation_result(true, "  s3cr3t\n", ""), Ok("s3cr3t".to_string()));
    assert_eq!(
        generation_result(true, " \n", ""),
        Err("keysmith produced no output".to_string())
    );
    assert_eq!(
        generation_result(false, "ignored", " bad flag\n"),
        Err("keysmith exited with an error: bad flag".to_string())
    );
}

#[test]
fn master_password_confirmation() {
    assert_eq!(confirm_master_password("pw".to_string(), "pw"), Ok("pw".to_string()));
    assert_eq!(
        confirm_master_password("pw".to_string(), "px"),
        Err("passwords did not match".to_string())
    );
}
