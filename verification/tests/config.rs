use gacha_url::config::{get_config_path, load_last_game, save_last_game};

#[test]
fn config_file_lies_below_the_root() {
    assert_eq!(
        get_config_path(Some("C:\\Users\\me\\AppData\\LocalLow")),
        "C:\\Users\\me\\AppData\\LocalLow/gacha_url_last_game.txt"
    );
    assert_eq!(get_config_path(None), "./gacha_url_last_game.txt");
}

#[test]
fn saved_text_is_the_index_in_decimal() {
    assert_eq!(save_last_game(0), "0");
    assert_eq!(save_last_game(5), "5");
    assert_eq!(save_last_game(10), "10");
    assert_eq!(save_last_game(907), "907");
    assert_eq!(save_last_game(4294967295), "4294967295");
    for index in [1u32, 9, 11, 99, 100, 1000, 65535, 65536, 1234567890, u32::MAX - 1] {
        assert_eq!(save_last_game(index), index.to_string());
    }
}

#[test]
fn saved_text_reads_back() {
    for index in [0u32, 1, 5, 9, 10, 19, 100, 4096, 99999, 1000000000, u32::MAX] {
        assert_eq!(load_last_game(Some(&save_last_game(index))), Some(index));
    }
}

#[test]
fn nothing_read_is_no_index() {
    assert_eq!(load_last_game(None), None);
}

#[test]
fn index_with_white_space_around_it() {
    assert_eq!(load_last_game(Some("3")), Some(3));
    assert_eq!(load_last_game(Some(" 3\n")), Some(3));
    assert_eq!(load_last_game(Some("\r\n\t 42 \u{3000}\u{a0}")), Some(42));
    assert_eq!(load_last_game(Some("\u{2003}7\u{85}")), Some(7));
    assert_eq!(load_last_game(Some("+4")), Some(4));
    assert_eq!(load_last_game(Some("007")), Some(7));
    assert_eq!(load_last_game(Some("4294967295")), Some(u32::MAX));
    assert_eq!(load_last_game(Some("+0000000004294967295")), Some(u32::MAX));
}

#[test]
fn text_that_is_no_index() {
    assert_eq!(load_last_game(Some("")), None);
    assert_eq!(load_last_game(Some("   ")), None);
    assert_eq!(load_last_game(Some("+")), None);
    assert_eq!(load_last_game(Some("-1")), None);
    assert_eq!(load_last_game(Some("-0")), None);
    assert_eq!(load_last_game(Some("++1")), None);
    assert_eq!(load_last_game(Some("1 2")), None);
    assert_eq!(load_last_game(Some("1+")), None);
    assert_eq!(load_last_game(Some("+ 1")), None);
    assert_eq!(load_last_game(Some("3.0")), None);
    assert_eq!(load_last_game(Some("0x3")), None);
    assert_eq!(load_last_game(Some("three")), None);
    assert_eq!(load_last_game(Some("٣")), None);
    assert_eq!(load_last_game(Some("3\u{200b}")), None);
    assert_eq!(load_last_game(Some("\u{feff}3")), None);
    assert_eq!(load_last_game(Some("4294967296")), None);
    assert_eq!(load_last_game(Some("99999999999999999999999999")), None);
    assert_eq!(load_last_game(Some("4294967296x")), None);
}

#[test]
fn reading_agrees_with_trim_and_parse() {
    let samples = [
        "", " ", "0", "00", " 12 ", "\t\n12\r\n", "+12", "-12", "+-12", "1_000", "12a", "a12",
        "4294967295", "4294967296", "42949672950", " +4294967295 ", "\u{1680}5\u{2028}",
        "\u{180e}5", "5\u{2029}\u{202f}\u{205f}", "\u{b}\u{c}6", "\u{1c}6", "１２", "+", " + ",
    ];
    for sample in samples {
        let expected: Option<u32> = sample.trim().parse().ok();
        assert_eq!(load_last_game(Some(sample)), expected, "on {:?}", sample);
    }
}

#[test]
fn reading_agrees_with_trim_and_parse_on_mixed_text() {
    let tokens = [" ", "+", "-", "0", "1", "9", "4294967295", "x", "\n", "\u{3000}", "42949672", "\t"];
    let mut seed = 17u64;
    let mut found = 0;
    for _ in 0..4000 {
        let mut sample = String::new();
        seed = seed.wrapping_mul(6364136223846793005).wrapping_add(1442695040888963407);
        let count = (seed >> 33) % 7;
        for _ in 0..count {
            seed = seed.wrapping_mul(6364136223846793005).wrapping_add(1442695040888963407);
            sample.push_str(tokens[((seed >> 33) % tokens.len() as u64) as usize]);
        }
        let expected: Option<u32> = sample.trim().parse().ok();
        if expected.is_some() {
            found += 1;
        }
        assert_eq!(load_last_game(Some(&sample)), expected, "on {:?}", sample);
    }
    assert!(found > 50);
}
