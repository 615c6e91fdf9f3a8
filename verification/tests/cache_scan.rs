use gacha_url::cache_scan::{scan_cache, split_ranges, CacheScanner};
use gacha_url::candidate::find_candidate;
use regex_lite::Regex;

fn chars(text: &str) -> Vec<char> {
    text.chars().collect()
}

fn candidate_in(text: &str) -> Option<String> {
    let text = chars(text);
    find_candidate(&text).map(|(from, to)| text[from..to].iter().collect())
}

fn by_pattern(text: &str) -> Option<String> {
    let re = Regex::new(r"(https://.+?/api/getGachaLog.+?authkey=.+?end_id=)").unwrap();
    re.captures(text).map(|c| c[0].to_owned())
}

fn all_of(scanner: &mut CacheScanner) -> Vec<String> {
    let mut found = Vec::new();
    while let Some(url) = scanner.next() {
        found.push(url.as_str().to_owned());
    }
    found
}

fn split(text: &str, marker: &str) -> Vec<String> {
    let text = chars(text);
    split_ranges(&text, &chars(marker)).iter().map(|&(a, b)| text[a..b].iter().collect()).collect()
}

#[test]
fn candidate_ends_with_end_id() {
    assert_eq!(
        candidate_in("xx https://h/api/getGachaLog?a=1&authkey=k&b=2&end_id=77&c=3 yy"),
        Some("https://h/api/getGachaLog?a=1&authkey=k&b=2&end_id=".to_owned())
    );
}

#[test]
fn candidate_needs_every_word() {
    assert_eq!(candidate_in(""), None);
    assert_eq!(candidate_in("https://h/api/getGachaLog?authkey=k&x=1"), None);
    assert_eq!(candidate_in("https://h/api/getGachaLog?end_id=1&x=1"), None);
    assert_eq!(candidate_in("https://h/api/other?authkey=k&end_id=1"), None);
    assert_eq!(candidate_in("http://h/api/getGachaLog?authkey=k&end_id=1"), None);
    assert_eq!(candidate_in("https://h/api/getGachaLog?end_id=1&authkey=k"), None);
}

#[test]
fn candidate_needs_something_between_the_words() {
    assert_eq!(candidate_in("https:///api/getGachaLog?authkey=k&end_id="), None);
    assert_eq!(candidate_in("https://h/api/getGachaLogauthkey=k&end_id="), None);
    assert_eq!(candidate_in("https://h/api/getGachaLog?authkey=end_id="), None);
    assert_eq!(
        candidate_in("https://h/api/getGachaLog?authkey=&end_id="),
        Some("https://h/api/getGachaLog?authkey=&end_id=".to_owned())
    );
    assert_eq!(
        candidate_in("https:///api/getGachaLog/api/getGachaLog?authkey=kend_id="),
        Some("https:///api/getGachaLog/api/getGachaLog?authkey=kend_id=".to_owned())
    );
}

#[test]
fn candidate_stays_on_one_line() {
    assert_eq!(candidate_in("https://h/api/getGachaLog?authkey=k\n&end_id=1"), None);
    assert_eq!(candidate_in("https://h\n/api/getGachaLog?authkey=k&end_id=1"), None);
    assert_eq!(
        candidate_in("https://a/api/getGachaLog?\nhttps://b/api/getGachaLog?authkey=k&end_id=1"),
        Some("https://b/api/getGachaLog?authkey=k&end_id=".to_owned())
    );
}

#[test]
fn candidate_begins_early_and_ends_soon() {
    assert_eq!(
        candidate_in("https://a https://b/api/getGachaLog?authkey=1&end_id=2&authkey=3&end_id=4"),
        Some("https://a https://b/api/getGachaLog?authkey=1&end_id=".to_owned())
    );
}

#[test]
fn candidate_agrees_with_the_pattern() {
    let samples = [
        "",
        "https://",
        "https://h/api/getGachaLog?authkey=k&end_id=1",
        "https://https://h/api/getGachaLog/api/getGachaLog?authkey=authkey=k&end_id=end_id=",
        "https://a\nhttps://b/api/getGachaLog?\nauthkey=https://c/api/getGachaLog?xauthkey=yend_id=z",
        "https:///api/getGachaLogauthkey=end_id=https://x/api/getGachaLog!authkey=!end_id=",
        "ahttps://é/api/getGachaLog中authkey=\u{fffd}end_id=\u{fffd}",
        "https://h/api/getGachaLog?authkey=k&end_id",
        "https://h/api/getGachaLog?authkey=k\r&end_id=",
        "https://h/api/getGachaLo/api/getGachaLog?authke?authkey=?end_id?end_id=",
    ];
    for sample in samples {
        assert_eq!(candidate_in(sample), by_pattern(sample), "on {:?}", sample);
    }
}

#[test]
fn split_at_each_marker() {
    assert_eq!(split("a1/0/b1/0/c", "1/0/"), vec!["a", "b", "c"]);
    assert_eq!(split("abc", "1/0/"), vec!["abc"]);
    assert_eq!(split("", "1/0/"), vec![""]);
    assert_eq!(split("1/0/", "1/0/"), vec!["", ""]);
    assert_eq!(split("1/0/1/0/x1/0/", "1/0/"), vec!["", "", "x", ""]);
    assert_eq!(split("1/0", "1/0/"), vec!["1/0"]);
    assert_eq!(split("11/0/0/", "1/0/"), vec!["1", "0/"]);
}

#[test]
fn split_agrees_with_str_split() {
    let samples = [("aaaa", "aa"), ("aaa", "aa"), ("abababa", "aba"), ("x", ""), ("", "x"), ("中1/0/文", "1/0/")];
    for (text, marker) in samples {
        if marker.is_empty() {
            assert_eq!(split(text, marker), vec![text.to_owned()]);
        } else {
            let expected: Vec<String> = text.split(marker).map(|s| s.to_owned()).collect();
            assert_eq!(split(text, marker), expected, "on {:?} by {:?}", text, marker);
        }
    }
}

#[test]
fn later_records_come_first() {
    let cache = "junk1/0/https://x/api/getGachaLog?lang=en&authkey=a&size=5&end_id=1&rest junk1/0/https://x/api/getGachaLog?lang=en&authkey=b&size=5&end_id=2&rest junk";
    let mut scanner = scan_cache(cache.as_bytes());
    assert_eq!(scanner.tried(), 0);
    assert_eq!(
        scanner.next().unwrap().as_str(),
        "https://x/api/getGachaLog?lang=en&authkey=b&size=5&end_id="
    );
    assert_eq!(scanner.tried(), 1);
    assert_eq!(
        scanner.next().unwrap().as_str(),
        "https://x/api/getGachaLog?lang=en&authkey=a&size=5&end_id="
    );
    assert_eq!(scanner.tried(), 2);
    assert_eq!(scanner.next(), None);
    assert_eq!(scanner.next(), None);
    assert_eq!(scanner.tried(), 2);
}

#[test]
fn one_candidate_for_each_record() {
    let cache = "1/0/https://x/api/getGachaLog?authkey=a&end_id=1 https://x/api/getGachaLog?authkey=b&end_id=2";
    let mut scanner = scan_cache(cache.as_bytes());
    assert_eq!(all_of(&mut scanner), vec!["https://x/api/getGachaLog?authkey=a&end_id="]);
}

#[test]
fn records_without_a_candidate_are_passed_over() {
    let cache = "https://x/api/getGachaLog?authkey=a&end_id=1/0/nothing1/0/https://y/api/getGachaLog?authkey=b&end_id=1/0/https://z/index.html1/0/";
    let mut scanner = scan_cache(cache.as_bytes());
    assert_eq!(
        all_of(&mut scanner),
        vec!["https://y/api/getGachaLog?authkey=b&end_id=", "https://x/api/getGachaLog?authkey=a&end_id="]
    );
    assert_eq!(scanner.tried(), 2);
}

#[test]
fn candidates_that_are_no_urls_are_passed_over() {
    let cache = "1/0/https://x/api/getGachaLog?authkey=a&end_id=1/0/https://[/api/getGachaLog?authkey=b&end_id=";
    let mut scanner = scan_cache(cache.as_bytes());
    assert_eq!(all_of(&mut scanner), vec!["https://x/api/getGachaLog?authkey=a&end_id="]);
    assert_eq!(scanner.tried(), 1);
}

#[test]
fn bytes_that_are_no_text_are_replaced() {
    let mut cache = Vec::new();
    cache.extend_from_slice(b"\xff\xfe\x00\x011/0/https://x/api/getGachaLog?\xffauthkey=a\xc3&end_id=9\x00\xff");
    let mut scanner = scan_cache(&cache);
    assert_eq!(
        all_of(&mut scanner),
        vec!["https://x/api/getGachaLog?%EF%BF%BDauthkey=a%EF%BF%BD&end_id="]
    );
}

#[test]
fn empty_cache_has_no_candidates() {
    let mut scanner = scan_cache(b"");
    assert_eq!(scanner.next(), None);
    assert_eq!(scanner.tried(), 0);
    let mut scanner = CacheScanner::new("1/0/1/0/".to_owned());
    assert_eq!(scanner.next(), None);
}

#[test]
fn scanner_over_text() {
    let mut scanner = CacheScanner::new(
        "1/0/https://中文.example/api/getGachaLog?authkey=é&end_id=5".to_owned(),
    );
    assert_eq!(
        all_of(&mut scanner),
        vec!["https://xn--fiq228c.example/api/getGachaLog?authkey=%C3%A9&end_id="]
    );
}

fn next(seed: &mut u64, below: u64) -> u64 {
    *seed = seed.wrapping_mul(6364136223846793005).wrapping_add(1442695040888963407);
    (*seed >> 33) % below
}

fn mix(seed: &mut u64, tokens: &[&str], most: u64) -> String {
    let mut text = String::new();
    for _ in 0..next(seed, most + 1) {
        text.push_str(tokens[next(seed, tokens.len() as u64) as usize]);
    }
    text
}

/// A text that holds the four words in their order more often than not,
/// with a few other pieces between them.
fn request_like(seed: &mut u64) -> String {
    let words = ["https://", "/api/getGachaLog", "authkey=", "end_id="];
    let fillers = ["x", "é", "?", "=", "\n", "https://", "authkey=", "/api/getGachaLog", "end_id=", "h", "&"];
    let mut text = mix(seed, &fillers, 2);
    for _ in 0..1 + next(seed, 2) {
        for word in words {
            if next(seed, 8) != 0 {
                text.push_str(word);
            }
            for _ in 0..next(seed, 3) {
                if next(seed, 12) == 0 {
                    text.push('\n');
                } else {
                    text.push_str(fillers[next(seed, fillers.len() as u64) as usize]);
                }
            }
        }
    }
    text
}

#[test]
fn candidate_agrees_with_the_pattern_on_mixed_text() {
    let re = Regex::new(r"(https://.+?/api/getGachaLog.+?authkey=.+?end_id=)").unwrap();
    let mut seed = 7u64;
    let mut found = 0;
    for _ in 0..4000 {
        let sample = request_like(&mut seed);
        let expected = re.captures(&sample).map(|c| c[0].to_owned());
        if expected.is_some() {
            found += 1;
        }
        assert_eq!(candidate_in(&sample), expected, "on {:?}", sample);
    }
    assert!(found > 400 && found < 3600, "{}", found);
}

#[test]
fn split_agrees_with_str_split_on_mixed_text() {
    let tokens = ["1", "/", "0", "1/0/", "x", "1/0", "/0/", "中"];
    let mut seed = 11u64;
    for _ in 0..4000 {
        let sample = mix(&mut seed, &tokens, 10);
        let expected: Vec<String> = sample.split("1/0/").map(|s| s.to_owned()).collect();
        assert_eq!(split(&sample, "1/0/"), expected, "on {:?}", sample);
    }
}

#[test]
fn scanner_agrees_with_split_and_pattern_on_mixed_text() {
    let re = Regex::new(r"(https://.+?/api/getGachaLog.+?authkey=.+?end_id=)").unwrap();
    let mut seed = 13u64;
    let mut found = 0;
    for _ in 0..3000 {
        let mut sample = String::new();
        for _ in 0..next(&mut seed, 5) {
            sample.push_str(&request_like(&mut seed));
            if next(&mut seed, 4) != 0 {
                sample.push_str("1/0/");
            }
            if next(&mut seed, 6) == 0 {
                sample.push_str("https://[");
            }
        }
        let expected: Vec<String> = sample
            .split("1/0/")
            .collect::<Vec<_>>()
            .into_iter()
            .rev()
            .filter_map(|piece| re.captures(piece))
            .filter_map(|cap| gacha_url::web_url::Url::parse(&cap[0]))
            .map(|url| url.as_str().to_owned())
            .collect();
        found += expected.len();
        let mut scanner = scan_cache(sample.as_bytes());
        assert_eq!(all_of(&mut scanner), expected, "on {:?}", sample);
        assert_eq!(scanner.tried(), expected.len());
    }
    assert!(found > 400, "{}", found);
}
