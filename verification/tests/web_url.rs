use gacha_url::web_url::{allowed_key, filter_url, keep_allowed_pairs, Url};

fn pair(name: &str, value: &str) -> (String, String) {
    (name.to_owned(), value.to_owned())
}

fn filtered(text: &str) -> String {
    let url = Url::parse(text).unwrap();
    filter_url(url).as_str().to_owned()
}

#[test]
fn parse_gives_the_normal_form() {
    assert_eq!(Url::parse("HTTPS://Example.COM").unwrap().as_str(), "https://example.com/");
    assert_eq!(
        Url::parse("https://example.com/a b?x=é#f").unwrap().as_str(),
        "https://example.com/a%20b?x=%C3%A9#f"
    );
}

#[test]
fn parse_of_what_is_no_url() {
    assert_eq!(Url::parse(""), None);
    assert_eq!(Url::parse("not a url"), None);
    assert_eq!(Url::parse("/api/getGachaLog?authkey=a"), None);
    assert_eq!(Url::parse("https://"), None);
}

#[test]
fn normal_form_parses_to_itself() {
    let url = Url::parse("https://Example.com:443/a/../b?q=1 2").unwrap();
    let again = Url::parse(url.as_str()).unwrap();
    assert_eq!(again.as_str(), url.as_str());
    assert_eq!(again, url);
}

#[test]
fn query_pairs_are_decoded() {
    let url = Url::parse("https://h/p?a=1&b=x%20y+z&&c&=d&%61uthkey=k%3D%3D").unwrap();
    assert_eq!(
        url.query_pairs(),
        vec![pair("a", "1"), pair("b", "x y z"), pair("c", ""), pair("", "d"), pair("authkey", "k==")]
    );
    assert_eq!(Url::parse("https://h/p").unwrap().query_pairs(), vec![]);
}

#[test]
fn allowed_keys() {
    for key in ["authkey", "authkey_ver", "sign_type", "game_biz", "lang"] {
        assert!(allowed_key(key), "{}", key);
    }
    for key in ["", "end_id", "Authkey", "authkey ", "auth", "authkey_version", "langs", "lan", "size", "region"] {
        assert!(!allowed_key(key), "{}", key);
    }
}

#[test]
fn keeps_allowed_pairs_in_order() {
    let pairs = vec![
        pair("x", "0"),
        pair("lang", "en"),
        pair("end_id", "9"),
        pair("authkey", "k"),
        pair("lang", "fr"),
        pair("y", "1"),
        pair("game_biz", "hk4e"),
    ];
    assert_eq!(
        keep_allowed_pairs(&pairs),
        vec![pair("lang", "en"), pair("authkey", "k"), pair("lang", "fr"), pair("game_biz", "hk4e")]
    );
    assert_eq!(keep_allowed_pairs(&vec![]), vec![]);
    assert_eq!(keep_allowed_pairs(&vec![pair("x", "authkey")]), vec![]);
}

#[test]
fn filter_keeps_only_allowed_keys() {
    assert_eq!(
        filtered(
            "https://h.example/api/getGachaLog?win_mode=fullscreen&authkey_ver=1&sign_type=2&auth_appid=webview_gacha&lang=zh-cn&authkey=abc&game_biz=hk4e_cn&page=1&size=5&end_id=0"
        ),
        "https://h.example/api/getGachaLog?authkey_ver=1&sign_type=2&lang=zh-cn&authkey=abc&game_biz=hk4e_cn"
    );
}

#[test]
fn filter_keeps_the_order_of_the_source() {
    assert_eq!(
        filtered("https://h/p?lang=a&x=1&game_biz=b&y=2&authkey=c&z=3&sign_type=d&authkey_ver=e"),
        "https://h/p?lang=a&game_biz=b&authkey=c&sign_type=d&authkey_ver=e"
    );
    assert_eq!(
        filtered("https://h/p?authkey_ver=e&x=1&x=2&x=3&sign_type=d&authkey=c&game_biz=b&lang=a"),
        "https://h/p?authkey_ver=e&sign_type=d&authkey=c&game_biz=b&lang=a"
    );
}

#[test]
fn filter_keeps_repeated_keys() {
    assert_eq!(filtered("https://h/p?lang=a&lang=b&q=1&lang=a"), "https://h/p?lang=a&lang=b&lang=a");
}

#[test]
fn filter_writes_values_anew() {
    assert_eq!(
        filtered("https://h/p?authkey=a%2Fb+c%3D%3D&end_id=1"),
        "https://h/p?authkey=a%2Fb+c%3D%3D"
    );
    assert_eq!(filtered("https://h/p?authkey=a/b=c d&lang"), "https://h/p?authkey=a%2Fb%3Dc+d&lang=");
    assert_eq!(filtered("https://h/p?%6Cang=%E4%B8%AD"), "https://h/p?lang=%E4%B8%AD");
}

#[test]
fn filter_leaves_an_empty_query() {
    assert_eq!(filtered("https://h/p?x=1&end_id=2"), "https://h/p?");
    assert_eq!(filtered("https://h/p"), "https://h/p?");
}

#[test]
fn filter_keeps_the_rest_of_the_url() {
    assert_eq!(
        filtered("https://user@h.example:8443/a/b?x=1&lang=en#frag"),
        "https://user@h.example:8443/a/b?lang=en#frag"
    );
}

#[test]
fn filter_is_idempotent() {
    let samples = [
        "https://h/p?lang=a&x=1&game_biz=b&y=2&authkey=c%2F%2B+d&z=3&sign_type=d&authkey_ver=e",
        "https://h/p",
        "https://h/p?x=1",
        "https://h/p?authkey=&lang&lang=%00%FF#f",
        "https://h.example/api/getGachaLog?authkey=a'b\"c<d>e&end_id=",
    ];
    for sample in samples {
        let once = filtered(sample);
        let twice = filtered(&once);
        assert_eq!(twice, once, "on {:?}", sample);
    }
}

#[test]
fn filtered_query_reads_back_as_the_kept_pairs() {
    let samples = [
        "https://h/p?lang=a+b&x=1&authkey=%E4%B8%AD%2F%3D%26%25&authkey=&sign_type",
        "https://h/p?lang=%FF%FE&game_biz=*-._~!'()&authkey_ver=%2B%20+",
        "ftp://h/p?lang='\"<>&authkey=#x",
    ];
    for sample in samples {
        let url = Url::parse(sample).unwrap();
        let kept = keep_allowed_pairs(&url.query_pairs());
        let out = filter_url(url);
        assert_eq!(out.query_pairs(), kept, "on {:?}", sample);
    }
}

#[test]
fn filter_holds_its_laws_on_mixed_queries() {
    let tokens = [
        "authkey", "lang", "game_biz", "sign_type", "authkey_ver", "end_id", "=", "&", "%", "%2",
        "%41", "%FF", "%E4%B8%AD", "+", " ", "é", "'", "\"", "<", "x", "%00", ";", "?", "%26",
        "%3D", "%2B", "*", "~",
    ];
    let mut seed = 5u64;
    for _ in 0..3000 {
        let mut text = "https://h.example/p?".to_owned();
        seed = seed.wrapping_mul(6364136223846793005).wrapping_add(1442695040888963407);
        let count = (seed >> 33) % 13;
        for _ in 0..count {
            seed = seed.wrapping_mul(6364136223846793005).wrapping_add(1442695040888963407);
            text.push_str(tokens[((seed >> 33) % tokens.len() as u64) as usize]);
        }
        if (seed >> 20) % 3 == 0 {
            text.push_str("#frag");
        }
        let url = Url::parse(&text).unwrap();
        let kept = keep_allowed_pairs(&url.query_pairs());
        assert!(kept.iter().all(|(key, _)| allowed_key(key)), "on {:?}", text);
        let once = filter_url(url);
        assert_eq!(once.query_pairs(), kept, "on {:?}", text);
        assert_eq!(Url::parse(once.as_str()).unwrap().as_str(), once.as_str(), "on {:?}", text);
        let twice = filter_url(Url::parse(once.as_str()).unwrap());
        assert_eq!(twice.as_str(), once.as_str(), "on {:?}", text);
    }
}

#[test]
fn a_text_that_does_not_parse_to_itself_is_no_url() {
    let first = url::Url::parse("file://host//C:/x").unwrap();
    assert_eq!(first.as_str(), "file://host/C:/x");
    assert_eq!(url::Url::parse(first.as_str()).unwrap().as_str(), "file:///C:/x");
    assert_eq!(Url::parse("file://host//C:/x"), None);
    assert_eq!(Url::parse("file://host//C:/x?lang=en"), None);
}

#[test]
fn file_urls_that_parse_to_themselves() {
    assert_eq!(Url::parse("file://host/C:/x").unwrap().as_str(), "file:///C:/x");
    assert_eq!(Url::parse("file:///C:/x").unwrap().as_str(), "file:///C:/x");
    assert_eq!(Url::parse("file://host/a/b?x=1&lang=en").unwrap().as_str(), "file://host/a/b?x=1&lang=en");
    assert_eq!(filtered("file://host/a/b?x=1&lang=en"), "file://host/a/b?lang=en");
}

#[test]
fn urls_of_other_schemes() {
    assert_eq!(filtered("mailto:someone@example.com?lang=en&subject=x"), "mailto:someone@example.com?lang=en");
    assert_eq!(filtered("data:text/plain,hello?authkey=k#f"), "data:text/plain,hello?authkey=k#f");
    assert_eq!(filtered("http://[::1]:8080/p?x=1&game_biz=g"), "http://[::1]:8080/p?game_biz=g");
}
