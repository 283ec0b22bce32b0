use dns::blocklist::{blocked_ascii, blocked_packet, is_blocklist_entry};
use dns::cache_util::{key_for_ascii, make_cache_key};
use dns::name::Name;
use dns::text::{characters, normalize, push_decimal, to_lower_char};

fn name(labels: &[&str]) -> Name {
    Name { labels: labels.iter().map(|l| l.as_bytes().to_vec()).collect() }
}

fn list(entries: &[&str]) -> Vec<String> {
    entries.iter().map(|s| s.to_string()).collect()
}

#[test]
fn keys_hold_the_name_and_the_type() {
    assert_eq!(make_cache_key(&name(&["Www", "Example", "COM"]), 1), "www.example.com|1");
    assert_eq!(make_cache_key(&name(&["example"]), 65535), "example|65535");
    assert_eq!(make_cache_key(&name(&[]), 28), "|28");
    assert_eq!(key_for_ascii("A.b...", 10), "a.b|10");
}

#[test]
fn keys_ignore_case_and_tell_types_apart() {
    let (a, b) = (name(&["EXAMPLE", "com"]), name(&["example", "COM"]));
    assert!(a.same(&b));
    assert_eq!(make_cache_key(&a, 1), make_cache_key(&b, 1));
    assert_ne!(make_cache_key(&a, 1), make_cache_key(&a, 28));
    assert_ne!(make_cache_key(&a, 1), make_cache_key(&name(&["example", "net"]), 1));
}

#[test]
fn odd_octets_are_escaped() {
    assert_eq!(make_cache_key(&name(&["a.b", "c"]), 1), "a\\.b.c|1");
    let odd = Name { labels: vec![vec![0xFF]] };
    assert_eq!(make_cache_key(&odd, 1), "\\377|1");
}

#[test]
fn each_octet_has_its_presentation() {
    let key = |octets: &[u8]| make_cache_key(&Name { labels: vec![octets.to_vec()] }, 1);
    assert_eq!(key(b"-a-"), "\\-a-|1");
    assert_eq!(key(b"*a*"), "*a\\*|1");
    assert_eq!(key(b"_a_0"), "_a_0|1");
    assert_eq!(key(b"\\"), "\\\\|1");
    assert_eq!(key(b" "), "\\040|1");
    assert_eq!(key(b"\x7f\x00"), "\\177\\000|1");
    assert_eq!(key(b"~!"), "\\~\\!|1");
    assert_eq!(key(b"a."), "a\\|1");
}

#[test]
fn no_two_questions_share_a_key() {
    let names = [
        name(&[]),
        name(&["a"]),
        name(&["a", "b"]),
        name(&["a.b"]),
        name(&["a."]),
        name(&["a\\"]),
        name(&["a.", "b"]),
        name(&["\\046"]),
        name(&["&"]),
    ];
    for (i, a) in names.iter().enumerate() {
        for (j, b) in names.iter().enumerate() {
            assert_eq!(make_cache_key(a, 1) == make_cache_key(b, 1), i == j);
            assert_ne!(make_cache_key(a, 1), make_cache_key(b, 11));
        }
    }
}

#[test]
fn longer_lists_block_no_less() {
    let below = name(&["x.y", "-", "ads", "example"]);
    assert!(blocked_packet(&below, &list(&["ads.example"])));
    assert!(blocked_packet(&below, &list(&["other", "ads.example", ""])));
}

#[test]
fn names_differ_in_more_than_case() {
    assert!(!name(&["a"]).same(&name(&["a", "b"])));
    assert!(!name(&["ab"]).same(&name(&["a"])));
    assert!(!name(&["@"]).same(&name(&["`"])));
    assert!(!name(&["["]).same(&name(&["{"])));
    assert!(name(&["Az"]).same(&name(&["aZ"])));
    assert!(name(&["x", "y"]).clone().same(&name(&["x", "y"])));
}

#[test]
fn blocking_covers_the_domain_and_what_is_below() {
    let entries = list(&["ads.example", "tracker.net"]);
    assert!(blocked_packet(&name(&["ads", "example"]), &entries));
    assert!(blocked_packet(&name(&["a", "b", "ADS", "Example"]), &entries));
    assert!(blocked_packet(&name(&["tracker", "net"]), &entries));
    assert!(!blocked_packet(&name(&["loads", "example"]), &entries));
    assert!(!blocked_packet(&name(&["example"]), &entries));
    assert!(!blocked_packet(&name(&["tracker", "net", "org"]), &entries));
    assert!(!blocked_packet(&name(&["net"]), &list(&[])));
}

#[test]
fn entries_are_matched_as_they_stand() {
    assert!(!blocked_ascii("ads.example.", &list(&["ADS.example"])));
    assert!(!blocked_ascii("ads.example.", &list(&["ads.example."])));
    assert!(blocked_ascii(".", &list(&[""])));
    assert!(!blocked_ascii("example.", &list(&[""])));
    assert!(blocked_ascii("x.y..", &list(&["y"])));
}

#[test]
fn order_and_repetition_do_not_matter() {
    for entries in [&["a", "b", "a"][..], &["b", "a"][..]] {
        assert!(blocked_ascii("x.b.", &list(entries)));
        assert!(blocked_ascii("a.", &list(entries)));
        assert!(!blocked_ascii("c.", &list(entries)));
    }
}

#[test]
fn lines_with_an_r_in_front_are_no_entries() {
    assert!(!is_blocklist_entry("remark"));
    assert!(!is_blocklist_entry("r"));
    assert!(is_blocklist_entry("ads.example"));
    assert!(is_blocklist_entry("Remark"));
    assert!(is_blocklist_entry(" r"));
    assert!(is_blocklist_entry(""));
}

#[test]
fn text_helpers() {
    assert_eq!(characters("aé."), ['a', 'é', '.']);
    assert_eq!(to_lower_char('Q'), 'q');
    assert_eq!(to_lower_char('['), '[');
    assert_eq!(normalize("A.B.."), "a.b");
    assert_eq!(normalize("..."), "");
    let mut s = String::from("n=");
    push_decimal(&mut s, 0);
    push_decimal(&mut s, 40960);
    assert_eq!(s, "n=040960");
}
