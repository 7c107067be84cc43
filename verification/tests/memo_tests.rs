use autorebase::memo::Memo;
use autorebase::memo::MemoEntry;

fn b(s: &str) -> Vec<u8> {
    s.as_bytes().to_vec()
}

fn memo_of(pairs: &[(&str, &str)]) -> Memo {
    let mut m = Memo::new();
    for (k, v) in pairs {
        m.remember(&b(k), &b(v));
    }
    m
}

#[test]
fn serialize_empty_is_header_only() {
    let m = Memo::new();
    assert_eq!(m.serialize(), b("[branches]\n"));
}

#[test]
fn serialize_one_entry() {
    let m = memo_of(&[("wip1", "540f822d14ae077991e2a722996825e4e7f9d667")]);
    assert_eq!(
        m.serialize(),
        b("[branches]\n\"wip1\" = \"540f822d14ae077991e2a722996825e4e7f9d667\"\n")
    );
}

#[test]
fn round_trip_empty() {
    let m = Memo::new();
    let doc = m.serialize();
    let back = Memo::parse(&doc).expect("parse");
    assert_eq!(back, m);
}

#[test]
fn round_trip_two_entries() {
    let m = memo_of(&[
        ("wip1", "540f822d14ae077991e2a722996825e4e7f9d667"),
        ("wip2", "634e0a6b255cfff4cb9ba33a052da2f7e85a7bb9"),
    ]);
    let doc = m.serialize();
    let back = Memo::parse(&doc).expect("parse");
    assert_eq!(back, m);
}

#[test]
fn round_trip_quote_and_backslash_in_name() {
    let m = memo_of(&[("odd\"na\\me", "a6de41485a5af44adc18b599a63840c367043e39")]);
    let doc = m.serialize();
    let back = Memo::parse(&doc).expect("parse");
    assert_eq!(back, m);
}

#[test]
fn parse_bare_keys() {
    let doc = b("[branches]\nwip1 = \"abc\"\nwip-2_x = \"def\"\n");
    let m = Memo::parse(&doc).expect("parse");
    assert_eq!(m.get(&b("wip1")), Some(b("abc")));
    assert_eq!(m.get(&b("wip-2_x")), Some(b("def")));
    assert_eq!(m.get(&b("other")), None);
}

#[test]
fn parse_rejects_bad_header() {
    assert!(Memo::parse(&b("[branch]\n")).is_none());
    assert!(Memo::parse(&b("")).is_none());
    assert!(Memo::parse(&b("branches\nwip = \"a\"\n")).is_none());
}

#[test]
fn parse_rejects_unterminated_string() {
    assert!(Memo::parse(&b("[branches]\n\"wip = \"a\"\n")).is_none());
    assert!(Memo::parse(&b("[branches]\nwip = \"abc")).is_none());
}

#[test]
fn parse_rejects_missing_equals() {
    assert!(Memo::parse(&b("[branches]\nwip \"a\"\n")).is_none());
}

#[test]
fn parse_rejects_unquoted_value() {
    assert!(Memo::parse(&b("[branches]\nwip = abc\n")).is_none());
}

#[test]
fn parse_rejects_duplicate_key() {
    assert!(Memo::parse(&b("[branches]\nwip = \"a\"\nwip = \"b\"\n")).is_none());
}

#[test]
fn parse_rejects_missing_final_newline() {
    assert!(Memo::parse(&b("[branches]\nwip = \"a\"")).is_none());
}

#[test]
fn get_forget_remember() {
    let mut m = memo_of(&[("wip1", "aaaa"), ("wip2", "bbbb")]);
    assert_eq!(m.get(&b("wip1")), Some(b("aaaa")));
    m.forget(&b("wip1"));
    assert_eq!(m.get(&b("wip1")), None);
    assert_eq!(m.get(&b("wip2")), Some(b("bbbb")));
    m.remember(&b("wip2"), &b("cccc"));
    assert_eq!(m.get(&b("wip2")), Some(b("cccc")));
    m.forget(&b("absent"));
    assert_eq!(m.get(&b("wip2")), Some(b("cccc")));
}

#[test]
fn entries_are_public_values() {
    let m = Memo {
        entries: vec![MemoEntry { branch: b("wip"), commit: b("dddd") }],
    };
    assert_eq!(m.get(&b("wip")), Some(b("dddd")));
}
