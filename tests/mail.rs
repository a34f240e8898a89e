use lkml::mail::{parse, MailError, Type};
use lkml::text::{contains, normalize_id};

#[test]
fn parse_normalizes_ids() {
    let raw = b"Message-ID: junk <abc@host> trailing\r\nIn-Reply-To: Re: <p@host>\r\nList-Id: <l.lists>\r\nTo: A <a@x>\r\nCc: B <b@x>\r\nFrom: C <c@x>\r\n\r\nhello body".to_vec();
    let m = parse(raw.clone(), "cur/1".to_string(), "1".to_string(), Type::New, &Vec::new())
        .unwrap();
    assert_eq!(m.id, "<abc@host>");
    assert_eq!(m.parent.as_deref(), Some("<p@host>"));
    assert_eq!(m.list_ids, vec!["<l.lists>".to_string()]);
    assert_eq!(m.to, vec!["A <a@x>".to_string()]);
    assert_eq!(m.cc, vec!["B <b@x>".to_string()]);
    assert_eq!(m.from, vec!["C <c@x>".to_string()]);
    assert_eq!(m.body, "hello body");
    assert_eq!(m.raw, raw);
    assert_eq!(m.typ, Type::New);
}

#[test]
fn parse_reports_missing_id() {
    let raw = b"Subject: x\r\n\r\nbody".to_vec();
    let r = parse(raw, "p".to_string(), "p".to_string(), Type::New, &Vec::new());
    assert!(matches!(r, Err(MailError::MissingId(p)) if p == "p"));
}

#[test]
fn parse_prefers_configured_id() {
    let raw = b"Message-ID: <a@x>\r\nMessage-ID: <b@x>\r\n\r\nbody".to_vec();
    let r = parse(raw.clone(), "p".to_string(), "p".to_string(), Type::New, &Vec::new());
    assert!(matches!(r, Err(MailError::MultipleIds(2, _))));
    let prefer = vec!["<b@x>".to_string()];
    let m = parse(raw, "p".to_string(), "p".to_string(), Type::New, &prefer).unwrap();
    assert_eq!(m.id, "<b@x>");
}

#[test]
fn parse_reports_multiple_replies() {
    let raw = b"Message-ID: <a@x>\r\nIn-Reply-To: <b@x>\r\nIn-Reply-To: <c@x>\r\n\r\nbody".to_vec();
    let r = parse(raw, "p".to_string(), "p".to_string(), Type::Folder(1), &Vec::new());
    assert!(matches!(r, Err(MailError::MultiReply(2, _))));
}

#[test]
fn normalize_id_trims_outside_brackets() {
    assert_eq!(normalize_id("xx<a@b>yy"), "<a@b>");
    assert_eq!(normalize_id("<a@b> <c@d>"), "<a@b> <c@d>");
    assert_eq!(normalize_id("no brackets"), "");
    assert_eq!(normalize_id("<open only"), "");
    assert_eq!(normalize_id(""), "");
}

#[test]
fn substring_search() {
    assert!(contains("Jane Doe <j@x>", "Jane Doe"));
    assert!(contains("abc", ""));
    assert!(!contains("ab", "abc"));
    assert!(!contains("Jane", "jane"));
}
