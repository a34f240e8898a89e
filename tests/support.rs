use lkml::config::{any_keyword_matches, Keyword};
use lkml::lei::{query_string, Interval, PullCfg, DEFAULT_INBOX};
use lkml::mbox::MboxSplitter;
use lkml::util::ReadCounter;

const MBOX: &str = "From mboxrd@z Thu Jan  1 00:00:00 1970
X-Some-Header: HeaderValue
From: Benno Lossin <b@l.org>
To: Trevor Gross <t@g.org>
Subject: Subject

Body1

From mboxrd@z Thu Jan  1 00:00:00 1970
From: Trevor Gross <t@g.org>
To: Benno Lossin <b@l.org>
Subject: Subject

Body2
This is mbox quoting, should turn into `From `:
> From hi

From mboxrd@z Thu Jan  1 00:00:00 1970
From: mail@email.org
To: List <list@mail.org>
Subject: Subject3

Body3
";

fn split(text: &str) -> Vec<String> {
    let mut s = MboxSplitter::new();
    let mut out = Vec::new();
    for line in text.split_inclusive('\n') {
        if let Some(m) = s.feed(line.as_bytes()) {
            out.push(String::from_utf8(m).unwrap());
        }
    }
    if let Some(m) = s.feed(b"") {
        out.push(String::from_utf8(m).unwrap());
    }
    out
}

#[test]
fn mbox_splits_messages() {
    let msgs = split(MBOX);
    assert_eq!(msgs.len(), 3);
    assert_eq!(
        msgs[0],
        "X-Some-Header: HeaderValue\nFrom: Benno Lossin <b@l.org>\nTo: Trevor Gross <t@g.org>\nSubject: Subject\n\nBody1\n"
    );
    assert_eq!(
        msgs[1],
        "From: Trevor Gross <t@g.org>\nTo: Benno Lossin <b@l.org>\nSubject: Subject\n\nBody2\nThis is mbox quoting, should turn into `From `:\nFrom hi\n"
    );
    assert_eq!(
        msgs[2],
        "From: mail@email.org\nTo: List <list@mail.org>\nSubject: Subject3\n\nBody3\n"
    );
}

#[test]
fn mbox_blank_message_is_empty() {
    let msgs = split("From a\n  \n\nFrom b\nx\n");
    assert_eq!(msgs, vec!["".to_string(), "x\n".to_string()]);
    assert!(split("").is_empty());
}

#[test]
fn query_restricted_to_interval() {
    assert_eq!(query_string(Interval::Day, "l:rust"), "(l:rust) AND rt:2.day.ago..");
    assert_eq!(query_string(Interval::Week, "a OR b"), "(a OR b) AND rt:2.week.ago..");
    assert_eq!(Interval::Month.since(), "3.month.ago");
    assert_eq!(Interval::Year.since(), "1.year.ago");
    let p = PullCfg::new(Interval::Day, "q");
    assert_eq!(p.inbox, DEFAULT_INBOX);
    assert!(p.threads);
    assert_eq!(p.query, "(q) AND rt:2.day.ago..");
}

#[test]
fn keywords_are_regular_expressions() {
    let k = Keyword::new("diff --git a/rust/.*\\.rs".to_string()).unwrap();
    assert!(k.matches("x\ndiff --git a/rust/kernel/lib.rs b/rust"));
    assert!(!k.matches("diff --git a/drivers/x.c"));
    assert!(Keyword::new("(".to_string()).is_err());
    let kws = vec![Keyword::new("^foo$".to_string()).unwrap(), k];
    assert!(any_keyword_matches(&kws, "foo"));
    assert!(!any_keyword_matches(&kws, "food"));
}

#[test]
fn read_counter_counts() {
    let mut c = ReadCounter::new(7u8);
    assert_eq!(c.count(), 0);
    c.add(10);
    c.add(5);
    assert_eq!(c.count(), 15);
    assert_eq!(*c.get_ref(), 7);
    c.add(usize::MAX);
    assert_eq!(c.count(), u64::MAX);
    assert_eq!(c.into_inner(), 7);
}
