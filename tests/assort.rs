use lkml::assort::{AssortError, Assorter};
use lkml::config::{Ignore, Keyword};
use lkml::folder::{Action, Dest, DropReason, Folder};
use lkml::mail::{parse, Mail, Type};

fn raw(id: &str, reply: Option<&str>, extra: &str, body: &str) -> Vec<u8> {
    let mut s = format!("Message-ID: <{id}>\r\n");
    if let Some(r) = reply {
        s.push_str(&format!("In-Reply-To: <{r}>\r\n"));
    }
    s.push_str(extra);
    s.push_str("Subject: test\r\n\r\n");
    s.push_str(body);
    s.into_bytes()
}

fn mail(typ: Type, bytes: Vec<u8>, path: &str) -> Mail {
    parse(bytes, path.to_string(), path.to_string(), typ, &Vec::new()).unwrap()
}

fn folder(name: &str, keywords: &[&str]) -> Folder {
    Folder {
        priority: 0,
        keywords: keywords
            .iter()
            .map(|k| Keyword::new(k.to_string()).unwrap())
            .collect(),
        flagging_keywords: None,
        name: name.to_string(),
        mark_read: false,
    }
}

fn assorter(mails: Vec<Mail>, folders: Vec<Folder>) -> Assorter {
    let rest = folders.len() - 1;
    Assorter {
        mails,
        folders,
        rest,
        flagging: Vec::new(),
        addresses: Vec::new(),
        deduplicate: Vec::new(),
        ignore: None,
    }
}

fn three_folders() -> Vec<Folder> {
    vec![
        folder("rust", &["rust/kernel"]),
        folder("drivers", &["drivers/"]),
        folder("INBOX", &[]),
    ]
}

fn dest(acts: &[Option<Action>], i: usize) -> Dest {
    acts[i].unwrap().dest()
}

#[test]
fn new_messages_get_one_action_each() {
    let mails = vec![
        mail(Type::Folder(1), raw("a@x", None, "", "drivers/ old"), "f0"),
        mail(Type::New, raw("b@x", None, "", "touches rust/kernel"), "n0"),
        mail(Type::New, raw("c@x", None, "", "nothing"), "n1"),
        mail(Type::New, raw("d@x", Some("a@x"), "", "reply"), "n2"),
    ];
    let a = assorter(mails, three_folders());
    let acts = a.plan().unwrap();
    assert!(acts[0].is_none());
    assert_eq!(dest(&acts, 1), Dest::Folder(0));
    assert_eq!(dest(&acts, 2), Dest::Folder(2));
    assert_eq!(dest(&acts, 3), Dest::Folder(1));
}

#[test]
fn replies_follow_new_parent() {
    let mails = vec![
        mail(Type::New, raw("p@x", None, "", "drivers/ patch"), "p"),
        mail(Type::New, raw("c1@x", Some("p@x"), "", "looks good"), "c1"),
        mail(Type::New, raw("c2@x", Some("p@x"), "", "acked"), "c2"),
    ];
    let acts = assorter(mails, three_folders()).plan().unwrap();
    assert_eq!(dest(&acts, 0), Dest::Folder(1));
    assert_eq!(dest(&acts, 1), Dest::Folder(1));
    assert_eq!(dest(&acts, 2), Dest::Folder(1));
}

#[test]
fn siblings_converge_to_most_preferred() {
    let mails = vec![
        mail(Type::New, raw("p@x", None, "", "drivers/ patch"), "p"),
        mail(Type::New, raw("c1@x", Some("p@x"), "", "plain reply"), "c1"),
        mail(Type::New, raw("c2@x", Some("p@x"), "", "see rust/kernel too"), "c2"),
    ];
    let acts = assorter(mails, three_folders()).plan().unwrap();
    assert_eq!(dest(&acts, 0), Dest::Folder(0));
    assert_eq!(dest(&acts, 1), Dest::Folder(0));
    assert_eq!(dest(&acts, 2), Dest::Folder(0));
}

#[test]
fn verbatim_copy_is_dropped() {
    let bytes = raw("a@x", None, "", "same text");
    let mails = vec![
        mail(Type::Folder(1), bytes.clone(), "f0"),
        mail(Type::New, bytes, "n0"),
    ];
    let acts = assorter(mails, three_folders()).plan().unwrap();
    assert!(acts[0].is_none());
    assert_eq!(dest(&acts, 1), Dest::Drop(DropReason::VerbatimCopy));
}

#[test]
fn same_body_is_dropped_as_copy() {
    let mails = vec![
        mail(Type::New, raw("a@x", None, "X-A: 1\r\n", "same text"), "n0"),
        mail(Type::New, raw("a@x", None, "X-B: 2\r\n", "same text"), "n1"),
    ];
    let acts = assorter(mails, three_folders()).plan().unwrap();
    assert_eq!(dest(&acts, 0), Dest::Folder(2));
    assert_eq!(dest(&acts, 1), Dest::Drop(DropReason::VerbatimCopy));
}

#[test]
fn duplicate_on_dedup_list_is_dropped() {
    let mails = vec![
        mail(Type::New, raw("a@x", None, "", "first text"), "n0"),
        mail(
            Type::New,
            raw("a@x", None, "List-Id: <riscv.lists>\r\n", "[footer] other text"),
            "n1",
        ),
    ];
    let mut a = assorter(mails, three_folders());
    a.deduplicate = vec!["<riscv.lists>".to_string()];
    let acts = a.plan().unwrap();
    assert_eq!(dest(&acts, 1), Dest::Drop(DropReason::DuplicateQuirk));
}

#[test]
fn unsettled_duplicate_is_reported() {
    let mails = vec![
        mail(Type::New, raw("a@x", None, "", "first text"), "n0"),
        mail(Type::New, raw("a@x", None, "", "other text"), "n1"),
        mail(Type::New, raw("b@x", None, "", "fine"), "n2"),
    ];
    let r = assorter(mails, three_folders()).plan();
    assert_eq!(r, Err(AssortError::Duplicates(vec![1])));
}

#[test]
fn filed_copies_in_two_folders_are_reported() {
    let bytes = raw("a@x", None, "", "text");
    let mails = vec![
        mail(Type::Folder(0), bytes.clone(), "f0"),
        mail(Type::Folder(1), bytes, "f1"),
    ];
    let r = assorter(mails, three_folders()).plan();
    assert_eq!(r, Err(AssortError::Duplicates(vec![1])));
}

fn ignoring(mails: Vec<Mail>) -> Assorter {
    let mut a = assorter(mails, three_folders());
    a.ignore = Some(Ignore {
        name: "Jane Doe".to_string(),
        lists: vec!["<qemu.lists>".to_string()],
    });
    a
}

#[test]
fn ignored_list_is_dropped() {
    let mails = vec![mail(
        Type::New,
        raw("a@x", None, "List-Id: <qemu.lists>\r\nTo: someone <s@x>\r\n", "text"),
        "n0",
    )];
    let acts = ignoring(mails).plan().unwrap();
    assert_eq!(dest(&acts, 0), Dest::Drop(DropReason::Ignored));
}

#[test]
fn mention_escapes_ignore() {
    let mails = vec![
        mail(
            Type::New,
            raw("a@x", None, "List-Id: <qemu.lists>\r\nCc: Jane Doe <j@x>\r\n", "text"),
            "n0",
        ),
        mail(
            Type::New,
            raw("b@x", None, "List-Id: <qemu.lists>\r\n", "rust/kernel change"),
            "n1",
        ),
    ];
    let acts = ignoring(mails).plan().unwrap();
    assert_eq!(dest(&acts, 0), Dest::Folder(2));
    assert_eq!(dest(&acts, 1), Dest::Folder(0));
}

#[test]
fn own_mail_is_read_not_flagged() {
    let mails = vec![mail(
        Type::New,
        raw("a@x", None, "From: Jane Doe <jane@example.org>\r\n", "URGENT rust/kernel"),
        "n0",
    )];
    let mut a = assorter(mails, three_folders());
    a.flagging = vec![Keyword::new("URGENT".to_string()).unwrap()];
    a.addresses = vec!["jane@example.org".to_string()];
    let acts = a.plan().unwrap();
    let act = acts[0].unwrap();
    assert_eq!(act.dest(), Dest::Folder(0));
    assert!(act.is_read());
    assert!(!act.is_flagged());
    assert_eq!(act.flags(), "S");
}

#[test]
fn keyword_flags_message() {
    let mails = vec![mail(Type::New, raw("a@x", None, "", "URGENT please"), "n0")];
    let mut a = assorter(mails, three_folders());
    a.flagging = vec![Keyword::new("URGENT".to_string()).unwrap()];
    let acts = a.plan().unwrap();
    assert!(acts[0].unwrap().is_flagged());
    assert_eq!(acts[0].unwrap().flags(), "F");
}

#[test]
fn folder_flagging_keywords_override_global() {
    let mails = vec![mail(Type::New, raw("a@x", None, "", "URGENT drivers/ fix"), "n0")];
    let mut folders = three_folders();
    folders[1].flagging_keywords = Some(vec![Keyword::new("never".to_string()).unwrap()]);
    folders[1].mark_read = true;
    let mut a = assorter(mails, folders);
    a.flagging = vec![Keyword::new("URGENT".to_string()).unwrap()];
    let acts = a.plan().unwrap();
    let act = acts[0].unwrap();
    assert_eq!(act.dest(), Dest::Folder(1));
    assert!(act.is_read());
    assert!(!act.is_flagged());
}

#[test]
fn reply_routed_away_from_filed_thread_is_reported() {
    let mails = vec![
        mail(Type::Folder(1), raw("p@x", None, "", "drivers/ patch"), "f0"),
        mail(Type::New, raw("c@x", Some("p@x"), "", "reply"), "n0"),
        mail(Type::New, raw("d@x", Some("c@x"), "", "rust/kernel moved"), "n1"),
        mail(Type::New, raw("e@x", Some("c@x"), "", "me too"), "n2"),
    ];
    let r = assorter(mails, three_folders()).plan();
    assert_eq!(r, Err(AssortError::Threads(vec![1])));
}

#[test]
fn long_new_chain_converges() {
    let k = 12;
    let mut mails = Vec::new();
    for i in 0..k {
        let id = format!("m{i}@x");
        let parent = if i == 0 { None } else { Some(format!("m{}@x", i - 1)) };
        let body = if i == k - 1 { "rust/kernel at the end" } else { "plain" };
        mails.push(mail(Type::New, raw(&id, parent.as_deref(), "", body), &id));
    }
    let acts = assorter(mails, three_folders()).plan().unwrap();
    assert_eq!(dest(&acts, k - 1), Dest::Folder(0));
    for i in 0..k {
        assert_eq!(dest(&acts, i), Dest::Folder(0));
    }
}

#[test]
fn reply_cycle_is_reported() {
    let mails = vec![
        mail(Type::New, raw("a@x", Some("b@x"), "", "one"), "n0"),
        mail(Type::New, raw("b@x", Some("a@x"), "", "two"), "n1"),
    ];
    let r = assorter(mails, three_folders()).plan();
    assert_eq!(r, Err(AssortError::Cycle(0)));
}

#[test]
fn compute_flags_on_drop_does_nothing() {
    let mails = vec![mail(Type::New, raw("a@x", None, "", "URGENT"), "n0")];
    let mut a = assorter(mails, three_folders());
    a.flagging = vec![Keyword::new("URGENT".to_string()).unwrap()];
    let mut act = Action::delete(DropReason::Ignored);
    a.compute_flags(0, &mut act);
    assert!(!act.is_flagged());
    let mut act = Action::folder(2);
    a.compute_flags(0, &mut act);
    assert!(act.is_flagged());
}

#[test]
fn chain_settles_within_its_length() {
    let k = 8;
    let mut mails = Vec::new();
    let mut actions = Vec::new();
    for i in 0..k {
        let id = format!("m{i}@x");
        let parent = if i == 0 { None } else { Some(format!("m{}@x", i - 1)) };
        mails.push(mail(Type::New, raw(&id, parent.as_deref(), "", "plain"), &id));
        actions.push(Some(Action::folder(if i == k - 1 { 0 } else { 2 })));
    }
    let a = assorter(mails, three_folders());
    let passes = a.settle_threads(&mut actions);
    assert!(passes <= k);
    for i in 0..k {
        assert_eq!(dest(&actions, i), Dest::Folder(0));
    }
    assert_eq!(a.settle_threads(&mut actions), 1);
}
