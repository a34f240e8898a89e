use lkml::collect::{arrange_mails, assemble_folders, sort_folders};
use lkml::config::{Folder as FolderConfig, Keyword};
use lkml::mail::{parse, Mail, Type};

fn cfg(name: &str, priority: usize) -> FolderConfig {
    FolderConfig {
        name: name.to_string(),
        keywords: vec![Keyword::new(name.to_string()).unwrap()],
        priority,
        mark_read: false,
        flagging_keywords: None,
    }
}

#[test]
fn folders_sorted_by_priority_stably() {
    let sorted = sort_folders(vec![cfg("a", 1), cfg("b", 5), cfg("c", 1), cfg("d", 7)]);
    let names: Vec<&str> = sorted.iter().map(|f| f.name.as_str()).collect();
    assert_eq!(names, vec!["d", "b", "a", "c"]);
}

#[test]
fn catch_all_appended_when_missing() {
    let (folders, rest) = assemble_folders(vec![cfg("a", 1), cfg("b", 5)]);
    assert_eq!(folders.len(), 3);
    assert_eq!(rest, 2);
    assert_eq!(folders[rest].name, "INBOX");
    assert_eq!(folders[rest].priority, usize::MAX);
    assert_eq!(folders[0].name, "b");
    assert_eq!(folders[0].keywords[0].as_str(), "b");
}

#[test]
fn configured_catch_all_is_used() {
    let (folders, rest) = assemble_folders(vec![cfg("a", 1), cfg("INBOX", 3), cfg("b", 5)]);
    assert_eq!(folders.len(), 3);
    assert_eq!(rest, 1);
    assert_eq!(folders[rest].name, "INBOX");
}

fn mail(typ: Type, id: &str, list: Option<&str>) -> Mail {
    let mut s = format!("Message-ID: <{id}>\r\n");
    if let Some(l) = list {
        s.push_str(&format!("List-Id: {l}\r\n"));
    }
    s.push_str("\r\nbody");
    parse(s.into_bytes(), id.to_string(), id.to_string(), typ, &Vec::new()).unwrap()
}

#[test]
fn dedup_list_mails_come_last() {
    let filed = vec![mail(Type::Folder(0), "f", None)];
    let new = vec![
        mail(Type::New, "a", Some("<dup.list>")),
        mail(Type::New, "b", None),
        mail(Type::New, "c", Some("<other.list>")),
        mail(Type::New, "d", Some("<dup.list>")),
    ];
    let all = arrange_mails(filed, new, &vec!["<dup.list>".to_string()]);
    let paths: Vec<&str> = all.iter().map(|m| m.path.as_str()).collect();
    assert_eq!(paths, vec!["f", "b", "c", "a", "d"]);
}
