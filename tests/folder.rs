use lkml::folder::{file_name, Action, Dest, DestConvertError, DropReason};
use lkml::mail::Type;

#[test]
fn flags_strings() {
    let mut a = Action::folder(3);
    assert_eq!(a.flags(), "");
    a.read();
    assert_eq!(a.flags(), "S");
    a.flag();
    assert_eq!(a.flags(), "F");
    assert!(!a.is_read());
    a.read();
    assert!(!a.is_flagged());
    let both = Action { mark_read: true, mark_flagged: true, dest: Dest::Folder(0) };
    assert_eq!(both.flags(), "FS");
    let none = Action { mark_read: false, mark_flagged: false, dest: Dest::Folder(0) };
    assert_eq!(none.flags(), "");
}

#[test]
fn max_prio_prefers_smaller_index() {
    assert_eq!(Dest::max_prio(Dest::Folder(3), Dest::Folder(1)), Some(Dest::Folder(1)));
    assert_eq!(Dest::max_prio(Dest::Folder(0), Dest::Folder(2)), Some(Dest::Folder(0)));
    assert_eq!(
        Dest::max_prio(Dest::Drop(DropReason::Ignored), Dest::Folder(2)),
        None
    );
    assert_eq!(
        Dest::max_prio(Dest::Folder(2), Dest::Drop(DropReason::VerbatimCopy)),
        None
    );
}

#[test]
fn cleared_flags_keep_destination() {
    let mut a = Action::folder(4);
    a.flag();
    let c = a.with_cleared_flags();
    assert_eq!(c.dest(), Dest::Folder(4));
    assert_eq!(c.flags(), "");
    assert_eq!(c.folder_idx(), Some(4));
    assert_eq!(Action::delete(DropReason::DuplicateQuirk).folder_idx(), None);
    let mut d = Action::folder(1);
    d.set_dest(Dest::Folder(0));
    assert_eq!(d.dest(), Dest::Folder(0));
}

#[test]
fn type_and_dest_conversions() {
    assert_eq!(Dest::try_from_type(Type::Folder(2)), Ok(Dest::Folder(2)));
    assert_eq!(Dest::try_from_type(Type::New), Err(DestConvertError));
    assert_eq!(Dest::Folder(5).as_type(), Some(Type::Folder(5)));
    assert_eq!(Dest::Drop(DropReason::Ignored).as_type(), None);
}

#[test]
fn committed_file_name() {
    let mut a = Action::folder(0);
    a.flag();
    assert_eq!(file_name("1700000000.00001.mbox", ":", &a), "1700000000.00001.mbox:2,F");
    let b = Action::folder(0);
    assert_eq!(file_name("x", ";", &b), "x;2,");
}
