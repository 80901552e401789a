use really_notify::builder::{dir_mask, link_mask, DIR_EVENTS, LINK_EVENTS};
use really_notify::event::{BUFFER_LEN, HEADER_LEN, NAME_MAX};
use really_notify::mask::INotifyMask;

#[test]
fn flags_match_the_kernel_abi() {
    assert_eq!(INotifyMask::access().bits(), libc::IN_ACCESS);
    assert_eq!(INotifyMask::attribute_changed().bits(), libc::IN_ATTRIB);
    assert_eq!(INotifyMask::close_write().bits(), libc::IN_CLOSE_WRITE);
    assert_eq!(INotifyMask::close_write().bits(), 0x8);
    assert_eq!(INotifyMask::close_no_write().bits(), libc::IN_CLOSE_NOWRITE);
    assert_eq!(INotifyMask::create().bits(), libc::IN_CREATE);
    assert_eq!(INotifyMask::delete().bits(), libc::IN_DELETE);
    assert_eq!(INotifyMask::delete_self().bits(), libc::IN_DELETE_SELF);
    assert_eq!(INotifyMask::modify().bits(), libc::IN_MODIFY);
    assert_eq!(INotifyMask::move_self().bits(), libc::IN_MOVE_SELF);
    assert_eq!(INotifyMask::moved_from().bits(), libc::IN_MOVED_FROM);
    assert_eq!(INotifyMask::moved_to().bits(), libc::IN_MOVED_TO);
    assert_eq!(INotifyMask::open().bits(), libc::IN_OPEN);
    assert_eq!(INotifyMask::dont_follow().bits(), libc::IN_DONT_FOLLOW);
    assert_eq!(INotifyMask::excl_unlink().bits(), libc::IN_EXCL_UNLINK);
    assert_eq!(INotifyMask::mask_add().bits(), libc::IN_MASK_ADD);
    assert_eq!(INotifyMask::oneshot().bits(), libc::IN_ONESHOT);
    assert_eq!(INotifyMask::only_dir().bits(), libc::IN_ONLYDIR);
    assert_eq!(INotifyMask::mask_create().bits(), libc::IN_MASK_CREATE);
    assert_eq!(INotifyMask::ignored().bits(), libc::IN_IGNORED);
    assert_eq!(INotifyMask::is_dir().bits(), libc::IN_ISDIR);
    assert_eq!(INotifyMask::queue_overflow().bits(), libc::IN_Q_OVERFLOW);
    assert_eq!(INotifyMask::unmount().bits(), libc::IN_UNMOUNT);
}

#[test]
fn all_flags_is_the_union_of_the_flags() {
    let union = libc::IN_ALL_EVENTS
        | libc::IN_DONT_FOLLOW
        | libc::IN_EXCL_UNLINK
        | libc::IN_MASK_ADD
        | libc::IN_ONESHOT
        | libc::IN_ONLYDIR
        | libc::IN_MASK_CREATE
        | libc::IN_IGNORED
        | libc::IN_ISDIR
        | libc::IN_Q_OVERFLOW
        | libc::IN_UNMOUNT;
    assert_eq!(INotifyMask::all_flags().bits(), union);
    assert!(INotifyMask::all_flags().is_all_flags());
    assert!(!INotifyMask::all_flags().is_all_bits());
    assert!(INotifyMask::all_bits().is_all_bits());
    assert_eq!(INotifyMask::all_bits().truncate(), INotifyMask::all_flags());
}

#[test]
fn set_operations() {
    let a = INotifyMask::modify() | INotifyMask::delete();
    assert_eq!(a.bits(), 0x202);
    assert!(a.contains(INotifyMask::modify()));
    assert!(!a.contains(INotifyMask::create()));
    assert!(a.intersects(INotifyMask::delete() | INotifyMask::create()));
    assert!(!a.intersects(INotifyMask::create()));
    assert!(a.intersects(INotifyMask::none()));
    assert_eq!((a & INotifyMask::modify()).bits(), 0x2);
    assert_eq!((a ^ INotifyMask::modify()).bits(), 0x200);
    assert_eq!((!INotifyMask::none()).bits(), 0xffff_ffff);
    assert_eq!(a.and(INotifyMask::delete()), INotifyMask::delete());
    assert_eq!(a.or(INotifyMask::create()).bits(), 0x302);
    assert_eq!(a.xor(a), INotifyMask::none());
    assert_eq!(a.not().bits(), !0x202u32);
    assert!(INotifyMask::none().is_none());
    assert_eq!(INotifyMask::from_bits(7).bits(), 7);
    assert_eq!(INotifyMask::from(7u32), INotifyMask::from_bits(7));
    assert_eq!(u32::from(INotifyMask::from_bits(9)), 9);
}

#[test]
fn watch_masks_are_made_of_the_documented_flags() {
    assert_eq!(
        LINK_EVENTS,
        libc::IN_CLOSE_WRITE | libc::IN_DELETE_SELF | libc::IN_MODIFY | libc::IN_MOVE_SELF | libc::IN_DONT_FOLLOW
    );
    assert_eq!(
        DIR_EVENTS,
        libc::IN_DELETE
            | libc::IN_DELETE_SELF
            | libc::IN_MODIFY
            | libc::IN_MOVE_SELF
            | libc::IN_MOVED_FROM
            | libc::IN_MOVED_TO
            | libc::IN_DONT_FOLLOW
    );
    assert_eq!(link_mask().bits(), LINK_EVENTS);
    assert_eq!(dir_mask().bits(), DIR_EVENTS);
    assert!(link_mask().contains(INotifyMask::dont_follow()));
    assert!(dir_mask().contains(INotifyMask::dont_follow()));
}

#[test]
fn record_layout_matches_libc() {
    assert_eq!(HEADER_LEN, std::mem::size_of::<libc::inotify_event>());
    assert_eq!(NAME_MAX as i32, libc::NAME_MAX);
    assert_eq!(BUFFER_LEN, HEADER_LEN + NAME_MAX + 1);
}
