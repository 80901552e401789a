//! The inotify event mask: a set of flags over a `u32`, bit for bit as the
//! kernel defines them.

use vstd::prelude::*;
use vstd::std_specs::convert::FromSpecImpl;
use vstd::std_specs::ops::{BitAndSpecImpl, BitOrSpecImpl, BitXorSpecImpl, NotSpecImpl};

verus! {

pub const IN_ACCESS: u32 = 0x0000_0001;
pub const IN_MODIFY: u32 = 0x0000_0002;
pub const IN_ATTRIB: u32 = 0x0000_0004;
pub const IN_CLOSE_WRITE: u32 = 0x0000_0008;
pub const IN_CLOSE_NOWRITE: u32 = 0x0000_0010;
pub const IN_OPEN: u32 = 0x0000_0020;
pub const IN_MOVED_FROM: u32 = 0x0000_0040;
pub const IN_MOVED_TO: u32 = 0x0000_0080;
pub const IN_CREATE: u32 = 0x0000_0100;
pub const IN_DELETE: u32 = 0x0000_0200;
pub const IN_DELETE_SELF: u32 = 0x0000_0400;
pub const IN_MOVE_SELF: u32 = 0x0000_0800;
pub const IN_UNMOUNT: u32 = 0x0000_2000;
pub const IN_Q_OVERFLOW: u32 = 0x0000_4000;
pub const IN_IGNORED: u32 = 0x0000_8000;
pub const IN_ONLYDIR: u32 = 0x0100_0000;
pub const IN_DONT_FOLLOW: u32 = 0x0200_0000;
pub const IN_EXCL_UNLINK: u32 = 0x0400_0000;
pub const IN_MASK_CREATE: u32 = 0x1000_0000;
pub const IN_MASK_ADD: u32 = 0x2000_0000;
pub const IN_ISDIR: u32 = 0x4000_0000;
pub const IN_ONESHOT: u32 = 0x8000_0000;

/// Every bit that names a flag.
pub const IN_ALL_FLAGS: u32 = 0xf700_efff;

/// A set of inotify flags.
#[derive(Clone, Copy, PartialEq, Eq, Structural, PartialOrd, Ord, Hash, Debug)]
pub struct INotifyMask {
    pub bits: u32,
}

impl INotifyMask {
    /// `IN_ACCESS`: a file was read.
    pub fn access() -> (r: INotifyMask)
        ensures
            r.bits == IN_ACCESS,
    {
        INotifyMask { bits: IN_ACCESS }
    }

    /// `IN_ATTRIB`: metadata changed.
    pub fn attribute_changed() -> (r: INotifyMask)
        ensures
            r.bits == IN_ATTRIB,
    {
        INotifyMask { bits: IN_ATTRIB }
    }

    /// `IN_CLOSE_WRITE`: a file opened for writing was closed.
    pub fn close_write() -> (r: INotifyMask)
        ensures
            r.bits == IN_CLOSE_WRITE,
    {
        INotifyMask { bits: IN_CLOSE_WRITE }
    }

    /// `IN_CLOSE_NOWRITE`: a file not opened for writing was closed.
    pub fn close_no_write() -> (r: INotifyMask)
        ensures
            r.bits == IN_CLOSE_NOWRITE,
    {
        INotifyMask { bits: IN_CLOSE_NOWRITE }
    }

    /// `IN_CREATE`: an entry was created in a watched directory.
    pub fn create() -> (r: INotifyMask)
        ensures
            r.bits == IN_CREATE,
    {
        INotifyMask { bits: IN_CREATE }
    }

    /// `IN_DELETE`: an entry was deleted from a watched directory.
    pub fn delete() -> (r: INotifyMask)
        ensures
            r.bits == IN_DELETE,
    {
        INotifyMask { bits: IN_DELETE }
    }

    /// `IN_DELETE_SELF`: the watched object itself was deleted.
    pub fn delete_self() -> (r: INotifyMask)
        ensures
            r.bits == IN_DELETE_SELF,
    {
        INotifyMask { bits: IN_DELETE_SELF }
    }

    /// `IN_MODIFY`: a file was written.
    pub fn modify() -> (r: INotifyMask)
        ensures
            r.bits == IN_MODIFY,
    {
        INotifyMask { bits: IN_MODIFY }
    }

    /// `IN_MOVE_SELF`: the watched object itself was moved.
    pub fn move_self() -> (r: INotifyMask)
        ensures
            r.bits == IN_MOVE_SELF,
    {
        INotifyMask { bits: IN_MOVE_SELF }
    }

    /// `IN_MOVED_FROM`: an entry was renamed out of a watched directory.
    pub fn moved_from() -> (r: INotifyMask)
        ensures
            r.bits == IN_MOVED_FROM,
    {
        INotifyMask { bits: IN_MOVED_FROM }
    }

    /// `IN_MOVED_TO`: an entry was renamed into a watched directory.
    pub fn moved_to() -> (r: INotifyMask)
        ensures
            r.bits == IN_MOVED_TO,
    {
        INotifyMask { bits: IN_MOVED_TO }
    }

    /// `IN_OPEN`: a file was opened.
    pub fn open() -> (r: INotifyMask)
        ensures
            r.bits == IN_OPEN,
    {
        INotifyMask { bits: IN_OPEN }
    }

    /// `IN_DONT_FOLLOW`: when adding a watch: do not follow a symlink.
    pub fn dont_follow() -> (r: INotifyMask)
        ensures
            r.bits == IN_DONT_FOLLOW,
    {
        INotifyMask { bits: IN_DONT_FOLLOW }
    }

    /// `IN_EXCL_UNLINK`: when adding a watch: no events for unlinked children.
    pub fn excl_unlink() -> (r: INotifyMask)
        ensures
            r.bits == IN_EXCL_UNLINK,
    {
        INotifyMask { bits: IN_EXCL_UNLINK }
    }

    /// `IN_MASK_ADD`: when adding a watch: add to an existing mask.
    pub fn mask_add() -> (r: INotifyMask)
        ensures
            r.bits == IN_MASK_ADD,
    {
        INotifyMask { bits: IN_MASK_ADD }
    }

    /// `IN_ONESHOT`: when adding a watch: report one event only.
    pub fn oneshot() -> (r: INotifyMask)
        ensures
            r.bits == IN_ONESHOT,
    {
        INotifyMask { bits: IN_ONESHOT }
    }

    /// `IN_ONLYDIR`: when adding a watch: only if the path is a directory.
    pub fn only_dir() -> (r: INotifyMask)
        ensures
            r.bits == IN_ONLYDIR,
    {
        INotifyMask { bits: IN_ONLYDIR }
    }

    /// `IN_MASK_CREATE`: when adding a watch: only if none exists yet.
    pub fn mask_create() -> (r: INotifyMask)
        ensures
            r.bits == IN_MASK_CREATE,
    {
        INotifyMask { bits: IN_MASK_CREATE }
    }

    /// `IN_IGNORED`: in an event: the watch was removed.
    pub fn ignored() -> (r: INotifyMask)
        ensures
            r.bits == IN_IGNORED,
    {
        INotifyMask { bits: IN_IGNORED }
    }

    /// `IN_ISDIR`: in an event: the subject is a directory.
    pub fn is_dir() -> (r: INotifyMask)
        ensures
            r.bits == IN_ISDIR,
    {
        INotifyMask { bits: IN_ISDIR }
    }

    /// `IN_Q_OVERFLOW`: in an event: the event queue overflowed.
    pub fn queue_overflow() -> (r: INotifyMask)
        ensures
            r.bits == IN_Q_OVERFLOW,
    {
        INotifyMask { bits: IN_Q_OVERFLOW }
    }

    /// `IN_UNMOUNT`: in an event: the file system was unmounted.
    pub fn unmount() -> (r: INotifyMask)
        ensures
            r.bits == IN_UNMOUNT,
    {
        INotifyMask { bits: IN_UNMOUNT }
    }

    /// The mask with exactly the given bits.
    pub fn from_bits(bits: u32) -> (r: INotifyMask)
        ensures
            r.bits == bits,
    {
        INotifyMask { bits }
    }

    /// The underlying bits.
    pub fn bits(&self) -> (r: u32)
        ensures
            r == self.bits,
    {
        self.bits
    }

    /// The mask with every bit set, named or not.
    pub fn all_bits() -> (r: INotifyMask)
        ensures
            r.bits == 0xffff_ffffu32,
    {
        INotifyMask { bits: 0xffff_ffff }
    }

    /// The mask with every named flag set.
    pub fn all_flags() -> (r: INotifyMask)
        ensures
            r.bits == IN_ALL_FLAGS,
    {
        INotifyMask { bits: IN_ALL_FLAGS }
    }

    /// Whether every bit is set.
    pub fn is_all_bits(&self) -> (r: bool)
        ensures
            r == (self.bits == 0xffff_ffffu32),
    {
        self.bits == 0xffff_ffff
    }

    /// Whether the mask is exactly the named flags.
    pub fn is_all_flags(&self) -> (r: bool)
        ensures
            r == (self.bits == IN_ALL_FLAGS),
    {
        self.bits == IN_ALL_FLAGS
    }

    /// The empty mask.
    pub fn none() -> (r: INotifyMask)
        ensures
            r.bits == 0u32,
    {
        INotifyMask { bits: 0 }
    }

    /// Whether no bit is set.
    pub fn is_none(&self) -> (r: bool)
        ensures
            r == (self.bits == 0u32),
    {
        self.bits == 0
    }

    /// The mask without the bits that name no flag.
    pub fn truncate(&self) -> (r: INotifyMask)
        ensures
            r.bits == self.bits & IN_ALL_FLAGS,
    {
        INotifyMask { bits: self.bits & IN_ALL_FLAGS }
    }

    /// Whether the two masks share a bit, or `other` is empty.
    pub fn intersects(&self, other: INotifyMask) -> (r: bool)
        ensures
            r == ((self.bits & other.bits) != 0u32 || other.bits == 0u32),
    {
        (self.bits & other.bits) != 0 || other.bits == 0
    }

    /// Whether every bit of `other` is set in `self`.
    pub fn contains(&self, other: INotifyMask) -> (r: bool)
        ensures
            r == ((self.bits & other.bits) == other.bits),
    {
        (self.bits & other.bits) == other.bits
    }

    /// The complement.
    pub fn not(self) -> (r: INotifyMask)
        ensures
            r.bits == !self.bits,
    {
        INotifyMask { bits: !self.bits }
    }

    /// The intersection.
    pub fn and(self, other: INotifyMask) -> (r: INotifyMask)
        ensures
            r.bits == self.bits & other.bits,
    {
        INotifyMask { bits: self.bits & other.bits }
    }

    /// The union.
    pub fn or(self, other: INotifyMask) -> (r: INotifyMask)
        ensures
            r.bits == self.bits | other.bits,
    {
        INotifyMask { bits: self.bits | other.bits }
    }

    /// The symmetric difference.
    pub fn xor(self, other: INotifyMask) -> (r: INotifyMask)
        ensures
            r.bits == self.bits ^ other.bits,
    {
        INotifyMask { bits: self.bits ^ other.bits }
    }
}

impl core::ops::BitOr for INotifyMask {
    type Output = INotifyMask;

    fn bitor(self, rhs: INotifyMask) -> (r: INotifyMask) {
        INotifyMask { bits: self.bits | rhs.bits }
    }
}

impl BitOrSpecImpl for INotifyMask {
    open spec fn obeys_bitor_spec() -> bool {
        true
    }

    open spec fn bitor_req(self, rhs: INotifyMask) -> bool {
        true
    }

    open spec fn bitor_spec(self, rhs: INotifyMask) -> INotifyMask {
        INotifyMask { bits: self.bits | rhs.bits }
    }
}

impl core::ops::BitAnd for INotifyMask {
    type Output = INotifyMask;

    fn bitand(self, rhs: INotifyMask) -> (r: INotifyMask) {
        INotifyMask { bits: self.bits & rhs.bits }
    }
}

impl BitAndSpecImpl for INotifyMask {
    open spec fn obeys_bitand_spec() -> bool {
        true
    }

    open spec fn bitand_req(self, rhs: INotifyMask) -> bool {
        true
    }

    open spec fn bitand_spec(self, rhs: INotifyMask) -> INotifyMask {
        INotifyMask { bits: self.bits & rhs.bits }
    }
}

impl core::ops::BitXor for INotifyMask {
    type Output = INotifyMask;

    fn bitxor(self, rhs: INotifyMask) -> (r: INotifyMask) {
        INotifyMask { bits: self.bits ^ rhs.bits }
    }
}

impl BitXorSpecImpl for INotifyMask {
    open spec fn obeys_bitxor_spec() -> bool {
        true
    }

    open spec fn bitxor_req(self, rhs: INotifyMask) -> bool {
        true
    }

    open spec fn bitxor_spec(self, rhs: INotifyMask) -> INotifyMask {
        INotifyMask { bits: self.bits ^ rhs.bits }
    }
}

impl core::ops::Not for INotifyMask {
    type Output = INotifyMask;

    fn not(self) -> (r: INotifyMask) {
        INotifyMask { bits: !self.bits }
    }
}

impl NotSpecImpl for INotifyMask {
    open spec fn obeys_not_spec() -> bool {
        true
    }

    open spec fn not_req(self) -> bool {
        true
    }

    open spec fn not_spec(self) -> INotifyMask {
        INotifyMask { bits: !self.bits }
    }
}

impl From<u32> for INotifyMask {
    fn from(bits: u32) -> (r: INotifyMask) {
        INotifyMask { bits }
    }
}

impl FromSpecImpl<u32> for INotifyMask {
    open spec fn obeys_from_spec() -> bool {
        true
    }

    open spec fn from_spec(bits: u32) -> INotifyMask {
        INotifyMask { bits }
    }
}

impl From<INotifyMask> for u32 {
    fn from(mask: INotifyMask) -> (r: u32) {
        mask.bits
    }
}

impl FromSpecImpl<INotifyMask> for u32 {
    open spec fn obeys_from_spec() -> bool {
        true
    }

    open spec fn from_spec(mask: INotifyMask) -> u32 {
        mask.bits
    }
}

/// The named flags are pairwise disjoint bits, and together they are
/// `IN_ALL_FLAGS`.
pub proof fn lemma_all_flags()
    ensures
        IN_ALL_FLAGS == IN_ACCESS | IN_MODIFY | IN_ATTRIB | IN_CLOSE_WRITE | IN_CLOSE_NOWRITE
            | IN_OPEN | IN_MOVED_FROM | IN_MOVED_TO | IN_CREATE | IN_DELETE | IN_DELETE_SELF
            | IN_MOVE_SELF | IN_UNMOUNT | IN_Q_OVERFLOW | IN_IGNORED | IN_ONLYDIR | IN_DONT_FOLLOW
            | IN_EXCL_UNLINK | IN_MASK_CREATE | IN_MASK_ADD | IN_ISDIR | IN_ONESHOT,
        IN_ALL_FLAGS == IN_ACCESS + IN_MODIFY + IN_ATTRIB + IN_CLOSE_WRITE + IN_CLOSE_NOWRITE
            + IN_OPEN + IN_MOVED_FROM + IN_MOVED_TO + IN_CREATE + IN_DELETE + IN_DELETE_SELF
            + IN_MOVE_SELF + IN_UNMOUNT + IN_Q_OVERFLOW + IN_IGNORED + IN_ONLYDIR + IN_DONT_FOLLOW
            + IN_EXCL_UNLINK + IN_MASK_CREATE + IN_MASK_ADD + IN_ISDIR + IN_ONESHOT,
{
    assert(0xf700_efffu32 == 0x0000_0001u32 | 0x0000_0002u32 | 0x0000_0004u32 | 0x0000_0008u32
        | 0x0000_0010u32 | 0x0000_0020u32 | 0x0000_0040u32 | 0x0000_0080u32 | 0x0000_0100u32
        | 0x0000_0200u32 | 0x0000_0400u32 | 0x0000_0800u32 | 0x0000_2000u32 | 0x0000_4000u32
        | 0x0000_8000u32 | 0x0100_0000u32 | 0x0200_0000u32 | 0x0400_0000u32 | 0x1000_0000u32
        | 0x2000_0000u32 | 0x4000_0000u32 | 0x8000_0000u32) by (bit_vector);
}

} // verus!
