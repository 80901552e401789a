//! The watches that cover one target, and what an event on one of them means.

use crate::event::{INotifyEvent, WatchHandle};
use crate::mask::{INotifyMask, IN_Q_OVERFLOW, IN_UNMOUNT};
use crate::path::{views, NormalPath};
use std::collections::{HashMap, HashSet};
use vstd::prelude::*;

verus! {

broadcast use vstd::std_specs::hash::group_hash_axioms;

/// What a watch is there for.
#[derive(Debug)]
pub enum WatchRole {
    /// The file itself.
    MainFile,
    /// A symlink on the way: one that leads from the target towards the file,
    /// or one that stands for a directory above a path of that chain.
    SymlinkHop,
    /// A directory on the way, with the one entry of it that matters.
    AncestorDir(Vec<u8>),
}

/// What to do about an event.
#[derive(Debug, Clone, Copy, PartialEq, Eq, Structural)]
pub enum EventClass {
    /// The event is about some other entry of a watched directory.
    Ignore,
    /// The file changed in place: read it again, the watches still hold.
    NotifyAndContinue,
    /// A link or a directory entry on the way changed: read the file again
    /// and install the watches anew.
    NotifyAndRefresh,
}

/// One watch that the kernel installed.
#[derive(Debug)]
pub struct InstalledWatch {
    /// The kernel's name for it.
    pub handle: WatchHandle,
    /// The path that was handed to the kernel.
    pub path: NormalPath,
    /// The events that were asked for.
    pub mask: INotifyMask,
    /// Where the path was watched as a directory on the way: the entry that
    /// was looked out for below it.
    pub child: Option<Vec<u8>>,
    /// Where the path was found to be a symlink in the place of such a
    /// directory: the directory that it led to.
    pub target: Option<NormalPath>,
}

/// An installed watch as a mathematical value.
pub struct WatchView {
    pub handle: WatchHandle,
    pub path: Seq<Seq<u8>>,
    pub mask: INotifyMask,
    pub child: Option<Seq<u8>>,
    pub target: Option<Seq<Seq<u8>>>,
}

impl View for InstalledWatch {
    type V = WatchView;

    open spec fn view(&self) -> WatchView {
        WatchView {
            handle: self.handle,
            path: self.path@,
            mask: self.mask,
            child: match self.child {
                Some(child) => Some(child@),
                None => None,
            },
            target: match self.target {
                Some(target) => Some(target@),
                None => None,
            },
        }
    }
}

/// A plan as a mathematical value.
pub struct PlanView {
    /// Every watch that was installed, in the order of installation.
    pub watches: Seq<WatchView>,
    /// For each watched directory, the entry of it that matters.
    pub children: Map<WatchHandle, Seq<u8>>,
    /// The watches on the symlinks on the way.
    pub symlinks: Set<WatchHandle>,
    /// The target, then what each symlink in turn led to.
    pub hops: Seq<Seq<Seq<u8>>>,
}

/// The plan that holds nothing yet.
pub open spec fn empty_plan() -> PlanView {
    PlanView {
        watches: Seq::empty(),
        children: Map::empty(),
        symlinks: Set::empty(),
        hops: Seq::empty(),
    }
}

/// Whether the kernel says that events were lost or the file system went
/// away: then nothing is known of the watches any more.
pub open spec fn plan_suspect(mask: INotifyMask) -> bool {
    mask.bits & (IN_Q_OVERFLOW | IN_UNMOUNT) != 0
}

/// What an event on `handle` with `mask` and `name` means under `plan`.
///
/// A loss reported by the kernel always asks for new watches. An event on a
/// watched directory counts only if it names the entry that matters there,
/// and then asks for new watches too, as does any event on a symlink on the
/// way. Any other event is about the file itself.
pub open spec fn classification(
    plan: PlanView,
    handle: WatchHandle,
    mask: INotifyMask,
    name: Seq<u8>,
) -> EventClass {
    if plan_suspect(mask) {
        EventClass::NotifyAndRefresh
    } else if plan.children.contains_key(handle) {
        if name == plan.children[handle] {
            EventClass::NotifyAndRefresh
        } else {
            EventClass::Ignore
        }
    } else if plan.symlinks.contains(handle) {
        EventClass::NotifyAndRefresh
    } else {
        EventClass::NotifyAndContinue
    }
}

/// The watches installed for one target.
#[derive(Debug)]
pub struct WatchPlan {
    watches: Vec<InstalledWatch>,
    children: HashMap<i32, Vec<u8>>,
    symlinks: HashSet<i32>,
    hops: Vec<NormalPath>,
}

impl View for WatchPlan {
    type V = PlanView;

    closed spec fn view(&self) -> PlanView {
        PlanView {
            watches: views(self.watches@),
            children: Map::new(
                |h: WatchHandle| self.children@.contains_key(h.0),
                |h: WatchHandle| self.children@[h.0]@,
            ),
            symlinks: Set::new(|h: WatchHandle| self.symlinks@.contains(h.0)),
            hops: views(self.hops@),
        }
    }
}

impl WatchPlan {
    /// The plan that holds nothing yet.
    pub fn new() -> (plan: WatchPlan)
        ensures
            plan@ == empty_plan(),
    {
        let plan = WatchPlan {
            watches: Vec::new(),
            children: HashMap::new(),
            symlinks: HashSet::new(),
            hops: Vec::new(),
        };
        assert(plan@.watches =~= Seq::empty());
        assert(plan@.children =~= Map::empty());
        assert(plan@.symlinks =~= Set::empty());
        assert(plan@.hops =~= Seq::empty());
        plan
    }

    /// Records a watch that the kernel installed.
    pub fn record_watch(&mut self, watch: InstalledWatch)
        ensures
            final(self)@ == (PlanView { watches: old(self)@.watches.push(watch@), ..old(self)@ }),
    {
        self.watches.push(watch);
        assert(self@.watches =~= old(self)@.watches.push(watch@));
    }

    /// Records that the watch stands on a symlink on the way.
    pub fn record_symlink(&mut self, handle: WatchHandle)
        ensures
            final(self)@ == (PlanView { symlinks: old(self)@.symlinks.insert(handle), ..old(self)@ }),
    {
        self.symlinks.insert(handle.0);
        assert(self@.symlinks =~= old(self)@.symlinks.insert(handle));
    }

    /// Records that the watch stands on a directory in which `child` is the
    /// entry that matters. A later record for the same handle replaces an
    /// earlier one.
    pub fn record_child(&mut self, handle: WatchHandle, child: Vec<u8>)
        ensures
            final(self)@ == (PlanView {
                children: old(self)@.children.insert(handle, child@),
                ..old(self)@
            }),
    {
        self.children.insert(handle.0, child);
        assert(self@.children =~= old(self)@.children.insert(handle, child@));
    }

    /// Records the next path of the chain.
    pub fn record_hop(&mut self, path: NormalPath)
        ensures
            final(self)@ == (PlanView { hops: old(self)@.hops.push(path@), ..old(self)@ }),
    {
        self.hops.push(path);
        assert(self@.hops =~= old(self)@.hops.push(path@));
    }

    /// Every watch that was installed, in the order of installation.
    pub fn watches(&self) -> (r: &Vec<InstalledWatch>)
        ensures
            views(r@) == self@.watches,
    {
        &self.watches
    }

    /// What the watch under `handle` is there for.
    pub fn role(&self, handle: WatchHandle) -> (r: WatchRole)
        ensures
            match r {
                WatchRole::AncestorDir(child) => self@.children.contains_key(handle) && child@
                    == self@.children[handle],
                WatchRole::SymlinkHop => !self@.children.contains_key(handle)
                    && self@.symlinks.contains(handle),
                WatchRole::MainFile => !self@.children.contains_key(handle)
                    && !self@.symlinks.contains(handle),
            },
    {
        match self.expected_child(handle) {
            Some(child) => WatchRole::AncestorDir(crate::path::copy_bytes(child)),
            None => if self.is_symlink_hop(handle) {
                WatchRole::SymlinkHop
            } else {
                WatchRole::MainFile
            },
        }
    }

    /// The entry that matters in the directory under `handle`, if `handle`
    /// is the watch of a directory.
    pub fn expected_child(&self, handle: WatchHandle) -> (r: Option<&Vec<u8>>)
        ensures
            r.is_some() == self@.children.contains_key(handle),
            r.is_some() ==> r.unwrap()@ == self@.children[handle],
    {
        self.children.get(&handle.0)
    }

    /// Whether `handle` is the watch of a symlink on the way.
    pub fn is_symlink_hop(&self, handle: WatchHandle) -> (r: bool)
        ensures
            r == self@.symlinks.contains(handle),
    {
        self.symlinks.contains(&handle.0)
    }

    /// What the event means for the watcher.
    pub fn classify(&self, event: &INotifyEvent) -> (r: EventClass)
        ensures
            r == classification(self@, event.watch_descriptor, event.mask, event.name@),
    {
        if event.mask.bits() & (IN_Q_OVERFLOW | IN_UNMOUNT) != 0 {
            return EventClass::NotifyAndRefresh;
        }
        match self.expected_child(event.watch_descriptor) {
            Some(child) => {
                if crate::path::same_bytes(&event.name, child) {
                    EventClass::NotifyAndRefresh
                } else {
                    EventClass::Ignore
                }
            },
            None => {
                if self.is_symlink_hop(event.watch_descriptor) {
                    EventClass::NotifyAndRefresh
                } else {
                    EventClass::NotifyAndContinue
                }
            },
        }
    }
}

/// An event on the watch of a symlink on the way asks for a new reading and
/// for new watches, whatever it is, unless the same handle also stands for a
/// directory; then the name decides.
pub proof fn lemma_symlink_event_refreshes(
    plan: PlanView,
    handle: WatchHandle,
    mask: INotifyMask,
    name: Seq<u8>,
)
    requires
        plan.symlinks.contains(handle),
        !plan.children.contains_key(handle),
    ensures
        classification(plan, handle, mask, name) == EventClass::NotifyAndRefresh,
{
}

/// An event on a watched directory counts if and only if it names the entry
/// that matters there or reports a loss; if it counts it asks for a new
/// reading and for new watches, and otherwise it is passed over. So a file
/// renamed over the target is noticed through the directory that holds the
/// target, and the other entries of that directory stay silent.
pub proof fn lemma_directory_event(
    plan: PlanView,
    handle: WatchHandle,
    mask: INotifyMask,
    name: Seq<u8>,
)
    requires
        plan.children.contains_key(handle),
    ensures
        classification(plan, handle, mask, name) == if name == plan.children[handle]
            || plan_suspect(mask) {
            EventClass::NotifyAndRefresh
        } else {
            EventClass::Ignore
        },
{
}

/// An event on any other watch is about the file itself: it asks for a new
/// reading, and for new watches only if it reports a loss.
pub proof fn lemma_file_event(
    plan: PlanView,
    handle: WatchHandle,
    mask: INotifyMask,
    name: Seq<u8>,
)
    requires
        !plan.children.contains_key(handle),
        !plan.symlinks.contains(handle),
    ensures
        classification(plan, handle, mask, name) == if plan_suspect(mask) {
            EventClass::NotifyAndRefresh
        } else {
            EventClass::NotifyAndContinue
        },
{
}

} // verus!
