//! The in-memory native view registry behind the desktop, Android and web
//! platform bridges, and the capabilities each of those platforms offers.

use vstd::prelude::*;
use std::collections::HashMap;
use crate::platform::{NativeHandle, PlatformCapability, ViewType};
use crate::tree::NodeId;

pub mod children;

pub use children::{inserted_at, other_than, without};

verus! {

broadcast use vstd::std_specs::hash::group_hash_axioms;

/// A native view as the registry records it.
pub struct ViewRecord {
    pub view_type: ViewType,
    pub node_id: NodeId,
    pub children: Vec<NativeHandle>,
}

/// The native views created so far, by handle, and the next handle to give.
pub struct ViewRegistry {
    next_handle: u64,
    views: HashMap<u64, ViewRecord>,
}

impl ViewRegistry {
    /// The recorded views, by the number of their handle.
    pub closed spec fn views(&self) -> Map<u64, ViewRecord> {
        self.views@
    }

    /// The handle the next created view receives.
    pub closed spec fn next(&self) -> u64 {
        self.next_handle
    }

    /// Every recorded handle was given out before the next one.
    pub closed spec fn wf(&self) -> bool {
        &&& self.next_handle >= 1
        &&& forall|k: u64| #[trigger] self.views@.contains_key(k) ==> 1 <= k < self.next_handle
    }

    pub fn new() -> (r: Self)
        ensures
            r.wf(),
            r.views() == Map::<u64, ViewRecord>::empty(),
            r.next() == 1,
    {
        ViewRegistry { next_handle: 1, views: HashMap::new() }
    }

    /// Record a new view with no children under a fresh handle.
    pub fn create_view(&mut self, view_type: ViewType, node_id: NodeId) -> (h: NativeHandle)
        requires
            old(self).wf(),
            old(self).next() < u64::MAX,
        ensures
            final(self).wf(),
            h.0 == old(self).next(),
            !old(self).views().contains_key(h.0),
            final(self).next() == old(self).next() + 1,
            final(self).views().dom() == old(self).views().dom().insert(h.0),
            forall|k: u64| #[trigger] old(self).views().contains_key(k) ==> final(self).views()[k] == old(self).views()[k],
            final(self).views()[h.0].view_type == view_type,
            final(self).views()[h.0].node_id == node_id,
            final(self).views()[h.0].children@ == Seq::<NativeHandle>::empty(),
    {
        let handle = NativeHandle(self.next_handle);
        self.next_handle = self.next_handle + 1;
        self.views.insert(handle.0, ViewRecord { view_type, node_id, children: Vec::new() });
        handle
    }

    /// Whether a view with this handle is recorded.
    pub fn contains(&self, handle: NativeHandle) -> (r: bool)
        ensures
            r == self.views().contains_key(handle.0),
    {
        self.views.contains_key(&handle.0)
    }

    /// Forget the view with this handle, if recorded.
    pub fn remove_view(&mut self, handle: NativeHandle)
        requires
            old(self).wf(),
        ensures
            final(self).wf(),
            final(self).next() == old(self).next(),
            final(self).views() == old(self).views().remove(handle.0),
    {
        self.views.remove(&handle.0);
    }

    /// Insert `child` among the children of `parent` at `index` (at the end
    /// when the index is past them); nothing happens when `parent` is not
    /// recorded.
    pub fn insert_child(&mut self, parent: NativeHandle, child: NativeHandle, index: usize)
        requires
            old(self).wf(),
        ensures
            final(self).wf(),
            final(self).next() == old(self).next(),
            final(self).views().dom() == old(self).views().dom(),
            forall|k: u64| #[trigger] old(self).views().contains_key(k) && k != parent.0 ==> final(self).views()[k] == old(self).views()[k],
            old(self).views().contains_key(parent.0) ==> {
                let (o, n) = (old(self).views()[parent.0], final(self).views()[parent.0]);
                &&& n.view_type == o.view_type
                &&& n.node_id == o.node_id
                &&& n.children@ == inserted_at(o.children@, child, index as int)
            },
    {
        match self.views.remove(&parent.0) {
            Some(mut record) => {
                let len = record.children.len();
                let at = if index < len { index } else { len };
                record.children.insert(at, child);
                self.views.insert(parent.0, record);
            },
            None => {},
        }
    }

    /// Remove every occurrence of `child` from the children of `parent`;
    /// nothing happens when `parent` is not recorded.
    pub fn remove_child(&mut self, parent: NativeHandle, child: NativeHandle)
        requires
            old(self).wf(),
        ensures
            final(self).wf(),
            final(self).next() == old(self).next(),
            final(self).views().dom() == old(self).views().dom(),
            forall|k: u64| #[trigger] old(self).views().contains_key(k) && k != parent.0 ==> final(self).views()[k] == old(self).views()[k],
            old(self).views().contains_key(parent.0) ==> {
                let (o, n) = (old(self).views()[parent.0], final(self).views()[parent.0]);
                &&& n.view_type == o.view_type
                &&& n.node_id == o.node_id
                &&& n.children@ == without(o.children@, child)
            },
    {
        match self.views.remove(&parent.0) {
            Some(record) => {
                let ViewRecord { view_type, node_id, children } = record;
                let kept = without_handle(&children, child);
                self.views.insert(parent.0, ViewRecord { view_type, node_id, children: kept });
            },
            None => {},
        }
    }

    /// The handle the next created view receives.
    pub fn next_handle(&self) -> (r: u64)
        ensures
            r == self.next(),
    {
        self.next_handle
    }

    /// Number of recorded views.
    pub fn view_count(&self) -> (r: usize)
        ensures
            r == self.views().len(),
    {
        self.views.len()
    }
}

fn without_handle(v: &Vec<NativeHandle>, x: NativeHandle) -> (r: Vec<NativeHandle>)
    ensures
        r@ == without(v@, x),
{
    let mut r: Vec<NativeHandle> = Vec::new();
    let mut i: usize = 0;
    while i < v.len()
        invariant
            i <= v.len(),
            r@ == without(v@.take(i as int), x),
        decreases v.len() - i,
    {
        let ghost t = v@.take(i as int + 1);
        proof {
            assert(t.drop_last() =~= v@.take(i as int));
            reveal(Seq::filter);
            assert(without(t, x) == if v@[i as int] != x {
                without(v@.take(i as int), x).push(v@[i as int])
            } else {
                without(v@.take(i as int), x)
            });
        }
        if v[i].0 != x.0 {
            r.push(v[i]);
        }
        i = i + 1;
    }
    assert(v@.take(v@.len() as int) =~= v@);
    r
}

/// The capabilities of the Android platform.
pub open spec fn android_capability(c: PlatformCapability) -> bool {
    c is Haptics || c is Biometrics || c is PushNotifications || c is BackgroundFetch
        || c is NativeFilePicker || c is NativeDatePicker || c is ContextMenu || c is NativeShare
}

/// The capabilities of the macOS platform.
pub open spec fn macos_capability(c: PlatformCapability) -> bool {
    c is MenuBar || c is SystemTray || c is MultiWindow || c is DragAndDrop || c is ContextMenu
        || c is NativeFilePicker || c is NativeDatePicker
}

/// The capabilities of the web platform.
pub open spec fn web_capability(c: PlatformCapability) -> bool {
    c is DragAndDrop || c is NativeShare || c is ContextMenu || c is NativeFilePicker
}

/// The capabilities of the Windows platform.
pub open spec fn windows_capability(c: PlatformCapability) -> bool {
    c is SystemTray || c is MultiWindow || c is DragAndDrop || c is ContextMenu
        || c is NativeFilePicker || c is NativeDatePicker || c is PushNotifications
}

pub fn android_supports(c: PlatformCapability) -> (r: bool)
    ensures
        r == android_capability(c),
{
    matches!(
        c,
        PlatformCapability::Haptics | PlatformCapability::Biometrics
            | PlatformCapability::PushNotifications | PlatformCapability::BackgroundFetch
            | PlatformCapability::NativeFilePicker | PlatformCapability::NativeDatePicker
            | PlatformCapability::ContextMenu | PlatformCapability::NativeShare
    )
}

pub fn macos_supports(c: PlatformCapability) -> (r: bool)
    ensures
        r == macos_capability(c),
{
    matches!(
        c,
        PlatformCapability::MenuBar | PlatformCapability::SystemTray
            | PlatformCapability::MultiWindow | PlatformCapability::DragAndDrop
            | PlatformCapability::ContextMenu | PlatformCapability::NativeFilePicker
            | PlatformCapability::NativeDatePicker
    )
}

pub fn web_supports(c: PlatformCapability) -> (r: bool)
    ensures
        r == web_capability(c),
{
    matches!(
        c,
        PlatformCapability::DragAndDrop | PlatformCapability::NativeShare
            | PlatformCapability::ContextMenu | PlatformCapability::NativeFilePicker
    )
}

pub fn windows_supports(c: PlatformCapability) -> (r: bool)
    ensures
        r == windows_capability(c),
{
    matches!(
        c,
        PlatformCapability::SystemTray | PlatformCapability::MultiWindow
            | PlatformCapability::DragAndDrop | PlatformCapability::ContextMenu
            | PlatformCapability::NativeFilePicker | PlatformCapability::NativeDatePicker
            | PlatformCapability::PushNotifications
    )
}

} // verus!
