//! The box registry: implementations of a capability held under numeric
//! handles, so that callers reach a key only through its handle.
use vstd::prelude::*;
use crate::errors::{is_plain, ClientError, Error, ErrorCode};
use crate::text::decimal;

verus! {

/// The capability classes of boxes.
#[derive(Clone, Copy, Debug, PartialEq, Eq, Structural)]
pub enum BoxKind {
    Signing,
    Encryption,
    Crypto,
}

/// The "not registered" error of the class `kind` for handle `h`.
pub open spec fn is_not_registered(e: ClientError, kind: BoxKind, h: u32) -> bool {
    match kind {
        BoxKind::Signing => is_plain(
            e,
            ErrorCode::SigningBoxNotRegistered.spec_value(),
            "Signing box is not registered. ID "@ + decimal(h as nat),
        ),
        BoxKind::Encryption => is_plain(
            e,
            ErrorCode::EncryptionBoxNotRegistered.spec_value(),
            "Encryption box is not registered. ID "@ + decimal(h as nat),
        ),
        BoxKind::Crypto => is_plain(
            e,
            ErrorCode::CryptoBoxNotRegistered.spec_value(),
            "Crypto box is not registered. ID "@ + decimal(h as nat),
        ),
    }
}

/// The "not registered" error of a class.
pub fn not_registered(kind: BoxKind, h: u32) -> (r: ClientError)
    ensures
        is_not_registered(r, kind, h),
{
    match kind {
        BoxKind::Signing => Error::signing_box_not_registered(h),
        BoxKind::Encryption => Error::encryption_box_not_registered(h),
        BoxKind::Crypto => Error::crypto_box_not_registered(h),
    }
}

/// The boxes of one capability class, each under its own handle.
pub struct BoxRegistry<T> {
    kind: BoxKind,
    entries: Vec<(u32, T)>,
    next_handle: u32,
    boxes: Ghost<Map<u32, T>>,
}

impl<T> View for BoxRegistry<T> {
    type V = Map<u32, T>;

    closed spec fn view(&self) -> Map<u32, T> {
        self.boxes@
    }
}

impl<T> BoxRegistry<T> {
    /// The capability class of the registry.
    pub closed spec fn spec_kind(&self) -> BoxKind {
        self.kind
    }

    /// The handle that the next registration hands out.
    pub closed spec fn spec_next(&self) -> u32 {
        self.next_handle
    }

    /// The entries hold exactly the boxes of the view, each handle once,
    /// and every handle in use is below the next one to be handed out.
    pub closed spec fn wf(&self) -> bool {
        &&& forall|i: int, j: int|
            0 <= i < j < self.entries@.len() ==> #[trigger] self.entries@[i].0
                != #[trigger] self.entries@[j].0
        &&& forall|i: int|
            0 <= i < self.entries@.len() ==> {
                &&& self.boxes@.contains_key(#[trigger] self.entries@[i].0)
                &&& self.boxes@[self.entries@[i].0] == self.entries@[i].1
            }
        &&& forall|h: u32| #[trigger]
            self.boxes@.contains_key(h) ==> exists|i: int|
                0 <= i < self.entries@.len() && #[trigger] self.entries@[i].0 == h
        &&& forall|h: u32| #[trigger] self.boxes@.contains_key(h) ==> h < self.next_handle
    }

    /// An empty registry of the class `kind`.
    pub fn new(kind: BoxKind) -> (r: Self)
        ensures
            r.wf(),
            r@ == Map::<u32, T>::empty(),
            r.spec_kind() == kind,
    {
        BoxRegistry { kind, entries: Vec::new(), next_handle: 1, boxes: Ghost(Map::empty()) }
    }

    /// The capability class of the registry.
    pub fn kind(&self) -> (r: BoxKind)
        ensures
            r == self.spec_kind(),
    {
        self.kind
    }

    /// Registers `item` under a fresh handle; `None` once the handle space
    /// is used up.
    pub fn register(&mut self, item: T) -> (r: Option<u32>)
        requires
            old(self).wf(),
        ensures
            final(self).wf(),
            final(self).spec_kind() == old(self).spec_kind(),
            old(self).spec_next() < u32::MAX <==> r is Some,
            r is None ==> final(self)@ == old(self)@,
            r is Some ==> !old(self)@.contains_key(r->0) && final(self)@ == old(self)@.insert(
                r->0,
                item,
            ),
    {
        if self.next_handle == u32::MAX {
            return None;
        }
        let h = self.next_handle;
        let ghost old_entries = self.entries@;
        self.entries.push((h, item));
        self.next_handle = h + 1;
        self.boxes = Ghost(self.boxes@.insert(h, item));
        assert forall|k: u32| #[trigger] self.boxes@.contains_key(k) implies exists|i: int|
            0 <= i < self.entries@.len() && #[trigger] self.entries@[i].0 == k by {
            if k == h {
                assert(self.entries@[old_entries.len() as int].0 == k);
            } else {
                let i = choose|i: int| 0 <= i < old_entries.len() && #[trigger] old_entries[i].0 == k;
                assert(self.entries@[i].0 == k);
            }
        }
        Some(h)
    }

    /// The box under `h`, or the "not registered" error of the class.
    pub fn get(&self, h: u32) -> (r: Result<&T, ClientError>)
        requires
            self.wf(),
        ensures
            self@.contains_key(h) <==> r is Ok,
            r is Ok ==> *r->Ok_0 == self@[h],
            r is Err ==> is_not_registered(r->Err_0, self.spec_kind(), h),
    {
        let mut i: usize = 0;
        while i < self.entries.len()
            invariant
                self.wf(),
                i <= self.entries@.len(),
                forall|j: int| 0 <= j < i ==> self.entries@[j].0 != h,
            decreases self.entries@.len() - i,
        {
            if self.entries[i].0 == h {
                return Ok(&self.entries[i].1);
            }
            i += 1;
        }
        Err(not_registered(self.kind, h))
    }

    /// Removes the box under `h`; returns whether there was one. Afterwards
    /// the handle finds nothing.
    pub fn unregister(&mut self, h: u32) -> (r: bool)
        requires
            old(self).wf(),
        ensures
            final(self).wf(),
            final(self).spec_kind() == old(self).spec_kind(),
            r == old(self)@.contains_key(h),
            final(self)@ == old(self)@.remove(h),
    {
        let mut i: usize = 0;
        while i < self.entries.len()
            invariant
                self.wf(),
                self == old(self),
                i <= self.entries@.len(),
                forall|j: int| 0 <= j < i ==> self.entries@[j].0 != h,
            decreases self.entries@.len() - i,
        {
            if self.entries[i].0 == h {
                let ghost old_entries = self.entries@;
                self.entries.remove(i);
                self.boxes = Ghost(self.boxes@.remove(h));
                assert forall|k: u32| #[trigger] self.boxes@.contains_key(k) implies exists|j: int|
                    0 <= j < self.entries@.len() && #[trigger] self.entries@[j].0 == k by {
                    let j = choose|j: int| 0 <= j < old_entries.len() && #[trigger] old_entries[j].0 == k;
                    if j < i {
                        assert(self.entries@[j].0 == k);
                    } else {
                        assert(self.entries@[j - 1].0 == k);
                    }
                }
                assert forall|a: int, b: int|
                    0 <= a < b < self.entries@.len() implies #[trigger] self.entries@[a].0
                    != #[trigger] self.entries@[b].0 by {
                    let a0 = if a < i { a } else { a + 1 };
                    let b0 = if b < i { b } else { b + 1 };
                    assert(self.entries@[a] == old_entries[a0]);
                    assert(self.entries@[b] == old_entries[b0]);
                }
                assert forall|a: int| 0 <= a < self.entries@.len() implies {
                    &&& self.boxes@.contains_key(#[trigger] self.entries@[a].0)
                    &&& self.boxes@[self.entries@[a].0] == self.entries@[a].1
                } by {
                    let a0 = if a < i { a } else { a + 1 };
                    assert(self.entries@[a] == old_entries[a0]);
                    assert(old_entries[a0].0 != old_entries[i as int].0);
                }
                return true;
            }
            i += 1;
        }
        assert(self.boxes@.remove(h) =~= self.boxes@);
        false
    }
}

/// A box just registered is found under the handle that registration
/// returned; the other handles keep what they held.
pub proof fn lemma_registered_is_found<T>(before: Map<u32, T>, h: u32, item: T, other: u32)
    ensures
        before.insert(h, item).contains_key(h),
        before.insert(h, item)[h] == item,
        other != h ==> (before.insert(h, item).contains_key(other) <==> before.contains_key(other)),
{
}

/// After unregistering a handle, looking it up finds nothing, so the lookup
/// fails with the "not registered" error of the class.
pub proof fn lemma_unregistered_is_gone<T>(before: Map<u32, T>, h: u32)
    ensures
        !before.remove(h).contains_key(h),
{
}

/// Two registrations in a row hand out different handles.
pub proof fn lemma_handles_distinct<T>(m0: Map<u32, T>, h1: u32, x1: T, h2: u32)
    requires
        !m0.contains_key(h1),
        !m0.insert(h1, x1).contains_key(h2),
    ensures
        h1 != h2,
{
}

} // verus!
