//! I/O queue descriptors, the table that maps them to queue types, and the
//! per-poll migration bookkeeping of the TCP layer.

use slab::Slab;
use vstd::prelude::*;

verus! {

/// An I/O queue descriptor.
#[derive(Debug, Clone, Copy, PartialEq, Eq, Hash, Structural)]
pub struct QDesc(pub u32);

impl From<usize> for QDesc {
    /// The descriptor with number `val`, truncated to 32 bits.
    fn from(val: usize) -> (q: QDesc) {
        QDesc(val as u32)
    }
}

impl vstd::std_specs::convert::FromSpecImpl<usize> for QDesc {
    open spec fn obeys_from_spec() -> bool {
        true
    }

    open spec fn from_spec(v: usize) -> QDesc {
        QDesc(v as u32)
    }
}

impl From<QDesc> for usize {
    /// The number of descriptor `val`.
    fn from(val: QDesc) -> (n: usize) {
        val.0 as usize
    }
}

impl vstd::std_specs::convert::FromSpecImpl<QDesc> for usize {
    open spec fn obeys_from_spec() -> bool {
        true
    }

    open spec fn from_spec(v: QDesc) -> usize {
        v.0 as usize
    }
}

// -------------------------------------------------------------------------------------
// Poll state of TCP migration
// -------------------------------------------------------------------------------------

/// What a poll of the TCP layer has to do about migration: a descriptor whose
/// connection was migrated out, a descriptor to migrate, and whether connections are
/// migrated out as soon as the target acknowledges.
#[derive(Debug, Clone, Copy)]
pub struct TcpmigPollState {
    migrated_qd: Option<QDesc>,
    qd_to_migrate: Option<QDesc>,
    fast_migrate: bool,
}

/// The plain contents of a poll state.
pub struct PollStateView {
    pub migrated_qd: Option<QDesc>,
    pub qd_to_migrate: Option<QDesc>,
    pub fast_migrate: bool,
}

impl View for TcpmigPollState {
    type V = PollStateView;

    closed spec fn view(&self) -> PollStateView {
        PollStateView {
            migrated_qd: self.migrated_qd,
            qd_to_migrate: self.qd_to_migrate,
            fast_migrate: self.fast_migrate,
        }
    }
}

/// The state after `set_qd(qd)`.
pub open spec fn after_set_qd(s: PollStateView, qd: QDesc) -> PollStateView {
    PollStateView { migrated_qd: Some(qd), ..s }
}

/// The state after `take_qd()`.
pub open spec fn after_take_qd(s: PollStateView) -> PollStateView {
    PollStateView { migrated_qd: None, ..s }
}

/// The state after `set_qd_to_migrate(qd)`.
pub open spec fn after_set_qd_to_migrate(s: PollStateView, qd: QDesc) -> PollStateView {
    PollStateView { qd_to_migrate: Some(qd), ..s }
}

/// The state after `take_qd_to_migrate()`.
pub open spec fn after_take_qd_to_migrate(s: PollStateView) -> PollStateView {
    PollStateView { qd_to_migrate: None, ..s }
}

/// Taking a descriptor gives back the one last set, once: a second take finds none,
/// and neither touches the other descriptor or the fast-migration switch.
pub proof fn lemma_poll_state_set_take(s: PollStateView, qd: QDesc)
    ensures
        after_set_qd(s, qd).migrated_qd == Some(qd),
        after_take_qd(after_set_qd(s, qd)).migrated_qd is None,
        after_take_qd(after_set_qd(s, qd)).qd_to_migrate == s.qd_to_migrate,
        after_take_qd(after_set_qd(s, qd)).fast_migrate == s.fast_migrate,
        after_set_qd_to_migrate(s, qd).qd_to_migrate == Some(qd),
        after_take_qd_to_migrate(after_set_qd_to_migrate(s, qd)).qd_to_migrate is None,
        after_take_qd_to_migrate(after_set_qd_to_migrate(s, qd)).migrated_qd == s.migrated_qd,
        after_take_qd_to_migrate(after_set_qd_to_migrate(s, qd)).fast_migrate == s.fast_migrate,
{
}

impl Default for TcpmigPollState {
    fn default() -> (s: TcpmigPollState)
        ensures
            s@.migrated_qd is None,
            s@.qd_to_migrate is None,
            !s@.fast_migrate,
    {
        TcpmigPollState { migrated_qd: None, qd_to_migrate: None, fast_migrate: false }
    }
}

impl TcpmigPollState {
    /// Clears both descriptors and the fast-migration switch.
    pub fn reset(&mut self)
        ensures
            final(self)@.migrated_qd is None,
            final(self)@.qd_to_migrate is None,
            !final(self)@.fast_migrate,
    {
        self.migrated_qd = None;
        self.qd_to_migrate = None;
        self.fast_migrate = false;
    }

    /// Takes the descriptor of the connection migrated out, if any.
    pub fn take_qd(&mut self) -> (qd: Option<QDesc>)
        ensures
            qd == old(self)@.migrated_qd,
            final(self)@ == after_take_qd(old(self)@),
    {
        let qd = self.migrated_qd;
        self.migrated_qd = None;
        qd
    }

    /// Records the descriptor of the connection migrated out.
    pub fn set_qd(&mut self, qd: QDesc)
        ensures
            final(self)@ == after_set_qd(old(self)@, qd),
    {
        self.migrated_qd = Some(qd);
    }

    /// Takes the descriptor of the connection to migrate, if any.
    pub fn take_qd_to_migrate(&mut self) -> (qd: Option<QDesc>)
        ensures
            qd == old(self)@.qd_to_migrate,
            final(self)@ == after_take_qd_to_migrate(old(self)@),
    {
        let qd = self.qd_to_migrate;
        self.qd_to_migrate = None;
        qd
    }

    /// Records the descriptor of the connection to migrate.
    pub fn set_qd_to_migrate(&mut self, qd: QDesc)
        ensures
            final(self)@ == after_set_qd_to_migrate(old(self)@, qd),
    {
        self.qd_to_migrate = Some(qd);
    }

    /// Whether connections are migrated out as soon as the target acknowledges.
    pub fn is_fast_migrate_enabled(&self) -> (b: bool)
        ensures
            b == self@.fast_migrate,
    {
        self.fast_migrate
    }

    /// Migrates connections out as soon as the target acknowledges.
    pub fn enable_fast_migrate(&mut self)
        ensures
            final(self)@ == (PollStateView { fast_migrate: true, ..old(self)@ }),
    {
        self.fast_migrate = true;
    }
}

// -------------------------------------------------------------------------------------
// I/O queue table
// -------------------------------------------------------------------------------------

/// `slab::Slab`: values stored under small integer keys that it picks.
#[verifier::external_type_specification]
#[verifier::external_body]
#[verifier::reject_recursive_types(T)]
pub struct ExSlab<T>(Slab<T>);

/// The entries of a slab: each key in use and the value stored under it.
pub uninterp spec fn slab_entries(s: Slab<u32>) -> Map<usize, u32>;

/// The number of entry slots of a slab, occupied or vacant: the most keys it has handed
/// out at once.
pub uninterp spec fn slab_slots(s: Slab<u32>) -> nat;

/// Calls `Slab::new`: a slab with no entries and no slots.
#[verifier::external_body]
fn slab_new() -> (r: Slab<u32>)
    ensures
        slab_entries(r).is_empty(),
        slab_slots(r) == 0,
{
    Slab::new()
}

/// Calls `Slab::insert`: the value goes under a key that was vacant, which is
/// returned. The key is a vacant slot or the first slot past the last one (which is then
/// added), so at most the number of slots and below `isize::MAX`.
#[verifier::external_body]
fn slab_insert(s: &mut Slab<u32>, val: u32) -> (key: usize)
    ensures
        !slab_entries(*old(s)).contains_key(key),
        slab_entries(*final(s)) == slab_entries(*old(s)).insert(key, val),
        key < isize::MAX,
        key <= slab_slots(*old(s)),
        slab_slots(*final(s)) == if key == slab_slots(*old(s)) {
            (key + 1) as nat
        } else {
            slab_slots(*old(s))
        },
{
    s.insert(val)
}

/// Calls `Slab::contains`: whether a value is stored under `key`.
#[verifier::external_body]
fn slab_contains(s: &Slab<u32>, key: usize) -> (b: bool)
    ensures
        b == slab_entries(*s).contains_key(key),
{
    s.contains(key)
}

/// Calls `Slab::get` and copies the value: the value stored under `key`, if any.
#[verifier::external_body]
fn slab_get(s: &Slab<u32>, key: usize) -> (v: Option<u32>)
    ensures
        v == (if slab_entries(*s).contains_key(key) {
            Some(slab_entries(*s)[key])
        } else {
            None::<u32>
        }),
{
    s.get(key).cloned()
}

/// Calls `Slab::remove`: takes out the value stored under `key` (the slab panics when
/// there is none).
#[verifier::external_body]
fn slab_remove(s: &mut Slab<u32>, key: usize) -> (v: u32)
    requires
        slab_entries(*old(s)).contains_key(key),
    ensures
        v == slab_entries(*old(s))[key],
        slab_entries(*final(s)) == slab_entries(*old(s)).remove(key),
        slab_slots(*final(s)) == slab_slots(*old(s)),
{
    s.remove(key)
}

/// Offset for I/O queue descriptors. It tells descriptors apart from the file
/// descriptors of the underlying OS; half of FD_SETSIZE (1024) in Linux.
pub const BASE_QD: usize = 500;

/// The descriptor handed out for slab key `key`.
pub open spec fn qdesc_for_key(key: usize) -> QDesc {
    QDesc((key + BASE_QD) as u32)
}

/// The queue type that `get` finds for descriptor `qd` in a table with `entries`.
pub open spec fn table_get_spec(entries: Map<usize, u32>, qd: QDesc) -> Option<u32> {
    if (qd.0 as usize) < BASE_QD {
        None
    } else if entries.contains_key((qd.0 - BASE_QD) as usize) {
        Some(entries[(qd.0 - BASE_QD) as usize])
    } else {
        None
    }
}

/// I/O queue table.
pub struct IoQueueTable {
    table: Slab<u32>,
}

impl View for IoQueueTable {
    type V = Map<usize, u32>;

    closed spec fn view(&self) -> Map<usize, u32> {
        slab_entries(self.table)
    }
}

/// A descriptor handed out by `allocate` finds the queue type it was allocated for, as long
/// as the key fits in a descriptor; freeing it releases that entry.
pub proof fn lemma_get_after_alloc(entries: Map<usize, u32>, key: usize, qtype: u32)
    requires
        !entries.contains_key(key),
        key + BASE_QD <= u32::MAX,
    ensures
        table_get_spec(entries.insert(key, qtype), qdesc_for_key(key)) == Some(qtype),
        (qdesc_for_key(key).0 - BASE_QD) as usize == key,
        entries.insert(key, qtype).remove(key) == entries,
{
    assert(entries.insert(key, qtype).remove(key) =~= entries);
}

impl IoQueueTable {
    /// The number of slots of the table: every key handed out so far is below it.
    pub closed spec fn slots(&self) -> nat {
        slab_slots(self.table)
    }

    /// Creates an empty I/O queue table.
    pub fn new() -> (t: IoQueueTable)
        ensures
            t@ == Map::<usize, u32>::empty(),
            t.slots() == 0,
    {
        let t = IoQueueTable { table: slab_new() };
        assert(t@ =~= Map::<usize, u32>::empty());
        t
    }

    /// Allocates a new entry for `qtype` and returns its descriptor.
    pub fn allocate(&mut self, qtype: u32) -> (qd: QDesc)
        ensures
            exists|key: usize|
                {
                    &&& !old(self)@.contains_key(key)
                    &&& final(self)@ == old(self)@.insert(key, qtype)
                    &&& qd == qdesc_for_key(key)
                    &&& key <= old(self).slots()
                    &&& final(self).slots() == if key == old(self).slots() {
                        (key + 1) as nat
                    } else {
                        old(self).slots()
                    }
                },
            old(self).slots() + BASE_QD <= u32::MAX ==> table_get_spec(final(self)@, qd) == Some(
                qtype,
            ),
    {
        let index: usize = slab_insert(&mut self.table, qtype);
        let qd = QDesc::from(index + BASE_QD);
        proof {
            if old(self).slots() + BASE_QD <= u32::MAX {
                lemma_get_after_alloc(old(self)@, index, qtype);
            }
        }
        assert(!old(self)@.contains_key(index) && self@ == old(self)@.insert(index, qtype) && qd
            == qdesc_for_key(index));
        qd
    }

    /// Gets the queue type associated with an I/O queue descriptor.
    pub fn get(&self, qd: QDesc) -> (r: Option<u32>)
        ensures
            r == table_get_spec(self@, qd),
    {
        if usize::from(qd) < BASE_QD {
            None
        } else {
            let rawqd: usize = usize::from(qd) - BASE_QD;
            if !slab_contains(&self.table, rawqd) {
                return None;
            }
            slab_get(&self.table, rawqd)
        }
    }

    /// Releases the entry that descriptor `qd` names, and returns its queue type; `None`
    /// when it names none.
    pub fn free(&mut self, qd: QDesc) -> (r: Option<u32>)
        ensures
            r == table_get_spec(old(self)@, qd),
            r is Some ==> final(self)@ == old(self)@.remove((qd.0 - BASE_QD) as usize),
            r is None ==> final(self)@ == old(self)@,
            final(self).slots() == old(self).slots(),
    {
        if usize::from(qd) < BASE_QD {
            return None;
        }
        let rawqd: usize = usize::from(qd) - BASE_QD;
        if !slab_contains(&self.table, rawqd) {
            return None;
        }
        Some(slab_remove(&mut self.table, rawqd))
    }
}

} // verus!
