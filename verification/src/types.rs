//! Heights, light blocks and the store of trusted states.
//!
//! The store is a table from heights to trusted states. Trust is append-only:
//! a height that is present keeps its state for good. One table is shared by
//! two kinds of handle, behind a lock. Any number of [`TSReader`]s read it;
//! the single [`TSReadWriter`] adds states, each addition in one step for
//! every reader.

use std::collections::HashMap;
use std::sync::{Arc, RwLock};
use vstd::prelude::*;

verus! {

/// Position of a block in the chain.
pub type Height = u64;

/// The unit that is fetched, verified and, once trusted, stored. The core
/// reads nothing of it but its height; `digest` stands for the rest.
#[derive(Copy, Clone, Debug, PartialEq, Eq, Structural)]
pub struct LightBlock {
    pub height: Height,
    pub digest: u64,
}

/// A light block together with the fact that it has been verified.
pub type TrustedState = LightBlock;

impl LightBlock {
    pub fn new(height: Height, digest: u64) -> (lb: LightBlock)
        ensures
            lb == (LightBlock { height, digest }),
    {
        LightBlock { height, digest }
    }
}

/// What a lookup at `height` gives in the table `m`.
pub open spec fn lookup(m: Map<Height, LightBlock>, height: Height) -> Option<LightBlock> {
    if m.contains_key(height) {
        Some(m[height])
    } else {
        None
    }
}

/// `height` is a trusted height of `m` and no trusted height lies above it.
pub open spec fn is_latest(m: Map<Height, LightBlock>, height: Height) -> bool {
    &&& m.contains_key(height)
    &&& forall|k: Height| m.contains_key(k) ==> k <= height
}

/// The trust anchor of `m`: its greatest trusted height, if it has any.
pub open spec fn latest(m: Map<Height, LightBlock>) -> Option<Height> {
    if exists|h: Height| is_latest(m, h) {
        Some(choose|h: Height| is_latest(m, h))
    } else {
        None
    }
}

/// `state` can be added to `m` without overwriting a different state.
pub open spec fn admits(m: Map<Height, LightBlock>, state: LightBlock) -> bool {
    m.contains_key(state.height) ==> m[state.height] == state
}

/// The table after `states` have been added to `m`, first to last.
pub open spec fn with_states(m: Map<Height, LightBlock>, states: Seq<LightBlock>) -> Map<
    Height,
    LightBlock,
>
    decreases states.len(),
{
    if states.len() == 0 {
        m
    } else {
        with_states(m, states.drop_last()).insert(states.last().height, states.last())
    }
}

/// Every state of `states` can be added in turn, starting from `m`.
pub open spec fn admits_all(m: Map<Height, LightBlock>, states: Seq<LightBlock>) -> bool {
    forall|i: int|
        0 <= i < states.len() ==> admits(
            with_states(m, states.take(i)),
            #[trigger] states[i],
        )
}

/// Every entry of `m` sits at its own height.
pub open spec fn keyed_by_height(m: Map<Height, LightBlock>) -> bool {
    forall|h: Height| m.contains_key(h) ==> (#[trigger] m[h]).height == h
}

/// The greatest trusted height is unique, so `latest` names it.
pub proof fn lemma_latest_is(m: Map<Height, LightBlock>, height: Height)
    requires
        is_latest(m, height),
    ensures
        latest(m) == Some(height),
{
    let h = choose|h: Height| is_latest(m, h);
    assert(is_latest(m, h));
    assert(h <= height && height <= h);
}

/// A table without entries has no trust anchor.
pub proof fn lemma_latest_of_empty(m: Map<Height, LightBlock>)
    requires
        forall|h: Height| !m.contains_key(h),
    ensures
        latest(m) is None,
{
}

/// The trust anchor, where there is one, is trusted and bounds every trusted
/// height.
pub proof fn lemma_latest_bounds(m: Map<Height, LightBlock>)
    ensures
        latest(m) matches Some(l) ==> is_latest(m, l),
        latest(m) is None ==> forall|h: Height| !is_latest(m, h),
{
}

/// A table with finitely many trusted heights, one at least, has a greatest.
pub proof fn lemma_has_latest(m: Map<Height, LightBlock>)
    requires
        m.dom().finite(),
        exists|h: Height| m.contains_key(h),
    ensures
        latest(m) is Some,
    decreases m.dom().len(),
{
    let h = choose|h: Height| m.contains_key(h);
    let rest = m.remove(h);
    if exists|k: Height| rest.contains_key(k) {
        lemma_has_latest(rest);
        lemma_latest_bounds(rest);
        let l = latest(rest)->0;
        let top = if l < h { h } else { l };
        assert forall|k: Height| m.contains_key(k) implies k <= top by {
            if k != h {
                assert(rest.contains_key(k));
            }
        }
        assert(is_latest(m, top));
    } else {
        assert forall|k: Height| m.contains_key(k) implies k <= h by {
            if k != h {
                assert(rest.contains_key(k));
            }
        }
        assert(is_latest(m, h));
    }
}

/// Adding states never changes what was trusted before: trust is append-only.
pub proof fn lemma_with_states_keeps(m: Map<Height, LightBlock>, states: Seq<LightBlock>)
    requires
        admits_all(m, states),
    ensures
        forall|h: Height| m.contains_key(h) ==> with_states(m, states).contains_key(h),
        forall|h: Height| m.contains_key(h) ==> #[trigger] with_states(m, states)[h] == m[h],
        keyed_by_height(m) ==> keyed_by_height(with_states(m, states)),
    decreases states.len(),
{
    if states.len() > 0 {
        let front = states.drop_last();
        let n = states.len() - 1;
        assert forall|i: int| 0 <= i < front.len() implies admits(
            with_states(m, front.take(i)),
            #[trigger] front[i],
        ) by {
            assert(front.take(i) =~= states.take(i));
            assert(front[i] == states[i]);
        }
        lemma_with_states_keeps(m, front);
        assert(states.take(n) =~= front);
        assert(admits(with_states(m, front), states[n]));
    }
}

/// The table of trusted states.
#[derive(Debug)]
pub struct TrustedStore {
    store: HashMap<Height, LightBlock>,
    latest: Option<Height>,
}

impl View for TrustedStore {
    type V = Map<Height, LightBlock>;

    closed spec fn view(&self) -> Map<Height, LightBlock> {
        self.store@
    }
}

impl TrustedStore {
    /// Every entry sits at its own height, and `latest` is the trust anchor.
    #[verifier::type_invariant]
    pub closed spec fn wf(&self) -> bool {
        &&& keyed_by_height(self.store@)
        &&& self.latest == latest(self.store@)
    }

    /// An empty store.
    pub fn new() -> (s: Self)
        ensures
            s@ == Map::<Height, LightBlock>::empty(),
    {
        let store: HashMap<Height, LightBlock> = HashMap::new();
        proof {
            lemma_latest_of_empty(store@);
        }
        Self { store, latest: None }
    }

    /// The trusted state at `height`, if that height is trusted.
    pub fn get(&self, height: Height) -> (r: Option<&LightBlock>)
        ensures
            r == (match lookup(self@, height) {
                Some(state) => Some(&state),
                None => None,
            }),
            r matches Some(state) ==> state.height == height,
    {
        broadcast use vstd::std_specs::hash::group_hash_axioms;

        proof {
            use_type_invariant(self);
        }
        self.store.get(&height)
    }

    /// The trust anchor: the greatest trusted height, if any height is trusted.
    pub fn latest_height(&self) -> (r: Option<Height>)
        ensures
            r == latest(self@),
    {
        proof {
            use_type_invariant(self);
        }
        self.latest
    }

    /// Adds `trusted_state` at its own height. A height that is already
    /// trusted can only be given the state it has.
    pub fn add(&mut self, trusted_state: LightBlock)
        requires
            admits(old(self)@, trusted_state),
        ensures
            final(self)@ == old(self)@.insert(trusted_state.height, trusted_state),
    {
        broadcast use vstd::std_specs::hash::group_hash_axioms;

        let mut taken = TrustedStore::new();
        std::mem::swap(self, &mut taken);
        proof {
            use_type_invariant(&taken);
            lemma_latest_bounds(taken.store@);
        }
        let TrustedStore { store, latest: anchor } = taken;
        let mut store = store;
        let height = trusted_state.height;
        let anchor_after = match anchor {
            Some(l) => if l < height {
                height
            } else {
                l
            },
            None => height,
        };
        let ghost before = store@;
        store.insert(height, trusted_state);
        proof {
            assert(store@ == before.insert(height, trusted_state));
            assert(anchor is None ==> forall|k: Height| !before.contains_key(k)) by {
                if anchor is None && exists|k: Height| before.contains_key(k) {
                    lemma_has_latest(before);
                }
            }
            assert(is_latest(store@, anchor_after));
            lemma_latest_is(store@, anchor_after);
        }
        *self = TrustedStore { store, latest: Some(anchor_after) };
    }

    /// Splits the store into a reader and the one reader-writer. Both are
    /// handles on one shared table, which starts as this store.
    pub fn split(self) -> (handles: (TSReader, TSReadWriter))
        ensures
            handles.1@ == self@,
            handles.0.reads(&handles.1),
    {
        let table = Arc::new(self);
        let ts = Arc::new(new_cell(table.clone()));
        let reader = TSReader { ts: ts.clone() };
        let writer = TSReadWriter { ts, table };
        (reader, writer)
    }
}

impl Default for TrustedStore {
    fn default() -> (s: Self)
        ensures
            s@ == Map::<Height, LightBlock>::empty(),
    {
        TrustedStore::new()
    }
}

impl Clone for TrustedStore {
    fn clone(&self) -> (s: Self)
        ensures
            s@ == self@,
    {
        proof {
            use_type_invariant(self);
        }
        Self { store: self.store.clone(), latest: self.latest }
    }
}

/// `std::sync::RwLock`, as a value that verified code only passes on.
#[verifier::external_type_specification]
#[verifier::external_body]
#[verifier::reject_recursive_types(T)]
pub struct ExRwLock<T: ?Sized>(std::sync::RwLock<T>);

/// `RwLock::new`: a lock that holds `table`. Nothing is claimed of it.
#[verifier::external_body]
fn new_cell(table: Arc<TrustedStore>) -> RwLock<Arc<TrustedStore>> {
    RwLock::new(table)
}

/// `RwLock::read`: the table that `cell` holds at the moment of the call.
/// Which table that is depends on what the writer has put there, so no
/// clause says what it holds. It is a table that `new_cell` or `replace` put
/// there, so one that verified code built, and the invariant of
/// `TrustedStore` is taken to hold of it. A poisoned lock is read all the
/// same. The guard is dropped before the call returns: no caller holds the
/// lock while it takes it again.
#[verifier::external_body]
fn load(cell: &RwLock<Arc<TrustedStore>>) -> Arc<TrustedStore> {
    match cell.read() {
        Ok(guard) => Arc::clone(&guard),
        Err(poisoned) => Arc::clone(&poisoned.into_inner()),
    }
}

/// `RwLock::write`: puts `table` in `cell`, in one step for every reader. A
/// poisoned lock is written all the same. The guard is dropped before the
/// call returns.
#[verifier::external_body]
fn replace(cell: &RwLock<Arc<TrustedStore>>, table: Arc<TrustedStore>) {
    match cell.write() {
        Ok(mut guard) => {
            *guard = table;
        },
        Err(poisoned) => {
            *poisoned.into_inner() = table;
        },
    }
}

/// A read-only handle on the shared table. It follows the table: each read
/// sees what the writer has added up to then. So what a read returns is not
/// a function of the handle, and its contract states only what holds of
/// every table.
#[derive(Debug)]
pub struct TSReader {
    ts: Arc<RwLock<Arc<TrustedStore>>>,
}

impl Clone for TSReader {
    fn clone(&self) -> (r: Self)
        ensures
            r == *self,
    {
        TSReader { ts: self.ts.clone() }
    }
}

impl TSReader {
    /// This reader and `writer` are handles on one shared table.
    pub closed spec fn reads(&self, writer: &TSReadWriter) -> bool {
        self.ts == writer.ts
    }

    /// The trusted state at `height` in the table as it is now, if that
    /// height is trusted.
    pub fn get(&self, height: Height) -> (r: Option<LightBlock>)
        ensures
            r matches Some(state) ==> state.height == height,
    {
        let table = load(&self.ts);
        match table.get(height) {
            Some(state) => Some(*state),
            None => None,
        }
    }

    /// The trusted state at `height` and the trust anchor, both of the
    /// table as it is at one moment.
    pub fn read_at(&self, height: Height) -> (r: (Option<LightBlock>, Option<Height>))
        ensures
            exists|table: Map<Height, LightBlock>|
                keyed_by_height(table) && r.0 == #[trigger] lookup(table, height) && r.1 == latest(
                    table,
                ),
    {
        let table = load(&self.ts);
        let found = match table.get(height) {
            Some(state) => Some(*state),
            None => None,
        };
        let anchor = table.latest_height();
        proof {
            use_type_invariant(&*table);
            assert(found == lookup(table@, height));
        }
        (found, anchor)
    }
}

/// The read-write handle. There is one per store; it alone adds states, so
/// the table is what this handle has made it.
#[derive(Debug)]
pub struct TSReadWriter {
    ts: Arc<RwLock<Arc<TrustedStore>>>,
    table: Arc<TrustedStore>,
}

impl View for TSReadWriter {
    type V = Map<Height, LightBlock>;

    closed spec fn view(&self) -> Map<Height, LightBlock> {
        self.table@
    }
}

impl TSReadWriter {
    /// The trusted state at `height`, if that height is trusted.
    pub fn get(&self, height: Height) -> (r: Option<LightBlock>)
        ensures
            r == lookup(self@, height),
            r matches Some(state) ==> state.height == height,
    {
        match self.table.get(height) {
            Some(state) => Some(*state),
            None => None,
        }
    }

    /// The trust anchor of the table.
    pub fn latest_height(&self) -> (r: Option<Height>)
        ensures
            r == latest(self@),
    {
        self.table.latest_height()
    }

    /// The trusted state at `height` and the trust anchor.
    pub fn read_at(&self, height: Height) -> (r: (Option<LightBlock>, Option<Height>))
        ensures
            r.0 == lookup(self@, height),
            r.1 == latest(self@),
            keyed_by_height(self@),
    {
        proof {
            use_type_invariant(&*self.table);
        }
        (self.get(height), self.latest_height())
    }

    /// Adds `trusted_state` at its own height. Every reader of the shared
    /// table finds it from then on.
    pub fn add(&mut self, trusted_state: LightBlock)
        requires
            admits(old(self)@, trusted_state),
        ensures
            final(self)@ == old(self)@.insert(trusted_state.height, trusted_state),
            forall|reader: TSReader| reader.reads(old(self)) ==> reader.reads(final(self)),
    {
        let mut table = (*self.table).clone();
        table.add(trusted_state);
        self.table = Arc::new(table);
        replace(&self.ts, self.table.clone());
    }

    /// Adds `trusted_states`, first to last. Readers of the shared table see
    /// none of them or all.
    pub fn add_all(&mut self, trusted_states: &Vec<LightBlock>)
        requires
            admits_all(old(self)@, trusted_states@),
        ensures
            final(self)@ == with_states(old(self)@, trusted_states@),
            forall|reader: TSReader| reader.reads(old(self)) ==> reader.reads(final(self)),
    {
        let mut table = (*self.table).clone();
        let mut i: usize = 0;
        while i < trusted_states.len()
            invariant
                i <= trusted_states.len(),
                admits_all(self@, trusted_states@),
                table@ == with_states(self@, trusted_states@.take(i as int)),
            decreases trusted_states.len() - i,
        {
            let state = trusted_states[i];
            table.add(state);
            proof {
                let upto = trusted_states@.take(i + 1);
                assert(upto.drop_last() =~= trusted_states@.take(i as int));
                assert(upto.last() == state);
            }
            i += 1;
        }
        proof {
            assert(trusted_states@.take(i as int) =~= trusted_states@);
        }
        self.table = Arc::new(table);
        replace(&self.ts, self.table.clone());
    }

    /// Another reader of the shared table.
    pub fn reader(&self) -> (r: TSReader)
        ensures
            r.reads(self),
    {
        TSReader { ts: self.ts.clone() }
    }
}

/// What a demuxer owns besides its two capabilities: the two handles of the
/// trusted store, and the blocks it has seen come back from the capabilities.
#[derive(Debug)]
pub struct State {
    pub trusted_store_reader: TSReader,
    pub trusted_store_writer: TSReadWriter,
    /// Every state that the verifier has returned, oldest first.
    pub valid: Vec<LightBlock>,
    /// Every block that has been fetched, oldest first.
    pub fetched: Vec<LightBlock>,
}

impl State {
    /// A state around the two handles, with nothing seen yet.
    pub fn new(trusted_store_reader: TSReader, trusted_store_writer: TSReadWriter) -> (state: State)
        ensures
            state.trusted_store_reader == trusted_store_reader,
            state.trusted_store_writer == trusted_store_writer,
            state.valid@ == Seq::<LightBlock>::empty(),
            state.fetched@ == Seq::<LightBlock>::empty(),
    {
        State {
            trusted_store_reader,
            trusted_store_writer,
            valid: Vec::new(),
            fetched: Vec::new(),
        }
    }

    /// The table of trusted states, as the writer has made it.
    pub open spec fn trusted(&self) -> Map<Height, LightBlock> {
        self.trusted_store_writer@
    }

    /// A reader of the trusted store: a handle on the table that the reader
    /// of this state reads.
    pub fn trusted_store_reader(&self) -> (r: TSReader)
        ensures
            r == self.trusted_store_reader,
    {
        self.trusted_store_reader.clone()
    }

    /// Commits `trusted_states` to the trusted store, first to last.
    pub fn add_trusted_states(&mut self, trusted_states: Vec<LightBlock>)
        requires
            admits_all(old(self).trusted(), trusted_states@),
        ensures
            final(self).trusted() == with_states(old(self).trusted(), trusted_states@),
            final(self).trusted_store_reader == old(self).trusted_store_reader,
            final(self).trusted_store_reader.reads(&old(self).trusted_store_writer)
                ==> final(self).trusted_store_reader.reads(&final(self).trusted_store_writer),
            final(self).valid@ == old(self).valid@,
            final(self).fetched@ == old(self).fetched@,
    {
        self.trusted_store_writer.add_all(&trusted_states);
    }

    /// Records that the verifier has returned `light_block`.
    pub fn add_valid_light_block(&mut self, light_block: LightBlock)
        ensures
            final(self).valid@ == old(self).valid@.push(light_block),
            final(self).fetched@ == old(self).fetched@,
            final(self).trusted_store_writer == old(self).trusted_store_writer,
            final(self).trusted_store_reader == old(self).trusted_store_reader,
    {
        self.valid.push(light_block);
    }

    /// Records that `light_block` has been fetched.
    pub fn add_fetched_light_block(&mut self, light_block: LightBlock)
        ensures
            final(self).fetched@ == old(self).fetched@.push(light_block),
            final(self).valid@ == old(self).valid@,
            final(self).trusted_store_writer == old(self).trusted_store_writer,
            final(self).trusted_store_reader == old(self).trusted_store_reader,
    {
        self.fetched.push(light_block);
    }
}

} // verus!
