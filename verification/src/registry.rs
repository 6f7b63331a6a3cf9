//! The kitty registry: identifier allocation, the asset map and its
//! relationship graph (parents, children, spouses), the ownership index,
//! the event log, and the create / breed / transfer call handlers with
//! their currency stakes.
//!
//! Every call handler is all-or-nothing: it either commits all of its
//! writes and appends one event, or returns an error with the state
//! exactly as it was.

use crate::genome::{blake2_128_of, combine_genome, random_payload, random_value, spec_combine_dna, Kitty};
use crate::ledger::{Ledger, LedgerError};
use crate::seq_facts::{lemma_push_contains, lemma_push_unique, lemma_remove_contains, unique};
use vstd::pervasive::VecAdditionalExecFns;
use vstd::prelude::*;

verus! {

/// The stake reserved against an account for each asset it creates or
/// breeds, in currency units.
pub const STAKE: u64 = 1000;

/// A call-level failure. The whole call aborts and nothing is persisted.
#[derive(Clone, Copy, Debug, PartialEq, Eq, Structural)]
pub enum KittyError {
    /// The identifier space is exhausted.
    CountOverflow,
    /// A referenced id has no registry entry.
    InvalidKittyId,
    /// The caller is not the recorded owner of a referenced id.
    RequireOwner,
    /// Sender and recipient of a transfer are identical.
    TransferToSelf,
    /// Breeding was attempted with two identical ids.
    RequireDifferentParent,
    /// A currency-layer failure, propagated verbatim.
    Currency(LedgerError),
}

/// An entry of the observable event log: one per successful call, never
/// retracted.
#[derive(Clone, Copy, Debug, PartialEq, Eq, Structural)]
pub enum Event {
    /// `Created(owner, id)`: a create or breed call made `id` for `owner`.
    Created(u64, u32),
    /// `Transferred(from, to, id)`: ownership of `id` moved from `from` to `to`.
    Transferred(u64, u64, u32),
}

/// The byte-wise combination of two genomes under a selector.
pub open spec fn spec_combine_genome(g1: Seq<u8>, g2: Seq<u8>, selector: Seq<u8>) -> Seq<u8> {
    Seq::new(g1.len(), |i: int| spec_combine_dna(g1[i], g2[i], selector[i]))
}

/// The registry state: constructed once over a ledger, then mutated only
/// through the call handlers.
pub struct KittyModule {
    kitties: Vec<Kitty>,
    owners: Vec<u64>,
    parents: Vec<Option<(u32, u32)>>,
    owned: Vec<(u64, u32)>,
    children: Vec<(u32, u32)>,
    spouses: Vec<(u32, u32)>,
    ledger: Ledger,
    events: Vec<Event>,
}

impl KittyModule {
    /// The number of assets ever created, which is also the next id to
    /// allocate.
    pub closed spec fn count(self) -> int {
        self.kitties@.len() as int
    }

    /// The genome of asset `id`.
    pub closed spec fn genome_of(self, id: u32) -> Seq<u8> {
        self.kitties@[id as int].0@
    }

    /// The recorded owner of asset `id`.
    pub closed spec fn owner_of(self, id: u32) -> u64 {
        self.owners@[id as int]
    }

    /// The recorded parent pair of asset `id`; `None` for a non-bred asset.
    pub closed spec fn parents_of(self, id: u32) -> Option<(u32, u32)> {
        self.parents@[id as int]
    }

    /// Membership of `(account, id)` in the ownership index.
    pub closed spec fn owns(self, account: u64, id: u32) -> bool {
        self.owned@.contains((account, id))
    }

    /// Membership of `(parent, child)` in the child-edge set.
    pub closed spec fn has_child_edge(self, parent: u32, child: u32) -> bool {
        self.children@.contains((parent, child))
    }

    /// Membership of `(a, b)` in the spouse-edge set.
    pub closed spec fn has_spouse_edge(self, a: u32, b: u32) -> bool {
        self.spouses@.contains((a, b))
    }

    /// The event log.
    pub closed spec fn log(self) -> Seq<Event> {
        self.events@
    }

    /// The currency ledger.
    pub closed spec fn ledger_view(self) -> Ledger {
        self.ledger
    }

    /// Well-formedness: every asset has exactly one owner entry, the
    /// ownership index mirrors the owner map, parent edges point strictly
    /// backwards to two distinct assets, and the child and spouse edge sets
    /// hold exactly the edges of the bred assets.
    pub closed spec fn wf(self) -> bool {
        &&& self.owners@.len() == self.kitties@.len()
        &&& self.parents@.len() == self.kitties@.len()
        &&& self.kitties@.len() <= u32::MAX
        &&& unique(self.owned@)
        &&& (forall|p: (u64, u32)|
            #[trigger] self.owned@.contains(p) ==> (p.1 as int) < self.count()
                && self.owners@[p.1 as int] == p.0)
        &&& (forall|id: u32|
            (id as int) < self.count() ==> #[trigger] self.owned@.contains(
                (self.owners@[id as int], id),
            ))
        &&& (forall|i: int|
            0 <= i < self.count() ==> match #[trigger] self.parents@[i] {
                Some(pq) => pq.0 != pq.1 && (pq.0 as int) < i && (pq.1 as int) < i,
                None => true,
            })
        &&& unique(self.children@)
        &&& (forall|e: (u32, u32)|
            #[trigger] self.children@.contains(e) ==> (e.1 as int) < self.count()
                && match self.parents@[e.1 as int] {
                Some(pq) => e.0 == pq.0 || e.0 == pq.1,
                None => false,
            })
        &&& unique(self.spouses@)
        &&& (forall|e: (u32, u32)|
            #[trigger] self.spouses@.contains(e) ==> exists|i: int|
                0 <= i < self.count() && (#[trigger] self.parents@[i] == Some((e.0, e.1))
                    || self.parents@[i] == Some((e.1, e.0))))
        &&& (forall|i: int|
            0 <= i < self.count() ==> match #[trigger] self.parents@[i] {
                Some(pq) => {
                    &&& self.children@.contains((pq.0, i as u32))
                    &&& self.children@.contains((pq.1, i as u32))
                    &&& self.spouses@.contains(pq)
                    &&& self.spouses@.contains((pq.1, pq.0))
                },
                None => true,
            })
        &&& self.ledger.wf()
    }

    /// A fresh registry over `ledger`: no assets, no edges, no events.
    pub fn new(ledger: Ledger) -> (r: KittyModule)
        requires
            ledger.wf(),
        ensures
            r.wf(),
            r.count() == 0,
            r.log() =~= Seq::<Event>::empty(),
            r.ledger_view() == ledger,
            forall|a: u64, id: u32| !r.owns(a, id),
            forall|a: u32, b: u32| !r.has_child_edge(a, b) && !r.has_spouse_edge(a, b),
    {
        KittyModule {
            kitties: Vec::new(),
            owners: Vec::new(),
            parents: Vec::new(),
            owned: Vec::new(),
            children: Vec::new(),
            spouses: Vec::new(),
            ledger,
            events: Vec::new(),
        }
    }

    /// The number of assets ever created.
    pub fn kitties_count(&self) -> (r: u32)
        requires
            self.wf(),
        ensures
            r as int == self.count(),
    {
        self.kitties.len() as u32
    }

    /// The genome of asset `kitty_id`, if it exists.
    pub fn kitties(&self, kitty_id: u32) -> (r: Option<Kitty>)
        requires
            self.wf(),
        ensures
            match r {
                Some(k) => (kitty_id as int) < self.count() && k.0@ == self.genome_of(kitty_id),
                None => (kitty_id as int) >= self.count(),
            },
    {
        if (kitty_id as usize) < self.kitties.len() {
            Some(self.kitties[kitty_id as usize])
        } else {
            None
        }
    }

    /// The owner of asset `kitty_id`, if it exists.
    pub fn kitty_owners(&self, kitty_id: u32) -> (r: Option<u64>)
        requires
            self.wf(),
        ensures
            match r {
                Some(a) => (kitty_id as int) < self.count() && a == self.owner_of(kitty_id),
                None => (kitty_id as int) >= self.count(),
            },
    {
        if (kitty_id as usize) < self.owners.len() {
            Some(self.owners[kitty_id as usize])
        } else {
            None
        }
    }

    /// The parent pair of asset `kitty_id`: `None` when the asset does not
    /// exist or was created without parents.
    pub fn kitty_parents(&self, kitty_id: u32) -> (r: Option<(u32, u32)>)
        requires
            self.wf(),
        ensures
            r == if (kitty_id as int) < self.count() {
                self.parents_of(kitty_id)
            } else {
                None::<(u32, u32)>
            },
    {
        if (kitty_id as usize) < self.parents.len() {
            self.parents[kitty_id as usize]
        } else {
            None
        }
    }

    /// Direct membership check on the ownership index.
    pub fn is_owned_by(&self, account: u64, kitty_id: u32) -> (r: bool)
        requires
            self.wf(),
        ensures
            r == self.owns(account, kitty_id),
    {
        let mut k: usize = 0;
        while k < self.owned.len()
            invariant
                k <= self.owned@.len(),
                forall|i: int| 0 <= i < k ==> self.owned@[i] != (account, kitty_id),
            decreases self.owned@.len() - k,
        {
            let e = self.owned[k];
            if e.0 == account && e.1 == kitty_id {
                assert(self.owned@[k as int] == (account, kitty_id));
                return true;
            }
            k += 1;
        }
        false
    }

    /// Membership check on the child-edge set.
    pub fn kitty_children(&self, parent: u32, child: u32) -> (r: bool)
        requires
            self.wf(),
        ensures
            r == self.has_child_edge(parent, child),
    {
        let mut k: usize = 0;
        while k < self.children.len()
            invariant
                k <= self.children@.len(),
                forall|i: int| 0 <= i < k ==> self.children@[i] != (parent, child),
            decreases self.children@.len() - k,
        {
            let e = self.children[k];
            if e.0 == parent && e.1 == child {
                assert(self.children@[k as int] == (parent, child));
                return true;
            }
            k += 1;
        }
        false
    }

    /// Membership check on the spouse-edge set.
    pub fn kitty_spouse(&self, a: u32, b: u32) -> (r: bool)
        requires
            self.wf(),
        ensures
            r == self.has_spouse_edge(a, b),
    {
        let mut k: usize = 0;
        while k < self.spouses.len()
            invariant
                k <= self.spouses@.len(),
                forall|i: int| 0 <= i < k ==> self.spouses@[i] != (a, b),
            decreases self.spouses@.len() - k,
        {
            let e = self.spouses[k];
            if e.0 == a && e.1 == b {
                assert(self.spouses@[k as int] == (a, b));
                return true;
            }
            k += 1;
        }
        false
    }

    /// The event log, oldest first.
    pub fn events(&self) -> (r: &Vec<Event>)
        ensures
            r@ == self.log(),
    {
        &self.events
    }

    /// Whether `e` was ever emitted.
    pub fn has_event(&self, e: Event) -> (r: bool)
        ensures
            r == self.log().contains(e),
    {
        let mut k: usize = 0;
        while k < self.events.len()
            invariant
                k <= self.events@.len(),
                forall|i: int| 0 <= i < k ==> self.events@[i] != e,
            decreases self.events@.len() - k,
        {
            if self.events[k] == e {
                assert(self.events@[k as int] == e);
                return true;
            }
            k += 1;
        }
        false
    }

    /// The currency ledger, for balance inspection.
    pub fn ledger(&self) -> (r: &Ledger)
        ensures
            *r == self.ledger_view(),
    {
        &self.ledger
    }

    /// The next id to allocate: the current count, unless the identifier
    /// space is exhausted.
    pub fn next_kitty_id(&self) -> (r: Result<u32, KittyError>)
        requires
            self.wf(),
        ensures
            self.count() < u32::MAX ==> r == Ok::<u32, KittyError>((self.count() as u32)),
            self.count() == u32::MAX ==> r == Err::<u32, KittyError>(KittyError::CountOverflow),
    {
        let kitty_id = self.kitties.len();
        if kitty_id == u32::MAX as usize {
            Err(KittyError::CountOverflow)
        } else {
            Ok(kitty_id as u32)
        }
    }

    /// The one-step difference between `self` and `post`: asset `id` was
    /// appended with `genome`, `owner` and `parents`, the matching edges
    /// were added, and everything already present is unchanged.
    pub open spec fn inserted(
        self,
        post: KittyModule,
        owner: u64,
        id: u32,
        genome: Seq<u8>,
        parents: Option<(u32, u32)>,
    ) -> bool {
        &&& id as int == self.count()
        &&& post.count() == self.count() + 1
        &&& post.genome_of(id) == genome
        &&& post.owner_of(id) == owner
        &&& post.parents_of(id) == parents
        &&& (forall|k: u32|
            (k as int) < self.count() ==> #[trigger] post.genome_of(k) == self.genome_of(k)
                && post.owner_of(k) == self.owner_of(k) && post.parents_of(k) == self.parents_of(
                k,
            ))
        &&& (forall|a: u64, k: u32|
            #[trigger] post.owns(a, k) <==> (self.owns(a, k) || (a == owner && k == id)))
        &&& (forall|p: u32, c: u32|
            #[trigger] post.has_child_edge(p, c) <==> (self.has_child_edge(p, c) || (
            parents matches Some(pq) && c == id && (p == pq.0 || p == pq.1))))
        &&& (forall|a: u32, b: u32|
            #[trigger] post.has_spouse_edge(a, b) <==> (self.has_spouse_edge(a, b) || (
            parents matches Some(pq) && ((a == pq.0 && b == pq.1) || (a == pq.1 && b
                == pq.0)))))
    }

    /// Store a new asset atomically: genome, advanced count, parent edge,
    /// spouse and child edges when two distinct parents are given, and the
    /// owner records. The caller guarantees a fresh id and valid parents;
    /// there is no error path.
    pub fn insert_kitty(
        &mut self,
        owner: u64,
        kitty_id: u32,
        kitty: Kitty,
        parents: Option<(u32, u32)>,
    )
        requires
            old(self).wf(),
            kitty_id as int == old(self).count(),
            old(self).count() < u32::MAX,
            match parents {
                Some(pq) => pq.0 != pq.1 && (pq.0 as int) < old(self).count() && (pq.1 as int)
                    < old(self).count(),
                None => true,
            },
        ensures
            final(self).wf(),
            old(self).inserted(*final(self), owner, kitty_id, kitty.0@, parents),
            final(self).ledger_view() == old(self).ledger_view(),
            final(self).log() == old(self).log(),
    {
        self.kitties.push(kitty);
        self.owners.push(owner);
        self.parents.push(parents);
        match parents {
            Some(pq) => {
                let (p1, p2) = pq;
                if !self.kitty_spouse_raw(p1, p2) {
                    self.spouses.push((p1, p2));
                    self.spouses.push((p2, p1));
                }
                self.children.push((p1, kitty_id));
                self.children.push((p2, kitty_id));
            },
            None => {},
        }
        self.owned.push((owner, kitty_id));
        proof {
            self.lemma_insert_wf(*old(self), owner, kitty_id, kitty, parents);
        }
    }

    /// How much of the stake the ledger can give back to `account` from its
    /// reserve.
    pub open spec fn unreservable(self, account: u64) -> int {
        if STAKE <= self.ledger_view().reserved_of(account) {
            STAKE as int
        } else {
            self.ledger_view().reserved_of(account) as int
        }
    }

    /// After unreserving, `account`'s free balance covers the stake.
    pub open spec fn can_pay_stake(self, account: u64) -> bool {
        self.ledger_view().free_of(account) + self.unreservable(account) >= STAKE
    }

    /// Crediting the stake to `account` does not overflow its balance.
    pub open spec fn can_receive_stake(self, account: u64) -> bool {
        self.ledger_view().free_of(account) + self.ledger_view().reserved_of(account) + STAKE
            <= u64::MAX
    }

    /// The outcome of `create`, in checking order: identifier exhaustion,
    /// then the stake reserve.
    pub open spec fn create_error(self, sender: u64) -> Option<KittyError> {
        if self.count() == u32::MAX as int {
            Some(KittyError::CountOverflow)
        } else if self.ledger_view().free_of(sender) < STAKE {
            Some(KittyError::Currency(LedgerError::InsufficientBalance))
        } else {
            None
        }
    }

    /// The outcome of `breed`, in checking order: both parents exist, are
    /// distinct, and are owned by the sender; then identifier exhaustion,
    /// then the stake reserve.
    pub open spec fn breed_error(self, sender: u64, kitty_id_1: u32, kitty_id_2: u32) -> Option<
        KittyError,
    > {
        if (kitty_id_1 as int) >= self.count() {
            Some(KittyError::InvalidKittyId)
        } else if (kitty_id_2 as int) >= self.count() {
            Some(KittyError::InvalidKittyId)
        } else if kitty_id_1 == kitty_id_2 {
            Some(KittyError::RequireDifferentParent)
        } else if !self.owns(sender, kitty_id_1) {
            Some(KittyError::RequireOwner)
        } else if !self.owns(sender, kitty_id_2) {
            Some(KittyError::RequireOwner)
        } else if self.count() == u32::MAX as int {
            Some(KittyError::CountOverflow)
        } else if self.ledger_view().free_of(sender) < STAKE {
            Some(KittyError::Currency(LedgerError::InsufficientBalance))
        } else {
            None
        }
    }

    /// The outcome of the ownership-moving part of a transfer, in checking
    /// order: the asset exists, the sender owns it, the sender can pay the
    /// stake over, and the recipient can receive it.
    pub open spec fn do_transfer_error(self, from: u64, to: u64, kitty_id: u32) -> Option<
        KittyError,
    > {
        if (kitty_id as int) >= self.count() {
            Some(KittyError::InvalidKittyId)
        } else if self.owner_of(kitty_id) != from {
            Some(KittyError::RequireOwner)
        } else if !self.can_pay_stake(from) {
            Some(KittyError::Currency(LedgerError::InsufficientBalance))
        } else if !self.can_receive_stake(to) {
            Some(KittyError::Currency(LedgerError::Overflow))
        } else {
            None
        }
    }

    /// The outcome of `transfer`: a self-transfer is rejected before
    /// anything else is looked at.
    pub open spec fn transfer_error(self, sender: u64, to: u64, kitty_id: u32) -> Option<
        KittyError,
    > {
        if to == sender {
            Some(KittyError::TransferToSelf)
        } else {
            self.do_transfer_error(sender, to, kitty_id)
        }
    }

    /// The ledger difference made by reserving the stake against `account`:
    /// the stake moved from its free balance into its reserve.
    pub open spec fn staked(self, post: KittyModule, account: u64) -> bool {
        &&& post.ledger_view().free_of(account) == self.ledger_view().free_of(account) - STAKE
        &&& post.ledger_view().reserved_of(account) == self.ledger_view().reserved_of(account)
            + STAKE
        &&& (forall|b: u64|
            b != account ==> #[trigger] post.ledger_view().free_of(b) == self.ledger_view().free_of(
                b,
            ) && post.ledger_view().reserved_of(b) == self.ledger_view().reserved_of(b))
    }

    /// The ledger difference made by a transfer: the sender's stake is
    /// unreserved (as far as its reserve holds it) and the stake amount is
    /// then paid from the sender's free balance to the recipient's.
    pub open spec fn stake_moved(self, post: KittyModule, from: u64, to: u64) -> bool {
        &&& post.ledger_view().free_of(from) == self.ledger_view().free_of(from)
            + self.unreservable(from) - STAKE
        &&& post.ledger_view().reserved_of(from) == self.ledger_view().reserved_of(from)
            - self.unreservable(from)
        &&& post.ledger_view().free_of(to) == self.ledger_view().free_of(to) + STAKE
        &&& post.ledger_view().reserved_of(to) == self.ledger_view().reserved_of(to)
        &&& (forall|b: u64|
            b != from && b != to ==> #[trigger] post.ledger_view().free_of(b)
                == self.ledger_view().free_of(b) && post.ledger_view().reserved_of(b)
                == self.ledger_view().reserved_of(b))
    }

    /// The registry difference made by moving `kitty_id` from `from` to
    /// `to`: the owner record is rewritten, the ownership index swaps the
    /// one pair, and assets, parent, child and spouse edges stay as they
    /// were.
    pub open spec fn ownership_moved(
        self,
        post: KittyModule,
        from: u64,
        to: u64,
        kitty_id: u32,
    ) -> bool {
        &&& post.count() == self.count()
        &&& (forall|k: u32|
            (k as int) < self.count() ==> #[trigger] post.genome_of(k) == self.genome_of(k)
                && post.parents_of(k) == self.parents_of(k))
        &&& post.owner_of(kitty_id) == to
        &&& (forall|k: u32|
            (k as int) < self.count() && k != kitty_id ==> #[trigger] post.owner_of(k)
                == self.owner_of(k))
        &&& (forall|a: u64, k: u32|
            #[trigger] post.owns(a, k) <==> ((self.owns(a, k) && !(a == from && k == kitty_id))
                || (a == to && k == kitty_id)))
        &&& (forall|p: u32, c: u32|
            #[trigger] post.has_child_edge(p, c) == self.has_child_edge(p, c))
        &&& (forall|a: u32, b: u32|
            #[trigger] post.has_spouse_edge(a, b) == self.has_spouse_edge(a, b))
    }

    /// Two states with the same registry fields agree on every registry
    /// observation; if the ledgers agree too, they agree on
    /// well-formedness.
    proof fn lemma_state_eq(pre: KittyModule, post: KittyModule)
        requires
            post.kitties@ == pre.kitties@,
            post.owners@ == pre.owners@,
            post.parents@ == pre.parents@,
            post.owned@ == pre.owned@,
            post.children@ == pre.children@,
            post.spouses@ == pre.spouses@,
        ensures
            post.count() == pre.count(),
            forall|k: u32| #[trigger] post.genome_of(k) == pre.genome_of(k),
            forall|k: u32| #[trigger] post.owner_of(k) == pre.owner_of(k),
            forall|k: u32| #[trigger] post.parents_of(k) == pre.parents_of(k),
            forall|a: u64, k: u32| #[trigger] post.owns(a, k) == pre.owns(a, k),
            forall|p: u32, c: u32| #[trigger] post.has_child_edge(p, c) == pre.has_child_edge(p, c),
            forall|a: u32, b: u32| #[trigger] post.has_spouse_edge(a, b) == pre.has_spouse_edge(
                a,
                b,
            ),
            post.ledger == pre.ledger ==> (post.wf() <==> pre.wf()),
    {
    }

    /// Create a new asset for `sender`: allocate the next id, reserve the
    /// stake, draw a fresh genome from the block seed, and store the asset
    /// with no parents. All-or-nothing; emits `Created` on success.
    pub fn create(&mut self, sender: u64, seed: &[u8; 32], extrinsic_index: u32) -> (r: Result<
        u32,
        KittyError,
    >)
        requires
            old(self).wf(),
        ensures
            final(self).wf(),
            match r {
                Ok(kitty_id) => {
                    &&& old(self).create_error(sender) is None
                    &&& old(self).inserted(
                        *final(self),
                        sender,
                        kitty_id,
                        blake2_128_of(random_payload(seed@, sender, extrinsic_index)),
                        None::<(u32, u32)>,
                    )
                    &&& old(self).staked(*final(self), sender)
                    &&& final(self).log() == old(self).log().push(Event::Created(sender, kitty_id))
                },
                Err(e) => old(self).create_error(sender) == Some(e) && *final(self) == *old(self),
            },
    {
        let kitty_id = match self.next_kitty_id() {
            Ok(id) => id,
            Err(e) => {
                return Err(e);
            },
        };
        match self.ledger.reserve(sender, STAKE) {
            Ok(_) => {},
            Err(le) => {
                proof {
                    assert(*self == *old(self));
                }
                return Err(KittyError::Currency(le));
            },
        }
        let ghost mid0 = *self;
        let dna = random_value(sender, seed, extrinsic_index);
        self.insert_kitty(sender, kitty_id, Kitty(dna), None);
        let ghost mid1 = *self;
        self.events.push(Event::Created(sender, kitty_id));
        proof {
            Self::lemma_state_eq(*old(self), mid0);
            Self::lemma_state_eq(mid1, *self);
        }
        Ok(kitty_id)
    }

    /// The checks and writes of a breed call, without the event: both
    /// parents must exist, be distinct and be owned by `sender`; then a new
    /// id is allocated, the stake reserved, and the bred asset stored with
    /// the genome combined byte-wise under a fresh random selector.
    pub fn do_breed(
        &mut self,
        sender: u64,
        kitty_id_1: u32,
        kitty_id_2: u32,
        seed: &[u8; 32],
        extrinsic_index: u32,
    ) -> (r: Result<u32, KittyError>)
        requires
            old(self).wf(),
        ensures
            final(self).wf(),
            match r {
                Ok(kitty_id) => {
                    &&& old(self).breed_error(sender, kitty_id_1, kitty_id_2) is None
                    &&& old(self).inserted(
                        *final(self),
                        sender,
                        kitty_id,
                        spec_combine_genome(
                            old(self).genome_of(kitty_id_1),
                            old(self).genome_of(kitty_id_2),
                            blake2_128_of(random_payload(seed@, sender, extrinsic_index)),
                        ),
                        Some((kitty_id_1, kitty_id_2)),
                    )
                    &&& old(self).staked(*final(self), sender)
                    &&& final(self).log() == old(self).log()
                },
                Err(e) => old(self).breed_error(sender, kitty_id_1, kitty_id_2) == Some(e) && *final(self) == *old(self),
            },
    {
        let kitty1 = match self.kitties(kitty_id_1) {
            Some(k) => k,
            None => {
                return Err(KittyError::InvalidKittyId);
            },
        };
        let kitty2 = match self.kitties(kitty_id_2) {
            Some(k) => k,
            None => {
                return Err(KittyError::InvalidKittyId);
            },
        };
        if kitty_id_1 == kitty_id_2 {
            return Err(KittyError::RequireDifferentParent);
        }
        if !self.is_owned_by(sender, kitty_id_1) {
            return Err(KittyError::RequireOwner);
        }
        if !self.is_owned_by(sender, kitty_id_2) {
            return Err(KittyError::RequireOwner);
        }
        let kitty_id = match self.next_kitty_id() {
            Ok(id) => id,
            Err(e) => {
                return Err(e);
            },
        };
        match self.ledger.reserve(sender, STAKE) {
            Ok(_) => {},
            Err(le) => {
                proof {
                    assert(*self == *old(self));
                }
                return Err(KittyError::Currency(le));
            },
        }
        let selector = random_value(sender, seed, extrinsic_index);
        let new_dna = combine_genome(&kitty1.0, &kitty2.0, &selector);
        proof {
            assert(new_dna@ =~= spec_combine_genome(
                kitty1.0@,
                kitty2.0@,
                blake2_128_of(random_payload(seed@, sender, extrinsic_index)),
            ));
        }
        self.insert_kitty(sender, kitty_id, Kitty(new_dna), Some((kitty_id_1, kitty_id_2)));
        Ok(kitty_id)
    }

    /// Breed a new asset from two of the sender's assets and emit `Created`.
    pub fn breed(
        &mut self,
        sender: u64,
        kitty_id_1: u32,
        kitty_id_2: u32,
        seed: &[u8; 32],
        extrinsic_index: u32,
    ) -> (r: Result<u32, KittyError>)
        requires
            old(self).wf(),
        ensures
            final(self).wf(),
            match r {
                Ok(kitty_id) => {
                    &&& old(self).breed_error(sender, kitty_id_1, kitty_id_2) is None
                    &&& old(self).inserted(
                        *final(self),
                        sender,
                        kitty_id,
                        spec_combine_genome(
                            old(self).genome_of(kitty_id_1),
                            old(self).genome_of(kitty_id_2),
                            blake2_128_of(random_payload(seed@, sender, extrinsic_index)),
                        ),
                        Some((kitty_id_1, kitty_id_2)),
                    )
                    &&& old(self).staked(*final(self), sender)
                    &&& final(self).log() == old(self).log().push(Event::Created(sender, kitty_id))
                },
                Err(e) => old(self).breed_error(sender, kitty_id_1, kitty_id_2) == Some(e) && *final(self) == *old(self),
            },
    {
        match self.do_breed(sender, kitty_id_1, kitty_id_2, seed, extrinsic_index) {
            Ok(kitty_id) => {
                let ghost mid = *self;
                self.events.push(Event::Created(sender, kitty_id));
                proof {
                    Self::lemma_state_eq(mid, *self);
                }
                Ok(kitty_id)
            },
            Err(e) => Err(e),
        }
    }

    /// The position of `(account, kitty_id)` in the ownership index.
    fn find_owned(&self, account: u64, kitty_id: u32) -> (r: Option<usize>)
        ensures
            match r {
                Some(i) => i < self.owned@.len() && self.owned@[i as int] == (account, kitty_id),
                None => !self.owned@.contains((account, kitty_id)),
            },
    {
        let mut k: usize = 0;
        while k < self.owned.len()
            invariant
                k <= self.owned@.len(),
                forall|i: int| 0 <= i < k ==> self.owned@[i] != (account, kitty_id),
            decreases self.owned@.len() - k,
        {
            let e = self.owned[k];
            if e.0 == account && e.1 == kitty_id {
                assert(self.owned@[k as int] == (account, kitty_id));
                return Some(k);
            }
            k += 1;
        }
        None
    }

    /// The checks and writes of a transfer call, without the self-transfer
    /// guard and the event: `from` must own the asset; then the stake is
    /// unreserved from `from`, paid over to `to`, and the owner records are
    /// rewritten. All-or-nothing.
    pub fn do_transfer(&mut self, from: u64, to: u64, kitty_id: u32) -> (r: Result<
        (),
        KittyError,
    >)
        requires
            old(self).wf(),
            from != to,
        ensures
            final(self).wf(),
            match r {
                Ok(_) => {
                    &&& old(self).do_transfer_error(from, to, kitty_id) is None
                    &&& old(self).ownership_moved(*final(self), from, to, kitty_id)
                    &&& old(self).stake_moved(*final(self), from, to)
                    &&& final(self).log() == old(self).log()
                },
                Err(e) => old(self).do_transfer_error(from, to, kitty_id) == Some(e) && *final(self)
                    == *old(self),
            },
    {
        let owner = match self.kitty_owners(kitty_id) {
            Some(o) => o,
            None => {
                return Err(KittyError::InvalidKittyId);
            },
        };
        if owner != from {
            return Err(KittyError::RequireOwner);
        }
        let reserved = self.ledger.reserved_balance(from);
        let free = self.ledger.free_balance(from);
        let unres = if STAKE <= reserved {
            STAKE
        } else {
            reserved
        };
        let pay_ok = if unres >= STAKE {
            true
        } else {
            free >= STAKE - unres
        };
        if !pay_ok {
            return Err(KittyError::Currency(LedgerError::InsufficientBalance));
        }
        let to_free = self.ledger.free_balance(to);
        let to_reserved = self.ledger.reserved_balance(to);
        let receive_ok = to_reserved <= u64::MAX - STAKE && to_free <= u64::MAX - STAKE
            - to_reserved;
        if !receive_ok {
            return Err(KittyError::Currency(LedgerError::Overflow));
        }
        let moved = self.ledger.unreserve(from, STAKE);
        match self.ledger.transfer(from, to, STAKE) {
            Ok(_) => {},
            Err(_) => {
                proof {
                    assert(false);
                }
            },
        }
        let idx = match self.find_owned(from, kitty_id) {
            Some(i) => i,
            None => {
                proof {
                    assert(old(self).owns(from, kitty_id));
                    assert(false);
                }
                0
            },
        };
        proof {
            lemma_remove_contains(self.owned@, idx as int);
        }
        self.owned.remove(idx);
        proof {
            lemma_push_contains(self.owned@, (to, kitty_id));
            lemma_push_unique(self.owned@, (to, kitty_id));
        }
        self.owned.push((to, kitty_id));
        self.owners.set(kitty_id as usize, to);
        proof {
            assert forall|a: u64, k: u32| #[trigger] self.owns(a, k) implies ((old(self).owns(a, k)
                && !(a == from && k == kitty_id)) || (a == to && k == kitty_id)) by {}
            assert forall|a: u64, k: u32| ((old(self).owns(a, k) && !(a == from && k == kitty_id))
                || (a == to && k == kitty_id)) implies #[trigger] self.owns(a, k) by {}
            assert(self.wf());
        }
        Ok(())
    }

    /// Transfer ownership of `kitty_id` from `sender` to `to` and emit
    /// `Transferred`. A self-transfer is rejected before anything else.
    pub fn transfer(&mut self, sender: u64, to: u64, kitty_id: u32) -> (r: Result<(), KittyError>)
        requires
            old(self).wf(),
        ensures
            final(self).wf(),
            match r {
                Ok(_) => {
                    &&& old(self).transfer_error(sender, to, kitty_id) is None
                    &&& old(self).ownership_moved(*final(self), sender, to, kitty_id)
                    &&& old(self).stake_moved(*final(self), sender, to)
                    &&& final(self).log() == old(self).log().push(
                        Event::Transferred(sender, to, kitty_id),
                    )
                },
                Err(e) => old(self).transfer_error(sender, to, kitty_id) == Some(e) && *final(self)
                    == *old(self),
            },
    {
        if to == sender {
            return Err(KittyError::TransferToSelf);
        }
        match self.do_transfer(sender, to, kitty_id) {
            Ok(_) => {
                let ghost mid = *self;
                self.events.push(Event::Transferred(sender, to, kitty_id));
                proof {
                    Self::lemma_state_eq(mid, *self);
                }
                Ok(())
            },
            Err(e) => Err(e),
        }
    }

    /// Law: breeding an existing asset with itself always fails with
    /// `RequireDifferentParent`, regardless of who owns it and of the
    /// ledger. (An id with no registry entry fails the existence check
    /// first, as `InvalidKittyId`.)
    pub proof fn lemma_breed_same_parent_rejected(self, sender: u64, kitty_id: u32)
        requires
            (kitty_id as int) < self.count(),
        ensures
            self.breed_error(sender, kitty_id, kitty_id) == Some(
                KittyError::RequireDifferentParent,
            ),
    {
    }

    /// Law: breeding with an id absent from the registry always fails with
    /// `InvalidKittyId`; by `breed`'s contract the state, the asset count
    /// included, is then unchanged.
    pub proof fn lemma_breed_absent_rejected(self, sender: u64, kitty_id_1: u32, kitty_id_2: u32)
        requires
            (kitty_id_1 as int) >= self.count() || (kitty_id_2 as int) >= self.count(),
        ensures
            self.breed_error(sender, kitty_id_1, kitty_id_2) == Some(KittyError::InvalidKittyId),
    {
    }

    /// Law: a transfer to oneself always fails with `TransferToSelf`,
    /// before anything else is looked at; by `transfer`'s contract the
    /// state is then unchanged.
    pub proof fn lemma_transfer_to_self_rejected(self, sender: u64, kitty_id: u32)
        ensures
            self.transfer_error(sender, sender, kitty_id) == Some(KittyError::TransferToSelf),
    {
    }

    /// Law: a transfer of an existing asset by anyone but its recorded
    /// owner fails with `RequireOwner`; by `transfer`'s contract the
    /// ownership of the asset is then unchanged. (A self-transfer fails as
    /// `TransferToSelf` first, and an absent id as `InvalidKittyId`.)
    pub proof fn lemma_transfer_non_owner_rejected(self, sender: u64, to: u64, kitty_id: u32)
        requires
            to != sender,
            (kitty_id as int) < self.count(),
            self.owner_of(kitty_id) != sender,
        ensures
            self.transfer_error(sender, to, kitty_id) == Some(KittyError::RequireOwner),
    {
    }

    /// Law: in every well-formed state — and every call handler both
    /// requires and re-establishes well-formedness — the ownership index
    /// holds exactly the pairs `(account, id)` whose recorded owner is
    /// `account`.
    pub proof fn lemma_ownership_index_matches(self)
        requires
            self.wf(),
        ensures
            forall|a: u64, id: u32|
                #[trigger] self.owns(a, id) <==> ((id as int) < self.count() && self.owner_of(id)
                    == a),
    {
        assert forall|a: u64, id: u32|
            #[trigger] self.owns(a, id) <==> ((id as int) < self.count() && self.owner_of(id)
                == a) by {
            if (id as int) < self.count() && self.owner_of(id) == a {
                assert(self.owned@.contains((self.owners@[id as int], id)));
            }
        }
    }

    /// Membership scan on the spouse set by raw components (no wf needed).
    fn kitty_spouse_raw(&self, a: u32, b: u32) -> (r: bool)
        ensures
            r == self.spouses@.contains((a, b)),
    {
        let mut k: usize = 0;
        while k < self.spouses.len()
            invariant
                k <= self.spouses@.len(),
                forall|i: int| 0 <= i < k ==> self.spouses@[i] != (a, b),
            decreases self.spouses@.len() - k,
        {
            let e = self.spouses[k];
            if e.0 == a && e.1 == b {
                assert(self.spouses@[k as int] == (a, b));
                return true;
            }
            k += 1;
        }
        false
    }

    /// The well-formedness of the post-state of `insert_kitty`, proved from
    /// the sequence-level description of the push operations.
    proof fn lemma_insert_wf(
        self,
        pre: KittyModule,
        owner: u64,
        kitty_id: u32,
        kitty: Kitty,
        parents: Option<(u32, u32)>,
    )
        requires
            pre.wf(),
            kitty_id as int == pre.count(),
            pre.count() < u32::MAX,
            match parents {
                Some(pq) => pq.0 != pq.1 && (pq.0 as int) < pre.count() && (pq.1 as int)
                    < pre.count(),
                None => true,
            },
            self.kitties@ == pre.kitties@.push(kitty),
            self.owners@ == pre.owners@.push(owner),
            self.parents@ == pre.parents@.push(parents),
            self.owned@ == pre.owned@.push((owner, kitty_id)),
            self.ledger == pre.ledger,
            self.events@ == pre.events@,
            match parents {
                Some(pq) => {
                    &&& self.children@ == pre.children@.push((pq.0, kitty_id)).push(
                        (pq.1, kitty_id),
                    )
                    &&& if pre.spouses@.contains(pq) {
                        self.spouses@ == pre.spouses@
                    } else {
                        self.spouses@ == pre.spouses@.push(pq).push((pq.1, pq.0))
                    }
                },
                None => self.children@ == pre.children@ && self.spouses@ == pre.spouses@,
            },
        ensures
            self.wf(),
            pre.inserted(self, owner, kitty_id, kitty.0@, parents),
    {
        lemma_push_contains(pre.owned@, (owner, kitty_id));
        lemma_push_unique(pre.owned@, (owner, kitty_id));
        // ownership index: dir 1
        assert forall|p: (u64, u32)| #[trigger] self.owned@.contains(p) implies (p.1 as int)
            < self.count() && self.owners@[p.1 as int] == p.0 by {
            if pre.owned@.contains(p) {
                assert(self.owners@[p.1 as int] == pre.owners@[p.1 as int]);
            }
        }
        // ownership index: dir 2
        assert forall|id: u32| (id as int) < self.count() implies #[trigger] self.owned@.contains(
            (self.owners@[id as int], id),
        ) by {
            if (id as int) < pre.count() {
                assert(pre.owned@.contains((pre.owners@[id as int], id)));
                assert(self.owners@[id as int] == pre.owners@[id as int]);
            } else {
                assert(self.owners@[id as int] == owner);
            }
        }
        match parents {
            Some(pq) => {
                let (p1, p2) = pq;
                let c1 = pre.children@.push((p1, kitty_id));
                lemma_push_contains(pre.children@, (p1, kitty_id));
                lemma_push_unique(pre.children@, (p1, kitty_id));
                lemma_push_contains(c1, (p2, kitty_id));
                lemma_push_unique(c1, (p2, kitty_id));
                if !pre.spouses@.contains(pq) {
                    if pre.spouses@.contains((p2, p1)) {
                        let i = choose|i: int|
                            0 <= i < pre.count() && (#[trigger] pre.parents@[i] == Some((p2, p1))
                                || pre.parents@[i] == Some((p1, p2)));
                        assert(pre.spouses@.contains((p1, p2)));
                    }
                    lemma_push_contains(pre.spouses@, pq);
                    lemma_push_unique(pre.spouses@, pq);
                    lemma_push_contains(pre.spouses@.push(pq), (p2, p1));
                    lemma_push_unique(pre.spouses@.push(pq), (p2, p1));
                } else {
                    let i = choose|i: int|
                        0 <= i < pre.count() && (#[trigger] pre.parents@[i] == Some((p1, p2))
                            || pre.parents@[i] == Some((p2, p1)));
                    assert(pre.spouses@.contains((p2, p1)));
                }
                // child edges: dir 1
                assert forall|e: (u32, u32)| #[trigger] self.children@.contains(e) implies (
                e.1 as int) < self.count() && match self.parents@[e.1 as int] {
                    Some(pq2) => e.0 == pq2.0 || e.0 == pq2.1,
                    None => false,
                } by {
                    if pre.children@.contains(e) {
                        assert(self.parents@[e.1 as int] == pre.parents@[e.1 as int]);
                    } else {
                        assert(self.parents@[e.1 as int] == parents);
                    }
                }
                // spouse edges: dir 1 (existence of a bred witness)
                assert forall|e: (u32, u32)| #[trigger] self.spouses@.contains(e) implies exists|
                    i: int,
                |
                    0 <= i < self.count() && (#[trigger] self.parents@[i] == Some((e.0, e.1))
                        || self.parents@[i] == Some((e.1, e.0))) by {
                    if pre.spouses@.contains(e) {
                        let i = choose|i: int|
                            0 <= i < pre.count() && (#[trigger] pre.parents@[i] == Some((e.0, e.1))
                                || pre.parents@[i] == Some((e.1, e.0)));
                        assert(self.parents@[i] == pre.parents@[i]);
                        assert(0 <= i < self.count() && (self.parents@[i] == Some((e.0, e.1))
                            || self.parents@[i] == Some((e.1, e.0))));
                    } else {
                        let i = kitty_id as int;
                        assert(self.parents@[i] == Some((p1, p2)));
                        assert(0 <= i < self.count() && (self.parents@[i] == Some((e.0, e.1))
                            || self.parents@[i] == Some((e.1, e.0))));
                    }
                }
                // completeness over all assets
                assert forall|i: int| 0 <= i < self.count() implies match #[trigger] self.parents@[i] {
                    Some(pq2) => {
                        &&& self.children@.contains((pq2.0, i as u32))
                        &&& self.children@.contains((pq2.1, i as u32))
                        &&& self.spouses@.contains(pq2)
                        &&& self.spouses@.contains((pq2.1, pq2.0))
                    },
                    None => true,
                } by {
                    if i < pre.count() {
                        assert(self.parents@[i] == pre.parents@[i]);
                    } else {
                        assert(self.parents@[i] == parents);
                    }
                }
            },
            None => {
                assert forall|e: (u32, u32)| #[trigger] self.children@.contains(e) implies (
                e.1 as int) < self.count() && match self.parents@[e.1 as int] {
                    Some(pq2) => e.0 == pq2.0 || e.0 == pq2.1,
                    None => false,
                } by {
                    assert(pre.children@.contains(e));
                    assert(self.parents@[e.1 as int] == pre.parents@[e.1 as int]);
                }
                assert forall|e: (u32, u32)| #[trigger] self.spouses@.contains(e) implies exists|
                    i: int,
                |
                    0 <= i < self.count() && (#[trigger] self.parents@[i] == Some((e.0, e.1))
                        || self.parents@[i] == Some((e.1, e.0))) by {
                    let i = choose|i: int|
                        0 <= i < pre.count() && (#[trigger] pre.parents@[i] == Some((e.0, e.1))
                            || pre.parents@[i] == Some((e.1, e.0)));
                    assert(self.parents@[i] == pre.parents@[i]);
                    assert(0 <= i < self.count() && (self.parents@[i] == Some((e.0, e.1))
                        || self.parents@[i] == Some((e.1, e.0))));
                }
                assert forall|i: int| 0 <= i < self.count() implies match #[trigger] self.parents@[i] {
                    Some(pq2) => {
                        &&& self.children@.contains((pq2.0, i as u32))
                        &&& self.children@.contains((pq2.1, i as u32))
                        &&& self.spouses@.contains(pq2)
                        &&& self.spouses@.contains((pq2.1, pq2.0))
                    },
                    None => true,
                } by {
                    if i < pre.count() {
                        assert(self.parents@[i] == pre.parents@[i]);
                    } else {
                        assert(self.parents@[i] == parents);
                    }
                }
            },
        }
    }
}

} // verus!
