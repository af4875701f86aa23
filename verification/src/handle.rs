//! The lifetime and sharing discipline of one engine-managed resource.
//!
//! The engine hands out an address-like token for every resource it creates
//! and expects exactly one matching destruction call. A model resource is
//! shared: any number of holders, on any threads, may reference it, and the
//! destruction call must be made by the last holder and by nobody else.
//! `HandleAccount` is the ledger of that discipline: it records the token,
//! how many references are alive, and whether the resource has been freed,
//! and its operations say exactly when the destruction call is owed.

use vstd::prelude::*;

use crate::Error;

verus! {

/// The ledger of one shared engine resource: its token, the number of live
/// references, and whether the one destruction call has been made.
#[derive(Debug, Clone, PartialEq, Eq)]
pub struct HandleAccount {
    token: u64,
    refs: u64,
    freed: bool,
}

/// The account after one more reference is taken.
pub closed spec fn shared(a: HandleAccount) -> HandleAccount {
    HandleAccount { token: a.token, refs: (a.refs + 1) as u64, freed: a.freed }
}

/// The account after one reference is given up; the flag says whether that
/// release was the last one, the one that owes the engine a destruction call.
pub closed spec fn released(a: HandleAccount) -> (HandleAccount, bool) {
    if a.refs == 1 {
        (HandleAccount { token: a.token, refs: 0, freed: true }, true)
    } else {
        (HandleAccount { token: a.token, refs: (a.refs - 1) as u64, freed: a.freed }, false)
    }
}

/// What taking a reference does to the ledger: one more reference, the same
/// token, the same freed mark.
pub proof fn lemma_shared_fields(a: HandleAccount)
    requires
        a.spec_refs() < u64::MAX,
    ensures
        shared(a).spec_token() == a.spec_token(),
        shared(a).spec_refs() == a.spec_refs() + 1,
        shared(a).spec_freed() == a.spec_freed(),
{
}

/// What giving a reference up does to the ledger: one reference fewer, the
/// same token, and the freed mark set exactly when the last reference went.
pub proof fn lemma_released_fields(a: HandleAccount)
    requires
        a.spec_refs() >= 1,
        !a.spec_freed(),
    ensures
        released(a).0.spec_token() == a.spec_token(),
        released(a).0.spec_refs() == a.spec_refs() - 1,
        released(a).1 <==> a.spec_refs() == 1,
        released(a).0.spec_freed() <==> released(a).1,
{
}

impl HandleAccount {
    /// The engine token this account keeps book for.
    pub closed spec fn spec_token(self) -> u64 {
        self.token
    }

    /// How many references are alive.
    pub closed spec fn spec_refs(self) -> u64 {
        self.refs
    }

    /// Whether the destruction call has been made.
    pub closed spec fn spec_freed(self) -> bool {
        self.freed
    }

    /// A sound account: the engine never hands out the null token for a
    /// valid resource, and the resource is freed exactly when no reference
    /// is left.
    pub open spec fn well_formed(self) -> bool {
        &&& self.spec_token() != 0
        &&& (self.spec_freed() <==> self.spec_refs() == 0)
    }

    /// A resource that may still be handed to the engine: at least one
    /// reference is alive and the resource has not been freed.
    pub open spec fn live(self) -> bool {
        &&& self.spec_refs() >= 1
        &&& !self.spec_freed()
    }

    /// Opens an account for the token an engine construction call returned.
    /// The engine signals a failed construction with the null token, and
    /// that is the one recoverable error of setting an engine up.
    pub fn try_new(token: u64) -> (r: Result<HandleAccount, Error>)
        ensures
            token == 0 <==> r is Err,
            r is Err ==> r == Err::<HandleAccount, Error>(Error::NoValidModel),
            r is Ok ==> {
                let a = r.unwrap();
                &&& a.well_formed()
                &&& a.live()
                &&& a.spec_token() == token
                &&& a.spec_refs() == 1
            },
    {
        if token == 0 {
            Err(Error::NoValidModel)
        } else {
            Ok(HandleAccount { token, refs: 1, freed: false })
        }
    }

    /// Takes one more reference to the resource.
    pub fn share(&mut self)
        requires
            old(self).live(),
            old(self).spec_refs() < u64::MAX,
        ensures
            *final(self) == shared(*old(self)),
            final(self).live(),
            old(self).well_formed() ==> final(self).well_formed(),
    {
        self.refs = self.refs + 1;
    }

    /// Gives one reference up. Returns true exactly when this release was
    /// the last one, so that the caller owes the engine the single
    /// destruction call for the resource.
    pub fn release(&mut self) -> (freed_now: bool)
        requires
            old(self).live(),
        ensures
            (*final(self), freed_now) == released(*old(self)),
            freed_now <==> old(self).spec_refs() == 1,
            freed_now <==> final(self).spec_freed(),
            final(self).spec_refs() == old(self).spec_refs() - 1,
            final(self).spec_token() == old(self).spec_token(),
            old(self).well_formed() ==> final(self).well_formed(),
    {
        self.refs = self.refs - 1;
        if self.refs == 0 {
            self.freed = true;
            true
        } else {
            false
        }
    }

    /// Whether the resource may still be handed to the engine.
    pub fn usable(&self) -> (r: bool)
        ensures
            r == self.live(),
    {
        self.refs >= 1 && !self.freed
    }

    /// The token to hand to engine calls; only a live resource has one.
    pub fn token(&self) -> (r: u64)
        requires
            self.live(),
        ensures
            r == self.spec_token(),
    {
        self.token
    }
}

/// One bookkeeping step: a reference is taken or a reference is given up.
pub enum HandleOp {
    Share,
    Release,
}

/// Whether a sequence of bookkeeping steps is permitted from the given
/// account: a share needs a live resource with room in the counter, and a
/// release needs a live resource.
pub open spec fn trace_permitted(a: HandleAccount, ops: Seq<HandleOp>) -> bool
    decreases ops.len(),
{
    ops.len() == 0 || {
        let next = match ops[0] {
            HandleOp::Share => shared(a),
            HandleOp::Release => released(a).0,
        };
        &&& a.live()
        &&& (ops[0] is Share ==> a.spec_refs() < u64::MAX)
        &&& trace_permitted(next, ops.drop_first())
    }
}

/// The account a sequence of bookkeeping steps leaves behind.
pub open spec fn trace_result(a: HandleAccount, ops: Seq<HandleOp>) -> HandleAccount
    decreases ops.len(),
{
    if ops.len() == 0 {
        a
    } else {
        let next = match ops[0] {
            HandleOp::Share => shared(a),
            HandleOp::Release => released(a).0,
        };
        trace_result(next, ops.drop_first())
    }
}

/// How many of the steps freed the resource, that is, how many destruction
/// calls the trace as a whole owes the engine.
pub open spec fn trace_frees(a: HandleAccount, ops: Seq<HandleOp>) -> nat
    decreases ops.len(),
{
    if ops.len() == 0 {
        0
    } else {
        match ops[0] {
            HandleOp::Share => trace_frees(shared(a), ops.drop_first()),
            HandleOp::Release => {
                let (next, freed_now) = released(a);
                (if freed_now { 1nat } else { 0nat }) + trace_frees(next, ops.drop_first())
            },
        }
    }
}

/// Law: whatever permitted mixture of shares and releases the holders of a
/// resource perform, the destruction call is owed at most once; it is owed
/// exactly once when the trace ends with no reference left, and not at all
/// while a reference survives. No double release, no leak.
pub proof fn lemma_trace_frees_exactly_once(a: HandleAccount, ops: Seq<HandleOp>)
    requires
        a.well_formed(),
        a.live(),
        trace_permitted(a, ops),
    ensures
        trace_frees(a, ops) <= 1,
        trace_result(a, ops).spec_refs() == 0 <==> trace_frees(a, ops) == 1,
        trace_result(a, ops).spec_freed() <==> trace_frees(a, ops) == 1,
    decreases ops.len(),
{
    if ops.len() > 0 {
        match ops[0] {
            HandleOp::Share => {
                lemma_trace_frees_exactly_once(shared(a), ops.drop_first());
            },
            HandleOp::Release => {
                let (next, freed_now) = released(a);
                if freed_now {
                    lemma_dead_trace_is_empty(next, ops.drop_first());
                } else {
                    lemma_trace_frees_exactly_once(next, ops.drop_first());
                }
            },
        }
    }
}

/// Once the resource is freed no further step is permitted, so nothing more
/// can happen to a dead account.
proof fn lemma_dead_trace_is_empty(a: HandleAccount, ops: Seq<HandleOp>)
    requires
        !a.live(),
        trace_permitted(a, ops),
    ensures
        ops.len() == 0,
        trace_frees(a, ops) == 0,
        trace_result(a, ops) == a,
{
}

/// Law: a resource stays usable as long as one reference survives. In
/// particular, taking a share and then giving the original reference up
/// leaves a live account for the same token: the surviving holder may still
/// build decoders against the resource.
pub proof fn lemma_share_outlives_release(a: HandleAccount)
    requires
        a.well_formed(),
        a.live(),
        a.spec_refs() < u64::MAX,
    ensures
        released(shared(a)).0.live(),
        !released(shared(a)).0.spec_freed(),
        !released(shared(a)).1,
        released(shared(a)).0.spec_token() == a.spec_token(),
{
}

} // verus!
