//! Connection state: the server tells the client which fields have changed,
//! and the client applies the changes to its copy.
//!
//! A state that implements [`ConnectionState`] has all of this from here. For
//! a state whose fields are encoded and decoded elsewhere, [`list_updates`] and
//! [`accept_updates`] decide what is sent and what is taken over.
use vstd::prelude::*;

use crate::client::ClientState;
use crate::compress::optional_bytes;
use crate::wire::{update_views, HandlerResult, RpcHandlerError, StateUpdate};

verus! {

/// A state whose fields are kept in step between server and client.
///
/// Fields have indices from zero. The specification functions say of each
/// field whether it differs between two states, how it is encoded, and what a
/// state becomes when the field is decoded into it; the proof functions are
/// what an implementation owes for the state to arrive.
pub trait ConnectionState: Sized {
    /// The number of fields.
    spec fn width() -> nat;

    /// Whether the field differs from what it is in `start`.
    spec fn changed(self, start: Self, index: int) -> bool;

    /// The encoding of the field.
    spec fn encoded(self, index: int) -> Seq<u8>;

    /// The state with the field taken from `data`, or nothing when `data` does
    /// not decode.
    spec fn decoded(self, index: int, data: Seq<u8>) -> Option<Self>;

    /// The state with the field taken from `from`.
    spec fn merged(self, from: Self, index: int) -> Self;

    /// The number of fields.
    fn field_count() -> (n: usize)
        ensures
            n == Self::width(),
    ;

    /// The encoding of the field, when it differs from what it is in `start`.
    fn field_change(&self, start: &Self, index: usize) -> (r: Option<Vec<u8>>)
        requires
            index < Self::width(),
        ensures
            r is Some <==> self.changed(*start, index as int),
            r matches Some(data) ==> data@ == self.encoded(index as int),
    ;

    /// Takes the field from `data`, or leaves the state as it is when `data`
    /// does not decode.
    fn set_field(&mut self, index: usize, data: &Vec<u8>) -> (ok: bool)
        requires
            index < Self::width(),
        ensures
            match old(self).decoded(index as int, data@) {
                Some(s) => ok && *final(self) == s,
                None => !ok && *final(self) == *old(self),
            },
    ;

    /// The encoding of a field decodes to that field.
    proof fn field_decodes(base: Self, from: Self, index: int)
        requires
            0 <= index < Self::width(),
        ensures
            base.decoded(index, from.encoded(index)) == Some(base.merged(from, index)),
    ;

    /// A field that was taken over does not differ any more.
    proof fn merged_field_agrees(base: Self, from: Self, index: int)
        requires
            0 <= index < Self::width(),
        ensures
            !from.changed(base.merged(from, index), index),
    ;

    /// Decoding a field leaves the others alone, whatever it decodes from.
    proof fn decoded_field_alone(
        base: Self,
        index: int,
        data: Seq<u8>,
        other: int,
        from: Self,
    )
        requires
            0 <= index < Self::width(),
            0 <= other < Self::width(),
        ensures
            index != other ==> (base.decoded(index, data) matches Some(s) ==> from.changed(s, other)
                == from.changed(base, other)),
    ;

    /// States that agree on every field are the same.
    proof fn fields_are_all(base: Self, from: Self)
        requires
            forall|i: int| 0 <= i < Self::width() ==> !from.changed(base, i),
        ensures
            base == from,
    ;
}

/// The updates for the first `n` fields that differ between two states, in the
/// order of the fields.
pub open spec fn changes_upto<S: ConnectionState>(start: S, now: S, n: nat) -> Seq<
    (usize, Seq<u8>),
>
    decreases n,
{
    if n == 0 {
        Seq::empty()
    } else {
        let front = changes_upto(start, now, (n - 1) as nat);
        if now.changed(start, n - 1) {
            front.push(((n - 1) as usize, now.encoded(n - 1)))
        } else {
            front
        }
    }
}

/// The updates for all fields that differ between two states.
pub open spec fn changes<S: ConnectionState>(start: S, now: S) -> Seq<(usize, Seq<u8>)> {
    changes_upto(start, now, S::width())
}

/// The state after applying updates one by one, and whether all of them
/// decoded. An update of a field that the state does not have is passed over;
/// the first update that does not decode ends the matter.
pub open spec fn applied<S: ConnectionState>(state: S, updates: Seq<(usize, Seq<u8>)>) -> (S, bool)
    decreases updates.len(),
{
    if updates.len() == 0 {
        (state, true)
    } else {
        let (before, ok) = applied(state, updates.drop_last());
        let (index, data) = updates.last();
        if !ok || index >= S::width() {
            (before, ok)
        } else {
            match before.decoded(index as int, data) {
                Some(s) => (s, true),
                None => (before, false),
            }
        }
    }
}

/// The views of the encodings of fields, of which only some are there.
pub open spec fn field_views(fields: Seq<Option<Vec<u8>>>) -> Seq<Option<Seq<u8>>> {
    fields.map_values(|f: Option<Vec<u8>>| optional_bytes(f))
}

/// The updates for those of the first `n` fields whose encodings are there, in
/// the order of the fields.
pub open spec fn listed(fields: Seq<Option<Seq<u8>>>, n: nat) -> Seq<(usize, Seq<u8>)>
    decreases n,
{
    if n == 0 {
        Seq::empty()
    } else {
        let front = listed(fields, (n - 1) as nat);
        match fields[n - 1] {
            Some(data) => front.push(((n - 1) as usize, data)),
            None => front,
        }
    }
}

/// Makes the updates for the fields that have changed, given the encodings of
/// these.
pub fn list_updates(fields: Vec<Option<Vec<u8>>>) -> (r: Vec<StateUpdate>)
    ensures
        update_views(r@) == listed(field_views(fields@), fields@.len()),
        forall|k: int|
            0 <= k < r@.len() ==> (#[trigger] r@[k]).index < fields@.len()
                && fields@[r@[k].index as int] is Some && fields@[r@[k].index as int]->0@
                == r@[k].data@,
        forall|k: int, l: int|
            0 <= k < l < r@.len() ==> (#[trigger] r@[k]).index < (#[trigger] r@[l]).index,
        forall|i: int|
            0 <= i < fields@.len() && (#[trigger] fields@[i]) is Some ==> exists|k: int|
                0 <= k < r@.len() && (#[trigger] r@[k]).index == i,
{
    let ghost given = fields@;
    let ghost views = field_views(fields@);
    let mut fields = fields;
    let n: usize = fields.len();
    let mut r: Vec<StateUpdate> = Vec::new();
    let mut i: usize = 0;
    assert(update_views(r@) =~= listed(views, 0));
    while i < n
        invariant
            i <= n,
            n == fields@.len(),
            n == views.len(),
            forall|k: int| i <= k < n ==> views[k] == optional_bytes(#[trigger] fields@[k]),
            update_views(r@) == listed(views, i as nat),
        decreases n - i,
    {
        let ghost before = r@;
        let field = fields[i].take();
        match field {
            Some(data) => {
                r.push(StateUpdate { index: i, data });
                assert(update_views(r@) =~= update_views(before).push((i, data@)));
            },
            None => {},
        }
        i += 1;
    }
    proof {
        listed_are_the_fields_that_are_there(views, n as nat);
        let list = listed(views, n as nat);
        assert forall|k: int| 0 <= k < r@.len() implies (#[trigger] r@[k]).index == list[k].0
            && r@[k].data@ == list[k].1 by {
            assert(update_views(r@)[k] == list[k]);
        }
        assert forall|i: int| 0 <= i < n && (#[trigger] given[i]) is Some implies exists|k: int|
            0 <= k < r@.len() && (#[trigger] r@[k]).index == i by {
            assert(views[i] is Some);
            let k = choose|k: int| 0 <= k < list.len() && (#[trigger] list[k]).0 == i;
            assert(r@[k].index == i);
        }
    }
    r
}

/// The updates that take the client from `start` to `now`.
pub fn diff<S: ConnectionState>(start: &S, now: &S) -> (r: Vec<StateUpdate>)
    ensures
        update_views(r@) == changes(*start, *now),
{
    let n: usize = S::field_count();
    let mut fields: Vec<Option<Vec<u8>>> = Vec::new();
    let mut i: usize = 0;
    while i < n
        invariant
            i <= n,
            n == S::width(),
            fields@.len() == i,
            listed(field_views(fields@), i as nat) == changes_upto(*start, *now, i as nat),
        decreases n - i,
    {
        let ghost before = field_views(fields@);
        fields.push(now.field_change(start, i));
        proof {
            listed_front(before, field_views(fields@), i as nat);
        }
        i += 1;
    }
    list_updates(fields)
}

/// The updates for the first `n` fields do not depend on later fields.
proof fn listed_front(a: Seq<Option<Seq<u8>>>, b: Seq<Option<Seq<u8>>>, n: nat)
    requires
        n <= a.len(),
        n <= b.len(),
        forall|i: int| 0 <= i < n ==> a[i] == b[i],
    ensures
        listed(a, n) == listed(b, n),
    decreases n,
{
    if n > 0 {
        listed_front(a, b, (n - 1) as nat);
    }
}

/// What a client takes over from the first `n` updates, for a state with so
/// many fields, when each has been decoded or has failed to: the values for the
/// fields that the state has, up to the first one that failed; and whether none
/// did.
pub open spec fn accepted<V>(width: usize, updates: Seq<(usize, Option<V>)>, n: nat) -> (
    Seq<V>,
    bool,
)
    decreases n,
{
    if n == 0 {
        (Seq::empty(), true)
    } else {
        let (front, ok) = accepted(width, updates, (n - 1) as nat);
        let (index, value) = updates[n - 1];
        if !ok || index >= width {
            (front, ok)
        } else {
            match value {
                Some(v) => (front.push(v), true),
                None => (front, false),
            }
        }
    }
}

/// Picks what a client takes over from updates that have been decoded or have
/// failed to.
pub fn accept_updates<V>(width: usize, updates: Vec<(usize, Option<V>)>) -> (r: (
    Vec<V>,
    HandlerResult<()>,
))
    ensures
        r.0@ == accepted(width, updates@, updates@.len()).0,
        r.1 == (if accepted(width, updates@, updates@.len()).1 {
            Ok::<(), RpcHandlerError>(())
        } else {
            Err::<(), RpcHandlerError>(RpcHandlerError::BadInputBytes)
        }),
{
    let ghost all = updates@;
    let mut rest = updates;
    let n: usize = rest.len();
    let mut r: Vec<V> = Vec::new();
    let mut i: usize = 0;
    assert(r@ =~= accepted(width, all, 0).0);
    while i < n
        invariant
            i <= n,
            n == rest@.len(),
            n == all.len(),
            forall|k: int| i <= k < n ==> all[k] == #[trigger] rest@[k],
            all == updates@,
            accepted(width, all, i as nat) == (r@, true),
        decreases n - i,
    {
        let index: usize = rest[i].0;
        if index < width {
            match rest[i].1.take() {
                Some(v) => {
                    r.push(v);
                },
                None => {
                    proof {
                        refusal_stays(width, all, (i + 1) as nat);
                    }
                    return (r, Err(RpcHandlerError::BadInputBytes));
                },
            }
        }
        i += 1;
    }
    (r, Ok(()))
}

/// Once an update has failed, later ones are not taken over.
proof fn refusal_stays<V>(width: usize, updates: Seq<(usize, Option<V>)>, n: nat)
    requires
        n <= updates.len(),
        !accepted(width, updates, n).1,
    ensures
        accepted(width, updates, updates.len()) == accepted(width, updates, n),
    decreases updates.len() - n,
{
    if n < updates.len() {
        refusal_stays(width, updates, n + 1);
    }
}

impl<S: ConnectionState> ClientState for S {
    /// Applies updates one by one. The first one that does not decode ends the
    /// matter with an error; what came before it stays applied.
    fn apply_changes(&mut self, changes: Vec<StateUpdate>) -> (r: HandlerResult<()>)
        ensures
            *final(self) == applied(*old(self), update_views(changes@)).0,
            r == (if applied(*old(self), update_views(changes@)).1 {
                Ok::<(), RpcHandlerError>(())
            } else {
                Err::<(), RpcHandlerError>(RpcHandlerError::BadInputBytes)
            }),
    {
        let n: usize = S::field_count();
        let ghost all = update_views(changes@);
        let mut i: usize = 0;
        while i < changes.len()
            invariant
                i <= changes@.len(),
                n == S::width(),
                all == update_views(changes@),
                applied(*old(self), all.take(i as int)) == (*self, true),
            decreases changes@.len() - i,
        {
            let update = &changes[i];
            proof {
                let next = all.take(i + 1);
                assert(next.drop_last() =~= all.take(i as int));
                assert(next.last() == update@);
            }
            if update.index < n {
                if !self.set_field(update.index, &update.data) {
                    proof {
                        failure_stays(*old(self), all, i + 1);
                    }
                    return Err(RpcHandlerError::BadInputBytes);
                }
            }
            i += 1;
        }
        assert(all.take(i as int) =~= all);
        Ok(())
    }
}

/// Once an update has failed, later ones change nothing.
proof fn failure_stays<S: ConnectionState>(state: S, updates: Seq<(usize, Seq<u8>)>, n: int)
    requires
        0 <= n <= updates.len(),
        !applied(state, updates.take(n)).1,
    ensures
        applied(state, updates) == applied(state, updates.take(n)),
    decreases updates.len() - n,
{
    if n == updates.len() {
        assert(updates.take(n) =~= updates);
    } else {
        assert(updates.take(n + 1).drop_last() =~= updates.take(n));
        failure_stays(state, updates, n + 1);
    }
}

/// A state under change on the server, and what it was before.
pub struct StateGuard<S> {
    pub starting_state: S,
    pub state: S,
}

impl<S: ConnectionState> StateGuard<S> {
    /// Ends the change. The client is to be sent the updates, unless nothing
    /// has changed.
    pub fn finish(self) -> (r: (S, Option<Vec<StateUpdate>>))
        ensures
            r.0 == self.state,
            r.1 is None <==> changes(self.starting_state, self.state).len() == 0,
            r.1 matches Some(updates) ==> update_views(updates@) == changes(
                self.starting_state,
                self.state,
            ),
    {
        let updates = diff(&self.starting_state, &self.state);
        if updates.is_empty() {
            (self.state, None)
        } else {
            (self.state, Some(updates))
        }
    }
}

/// A client whose copy is what the state was before a change has what the
/// state is after it, once it has applied the updates.
pub proof fn client_state_arrives<S: ConnectionState>(start: S, now: S)
    requires
        S::width() <= usize::MAX,
    ensures
        applied(start, changes(start, now)) == (now, true),
{
    changes_apply(start, now, S::width());
    let (reached, ok) = applied(start, changes(start, now));
    S::fields_are_all(reached, now);
}

/// A field without an update keeps its value, whatever the other updates hold.
pub proof fn fields_without_update_stay<S: ConnectionState>(
    state: S,
    updates: Seq<(usize, Seq<u8>)>,
    field: int,
    from: S,
)
    requires
        0 <= field < S::width(),
        forall|i: int| 0 <= i < updates.len() ==> (#[trigger] updates[i]).0 != field,
    ensures
        from.changed(applied(state, updates).0, field) == from.changed(state, field),
    decreases updates.len(),
{
    if updates.len() > 0 {
        let front = updates.drop_last();
        assert forall|i: int| 0 <= i < front.len() implies (#[trigger] front[i]).0 != field by {
            assert(front[i] == updates[i]);
        }
        fields_without_update_stay(state, front, field, from);
        let (index, data) = updates.last();
        assert(updates[updates.len() - 1].0 != field);
        if index < S::width() {
            S::decoded_field_alone(applied(state, front).0, index as int, data, field, from);
        }
    }
}

/// What a client's copy is that starts as `states[0]` and takes up, one after
/// the other, the updates of the first `n` changes through `states`.
pub open spec fn followed<S: ConnectionState>(states: Seq<S>, n: nat) -> S
    decreases n,
{
    if n == 0 {
        states[0]
    } else {
        applied(followed(states, (n - 1) as nat), changes(states[n - 1], states[n as int])).0
    }
}

/// A client that takes up the updates of every change has what the state is,
/// after each of them.
pub proof fn client_state_follows<S: ConnectionState>(states: Seq<S>, n: nat)
    requires
        n < states.len(),
        S::width() <= usize::MAX,
    ensures
        followed(states, n) == states[n as int],
    decreases n,
{
    if n > 0 {
        client_state_follows(states, (n - 1) as nat);
        client_state_arrives(states[n - 1], states[n as int]);
    }
}

/// The updates for the first `n` fields apply, bring those fields to what they
/// are now and leave the others alone.
proof fn changes_apply<S: ConnectionState>(start: S, now: S, n: nat)
    requires
        n <= S::width() <= usize::MAX,
    ensures
        applied(start, changes_upto(start, now, n)).1,
        forall|i: int|
            0 <= i < n ==> !(#[trigger] now.changed(
                applied(start, changes_upto(start, now, n)).0,
                i,
            )),
        forall|i: int|
            n <= i < S::width() ==> (#[trigger] now.changed(
                applied(start, changes_upto(start, now, n)).0,
                i,
            )) == now.changed(start, i),
    decreases n,
{
    if n > 0 {
        let k = n - 1;
        changes_apply(start, now, k as nat);
        let front = changes_upto(start, now, k as nat);
        let m = applied(start, front).0;
        if now.changed(start, k) {
            let list = changes_upto(start, now, n);
            assert(list.drop_last() =~= front);
            S::field_decodes(m, now, k);
            S::merged_field_agrees(m, now, k);
            assert forall|i: int| 0 <= i < S::width() && i != k implies (#[trigger] now.changed(
                m.merged(now, k),
                i,
            )) == now.changed(m, i) by {
                S::decoded_field_alone(m, k, now.encoded(k), i, now);
            }
        }
    }
}

/// When nothing has changed there is nothing to send.
pub proof fn unchanged_state_is_silent<S: ConnectionState>(start: S, now: S)
    ensures
        changes(start, now).len() == 0 <==> forall|i: int|
            0 <= i < S::width() ==> !(#[trigger] now.changed(start, i)),
{
    changes_are_the_changed_fields(start, now, S::width());
}

/// There is an update among the first `n` fields exactly when one of them
/// differs.
proof fn changes_are_the_changed_fields<S: ConnectionState>(start: S, now: S, n: nat)
    ensures
        changes_upto(start, now, n).len() == 0 <==> forall|i: int|
            0 <= i < n ==> !(#[trigger] now.changed(start, i)),
    decreases n,
{
    if n > 0 {
        changes_are_the_changed_fields(start, now, (n - 1) as nat);
        if now.changed(start, n - 1) {
            assert(changes_upto(start, now, n).len() > 0);
        }
    }
}

/// The view of fields tells of each, in its place, its encoding or that there
/// is none.
pub proof fn field_views_tell_all(fields: Seq<Option<Vec<u8>>>)
    ensures
        field_views(fields).len() == fields.len(),
        forall|i: int|
            0 <= i < fields.len() ==> (#[trigger] field_views(fields)[i] is Some <==> fields[i] is Some),
        forall|i: int|
            0 <= i < fields.len() && fields[i] is Some ==> #[trigger] field_views(fields)[i] == Some(
                fields[i]->0@,
            ),
{
}

/// The updates for fields are exactly those whose encodings are there: every one
/// of them is listed with its index and its encoding, no other field is, and the
/// indices ascend, so that none is listed twice.
pub proof fn listed_are_the_fields_that_are_there(fields: Seq<Option<Seq<u8>>>, n: nat)
    requires
        n <= fields.len(),
        n <= usize::MAX,
    ensures
        forall|k: int|
            0 <= k < listed(fields, n).len() ==> (#[trigger] listed(fields, n)[k]).0 < n
                && fields[listed(fields, n)[k].0 as int] == Some(listed(fields, n)[k].1),
        forall|k: int, l: int|
            0 <= k < l < listed(fields, n).len() ==> (#[trigger] listed(fields, n)[k]).0 < (
            #[trigger] listed(fields, n)[l]).0,
        forall|i: int|
            0 <= i < n && (#[trigger] fields[i]) is Some ==> exists|k: int|
                0 <= k < listed(fields, n).len() && (#[trigger] listed(fields, n)[k]).0 == i,
    decreases n,
{
    if n > 0 {
        listed_are_the_fields_that_are_there(fields, (n - 1) as nat);
        let front = listed(fields, (n - 1) as nat);
        let list = listed(fields, n);
        assert forall|i: int| 0 <= i < n && (#[trigger] fields[i]) is Some implies exists|k: int|
            0 <= k < list.len() && (#[trigger] list[k]).0 == i by {
            if i < n - 1 {
                let k = choose|k: int| 0 <= k < front.len() && (#[trigger] front[k]).0 == i;
                assert(list[k] == front[k]);
                assert(list[k].0 == i);
            } else {
                assert(list[list.len() - 1].0 == i);
            }
        }
        assert forall|k: int| 0 <= k < list.len() implies (#[trigger] list[k]).0 < n
            && fields[list[k].0 as int] == Some(list[k].1) by {
            if k < front.len() {
                assert(list[k] == front[k]);
            }
        }
        assert forall|k: int, l: int| 0 <= k < l < list.len() implies (#[trigger] list[k]).0 < (
        #[trigger] list[l]).0 by {
            assert(list[k] == front[k]);
            if l < front.len() {
                assert(list[l] == front[l]);
            }
        }
    }
}

/// The updates between two states are exactly those of the fields that differ:
/// every such field is sent with its index and its new encoding, no other field
/// is, and the indices ascend.
pub proof fn changes_are_the_fields_that_differ<S: ConnectionState>(start: S, now: S)
    requires
        S::width() <= usize::MAX,
    ensures
        forall|k: int|
            0 <= k < changes(start, now).len() ==> {
                let (index, data) = #[trigger] changes(start, now)[k];
                index < S::width() && now.changed(start, index as int) && data == now.encoded(
                    index as int,
                )
            },
        forall|k: int, l: int|
            0 <= k < l < changes(start, now).len() ==> (#[trigger] changes(start, now)[k]).0 < (
            #[trigger] changes(start, now)[l]).0,
        forall|i: int|
            0 <= i < S::width() && #[trigger] now.changed(start, i) ==> exists|k: int|
                0 <= k < changes(start, now).len() && (#[trigger] changes(start, now)[k]).0 == i,
{
    let fields = Seq::new(
        S::width(),
        |i: int|
            if now.changed(start, i) {
                Some(now.encoded(i))
            } else {
                None
            },
    );
    changes_are_listed(start, now, fields, S::width());
    listed_are_the_fields_that_are_there(fields, S::width());
    assert forall|i: int| 0 <= i < S::width() && #[trigger] now.changed(start, i) implies exists|
        k: int,
    |
        0 <= k < changes(start, now).len() && (#[trigger] changes(start, now)[k]).0 == i by {
        assert(fields[i] is Some);
        let list = listed(fields, S::width());
        let k = choose|k: int| 0 <= k < list.len() && (#[trigger] list[k]).0 == i;
        assert(changes(start, now)[k].0 == i);
    }
}

/// The updates of the first `n` fields that differ are listed like any others.
proof fn changes_are_listed<S: ConnectionState>(
    start: S,
    now: S,
    fields: Seq<Option<Seq<u8>>>,
    n: nat,
)
    requires
        n <= fields.len(),
        forall|i: int|
            0 <= i < fields.len() ==> #[trigger] fields[i] == (if now.changed(start, i) {
                Some(now.encoded(i))
            } else {
                None
            }),
    ensures
        changes_upto(start, now, n) == listed(fields, n),
    decreases n,
{
    if n > 0 {
        changes_are_listed(start, now, fields, (n - 1) as nat);
    }
}

/// What is taken over goes update by update: when the first of two lists is
/// taken over whole, what is taken over from both is that of the first and then
/// that of the second; otherwise the second does not matter.
pub proof fn updates_are_taken_over_in_order<V>(
    width: usize,
    a: Seq<(usize, Option<V>)>,
    b: Seq<(usize, Option<V>)>,
)
    ensures
        accepted(width, a + b, (a + b).len()) == (if accepted(width, a, a.len()).1 {
            (
                accepted(width, a, a.len()).0 + accepted(width, b, b.len()).0,
                accepted(width, b, b.len()).1,
            )
        } else {
            accepted(width, a, a.len())
        }),
{
    accepted_front(width, a, b, a.len());
    accepted_rest(width, a, b, b.len());
}

proof fn accepted_front<V>(
    width: usize,
    a: Seq<(usize, Option<V>)>,
    b: Seq<(usize, Option<V>)>,
    n: nat,
)
    requires
        n <= a.len(),
    ensures
        accepted(width, a + b, n) == accepted(width, a, n),
    decreases n,
{
    if n > 0 {
        accepted_front(width, a, b, (n - 1) as nat);
        assert((a + b)[n - 1] == a[n - 1]);
    }
}

proof fn accepted_rest<V>(
    width: usize,
    a: Seq<(usize, Option<V>)>,
    b: Seq<(usize, Option<V>)>,
    n: nat,
)
    requires
        n <= b.len(),
    ensures
        accepted(width, a + b, a.len() + n) == (if accepted(width, a, a.len()).1 {
            (accepted(width, a, a.len()).0 + accepted(width, b, n).0, accepted(width, b, n).1)
        } else {
            accepted(width, a, a.len())
        }),
    decreases n,
{
    let first = accepted(width, a, a.len());
    if n == 0 {
        accepted_front(width, a, b, a.len());
        assert(first.0 + accepted(width, b, 0).0 =~= first.0);
    } else {
        accepted_rest(width, a, b, (n - 1) as nat);
        assert((a + b)[a.len() + n - 1] == b[n - 1]);
        if first.1 {
            assert(accepted(width, a + b, a.len() + n).0 =~= first.0 + accepted(width, b, n).0);
        }
    }
}

/// A single update is taken over when it is for a field that the state has and
/// has been decoded, passed over when the state has no such field, and refused
/// when it failed to decode.
pub proof fn one_update_is_taken_over<V>(width: usize, index: usize, value: V)
    ensures
        accepted(width, seq![(index, Some(value))], 1).1,
        index < width ==> accepted(width, seq![(index, Some(value))], 1).0 == seq![value],
        index >= width ==> accepted(width, seq![(index, Some(value))], 1).0.len() == 0,
        accepted(width, seq![(index, None::<V>)], 1).0.len() == 0,
        accepted(width, seq![(index, None::<V>)], 1).1 <==> index >= width,
{
    let list = seq![(index, Some(value))];
    reveal_with_fuel(accepted, 2);
    assert(accepted(width, list, 0) == (Seq::<V>::empty(), true));
    assert(Seq::<V>::empty().push(value) =~= seq![value]);
    assert(accepted(width, seq![(index, None::<V>)], 0) == (Seq::<V>::empty(), true));
}

/// Every field that is sent is handed over: when the updates for some fields
/// have all been decoded, a client with as many fields takes over each of them,
/// in the order of the fields.
pub proof fn sent_fields_are_handed_over<V>(
    fields: Seq<Option<Seq<u8>>>,
    width: usize,
    decoded: Seq<(usize, Option<V>)>,
)
    requires
        fields.len() == width,
        decoded.len() == listed(fields, fields.len()).len(),
        forall|k: int|
            0 <= k < decoded.len() ==> (#[trigger] decoded[k]).0 == listed(fields, fields.len())[k].0
                && decoded[k].1 is Some,
    ensures
        accepted(width, decoded, decoded.len()).1,
        accepted(width, decoded, decoded.len()).0.len() == decoded.len(),
        forall|k: int|
            0 <= k < decoded.len() ==> Some(accepted(width, decoded, decoded.len()).0[k]) == (
            #[trigger] decoded[k]).1,
        forall|i: int|
            0 <= i < fields.len() && (#[trigger] fields[i]) is Some ==> exists|k: int|
                0 <= k < decoded.len() && (#[trigger] decoded[k]).0 == i,
{
    listed_are_the_fields_that_are_there(fields, fields.len());
    assert forall|k: int| 0 <= k < decoded.len() implies (#[trigger] decoded[k]).0 < width
        && decoded[k].1 is Some by {
        assert(listed(fields, fields.len())[k].0 < width);
    }
    usable_updates_are_accepted(width, decoded, decoded.len());
    assert forall|i: int| 0 <= i < fields.len() && (#[trigger] fields[i]) is Some implies exists|
        k: int,
    |
        0 <= k < decoded.len() && (#[trigger] decoded[k]).0 == i by {
        let list = listed(fields, fields.len());
        let k = choose|k: int| 0 <= k < list.len() && (#[trigger] list[k]).0 == i;
        assert(decoded[k].0 == i);
    }
}

proof fn usable_updates_are_accepted<V>(
    width: usize,
    updates: Seq<(usize, Option<V>)>,
    n: nat,
)
    requires
        n <= updates.len(),
        forall|k: int|
            0 <= k < updates.len() ==> (#[trigger] updates[k]).0 < width && updates[k].1 is Some,
    ensures
        accepted(width, updates, n).1,
        accepted(width, updates, n).0.len() == n,
        forall|k: int|
            0 <= k < n ==> Some(accepted(width, updates, n).0[k]) == (#[trigger] updates[k]).1,
    decreases n,
{
    if n > 0 {
        usable_updates_are_accepted(width, updates, (n - 1) as nat);
        assert(updates[n - 1].0 < width && updates[n - 1].1 is Some);
        let front = accepted(width, updates, (n - 1) as nat).0;
        assert(accepted(width, updates, n).0 == front.push(updates[n - 1].1->0));
    }
}

/// Applying goes update by update: when all of the first list apply, the second
/// is applied to what they lead to; otherwise it does not matter.
pub proof fn updates_are_applied_in_order<S: ConnectionState>(
    state: S,
    a: Seq<(usize, Seq<u8>)>,
    b: Seq<(usize, Seq<u8>)>,
)
    ensures
        applied(state, a + b) == (if applied(state, a).1 {
            applied(applied(state, a).0, b)
        } else {
            applied(state, a)
        }),
    decreases b.len(),
{
    if b.len() == 0 {
        assert(a + b =~= a);
    } else {
        assert((a + b).drop_last() =~= a + b.drop_last());
        assert((a + b).last() == b.last());
        updates_are_applied_in_order(state, a, b.drop_last());
    }
}

/// A single update sets the field that it is for to what it decodes to, fails
/// and changes nothing when it does not decode, and is passed over when the
/// state has no such field.
pub proof fn one_update_is_applied<S: ConnectionState>(state: S, index: usize, data: Seq<u8>)
    ensures
        applied(state, Seq::empty()) == (state, true),
        index >= S::width() ==> applied(state, seq![(index, data)]) == (state, true),
        index < S::width() ==> match state.decoded(index as int, data) {
            Some(s) => applied(state, seq![(index, data)]) == (s, true),
            None => applied(state, seq![(index, data)]) == (state, false),
        },
{
    let list = seq![(index, data)];
    assert(list.drop_last() =~= Seq::empty());
    assert(applied(state, list.drop_last()) == (state, true));
    assert(list.last() == (index, data));
}

} // verus!
