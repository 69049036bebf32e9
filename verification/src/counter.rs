//! A counter as a service: the state of a connection is a number that calls
//! increment, decrement and read.
use vstd::prelude::*;

use crate::call::{deserialize, handle};
use crate::event::{Event, EventEmitter, HandlerSubscriptionManager, Wish};
use crate::state::{applied, changes, ConnectionState, StateGuard};
use crate::topic::Topic;
use crate::wire::{update_views, HandlerResult, RpcHandlerError, StateUpdate};

verus! {

/// The four bytes of `v`, least significant first.
pub open spec fn le_bytes(v: u32) -> Seq<u8> {
    seq![
        (v % 256) as u8,
        (v / 256 % 256) as u8,
        (v / 65536 % 256) as u8,
        (v / 16777216) as u8,
    ]
}

/// The number that the archive of a 32-bit number holds in its last four
/// bytes. The length of an archive is a multiple of four.
pub open spec fn archived_u32(bytes: Seq<u8>) -> Option<u32> {
    let n = bytes.len() as int;
    if n < 4 || n % 4 != 0 {
        None
    } else {
        Some(
            (bytes[n - 4] + 256 * bytes[n - 3] + 65536 * bytes[n - 2] + 16777216 * bytes[n
                - 1]) as u32,
        )
    }
}

/// The archive of a number holds that number.
pub proof fn archive_reads_back(v: u32)
    ensures
        archived_u32(le_bytes(v)) == Some(v),
{
}

/// `rkyv::to_bytes` archives a number as its four bytes, in the little-endian
/// order that the crate is built for.
#[verifier::external_body]
fn archive_u32(v: u32) -> (r: Vec<u8>)
    ensures
        r@ == le_bytes(v),
{
    rkyv::to_bytes::<u32, 1024>(&v).unwrap().to_vec()
}

/// `rkyv::from_bytes`, given the bytes at an aligned address, reads a number
/// from the last four of them. It fails on fewer than four bytes, and when the
/// last four do not lie at a multiple of four.
#[verifier::external_body]
fn unarchive_u32(bytes: &[u8]) -> (r: Option<u32>)
    ensures
        r == archived_u32(bytes@),
{
    let mut aligned = rkyv::AlignedVec::new();
    aligned.extend_from_slice(bytes);
    rkyv::from_bytes::<u32>(&aligned).ok()
}

/// The state of a connection.
#[derive(Clone, Copy, Debug, PartialEq, Eq, Structural)]
pub struct State {
    pub counter: u32,
}

impl Default for State {
    fn default() -> (r: State)
        ensures
            r.counter == 0,
    {
        State { counter: 0 }
    }
}

impl ConnectionState for State {
    open spec fn width() -> nat {
        1
    }

    open spec fn changed(self, start: State, index: int) -> bool {
        self.counter != start.counter
    }

    open spec fn encoded(self, index: int) -> Seq<u8> {
        le_bytes(self.counter)
    }

    open spec fn decoded(self, index: int, data: Seq<u8>) -> Option<State> {
        match archived_u32(data) {
            Some(counter) => Some(State { counter }),
            None => None,
        }
    }

    open spec fn merged(self, from: State, index: int) -> State {
        State { counter: from.counter }
    }

    fn field_count() -> (n: usize) {
        1
    }

    fn field_change(&self, start: &State, index: usize) -> (r: Option<Vec<u8>>) {
        if self.counter != start.counter {
            Some(archive_u32(self.counter))
        } else {
            None
        }
    }

    fn set_field(&mut self, index: usize, data: &Vec<u8>) -> (ok: bool) {
        match unarchive_u32(data.as_slice()) {
            Some(counter) => {
                self.counter = counter;
                true
            },
            None => false,
        }
    }

    proof fn field_decodes(base: State, from: State, index: int) {
        archive_reads_back(from.counter);
    }

    proof fn merged_field_agrees(base: State, from: State, index: int) {
    }

    proof fn decoded_field_alone(
        base: State,
        index: int,
        data: Seq<u8>,
        other: int,
        from: State,
    ) {
    }

    proof fn fields_are_all(base: State, from: State) {
        assert(!from.changed(base, 0));
    }
}

/// The calls of the service.
#[derive(Clone, Copy, Debug, PartialEq, Eq, Structural)]
pub enum RpcCall {
    Increment { amount: u32 },
    Decrement { amount: u32 },
    Get {},
    TestOverhead {},
}

/// Whether a call keeps the counter within its range.
pub open spec fn in_range(counter: u32, call: RpcCall) -> bool {
    match call {
        RpcCall::Increment { amount } => counter + amount <= u32::MAX,
        RpcCall::Decrement { amount } => amount <= counter,
        _ => true,
    }
}

/// The counter after a call.
pub open spec fn counted(counter: u32, call: RpcCall) -> u32 {
    match call {
        RpcCall::Increment { amount } => (counter + amount) as u32,
        RpcCall::Decrement { amount } => (counter - amount) as u32,
        _ => counter,
    }
}

/// The encoded result of a call: the counter, or nothing for the call that
/// measures the overhead.
pub open spec fn call_output(counter: u32, call: RpcCall) -> Seq<u8> {
    match call {
        RpcCall::TestOverhead {} => Seq::empty(),
        _ => le_bytes(counted(counter, call)),
    }
}

/// The updates that go to the client when the counter changes.
pub open spec fn counter_updates(before: u32, after: u32) -> Seq<Seq<(usize, Seq<u8>)>> {
    if before == after {
        Seq::empty()
    } else {
        seq![seq![(0usize, le_bytes(after))]]
    }
}

/// The views of lists of updates.
pub open spec fn batch_views(batches: Seq<Vec<StateUpdate>>) -> Seq<Seq<(usize, Seq<u8>)>> {
    batches.map_values(|b: Vec<StateUpdate>| update_views(b@))
}

/// What works on the calls of one connection.
pub struct Handler {
    /// The state of the connection.
    pub state: State,
    /// Updates of the state that are to go to the client, oldest first.
    pub updates: Vec<Vec<StateUpdate>>,
    /// Wishes for changes of subscriptions.
    pub subscriptions: HandlerSubscriptionManager,
    /// Events for the event switch.
    pub events: EventEmitter,
}

impl Handler {
    /// A handler for a new connection.
    pub fn new(subscriptions: HandlerSubscriptionManager, events: EventEmitter) -> (r: Handler)
        ensures
            r.state.counter == 0,
            r.updates@.len() == 0,
            r.subscriptions == subscriptions,
            r.events == events,
    {
        Handler { state: State::default(), updates: Vec::new(), subscriptions, events }
    }

    /// Sets the counter, and has the client told when that changes it.
    fn write(&mut self, counter: u32)
        ensures
            final(self).state.counter == counter,
            batch_views(final(self).updates@) == batch_views(old(self).updates@) + counter_updates(
                old(self).state.counter,
                counter,
            ),
            final(self).subscriptions == old(self).subscriptions,
            final(self).events == old(self).events,
    {
        let guard = StateGuard { starting_state: self.state, state: State { counter } };
        proof {
            let list = changes(guard.starting_state, guard.state);
            reveal_with_fuel(crate::state::changes_upto, 2);
            assert(list =~= (if guard.starting_state.counter == counter {
                Seq::<(usize, Seq<u8>)>::empty()
            } else {
                seq![(0usize, le_bytes(counter))]
            }));
        }
        let (state, updates) = guard.finish();
        self.state = state;
        match updates {
            Some(batch) => {
                self.updates.push(batch);
            },
            None => {},
        }
        assert(batch_views(self.updates@) =~= batch_views(old(self).updates@) + counter_updates(
            old(self).state.counter,
            counter,
        ));
    }

    /// Whether a call that may not have decoded keeps the counter within its
    /// range.
    pub fn has_room_for(&self, input: Option<RpcCall>) -> (r: bool)
        ensures
            r == (input matches Some(call) ==> in_range(self.state.counter, call)),
    {
        match input {
            Some(RpcCall::Increment { amount }) => amount <= u32::MAX - self.state.counter,
            Some(RpcCall::Decrement { amount }) => amount <= self.state.counter,
            _ => true,
        }
    }

    /// Works on a call that may not have decoded. The counter must stay within
    /// its range.
    pub fn handle_rpc_call(&mut self, input: Option<RpcCall>) -> (r: HandlerResult<Vec<u8>>)
        requires
            input matches Some(call) ==> in_range(old(self).state.counter, call),
        ensures
            final(self).subscriptions == old(self).subscriptions,
            final(self).events == old(self).events,
            input matches Some(RpcCall::Increment { amount }) ==> final(self).state.counter == old(
                self,
            ).state.counter + amount,
            input matches Some(RpcCall::Decrement { amount }) ==> final(self).state.counter
                + amount == old(self).state.counter,
            input matches Some(RpcCall::Get {}) ==> final(self).state.counter == old(
                self,
            ).state.counter,
            input matches Some(RpcCall::TestOverhead {}) ==> final(self).state.counter == old(
                self,
            ).state.counter && r->Ok_0@.len() == 0,
            match input {
                Some(call) => {
                    let after = counted(old(self).state.counter, call);
                    &&& r is Ok
                    &&& r->Ok_0@ == call_output(old(self).state.counter, call)
                    &&& final(self).state.counter == after
                    &&& batch_views(final(self).updates@) == batch_views(old(self).updates@)
                        + counter_updates(old(self).state.counter, after)
                },
                None => {
                    &&& r == Err::<Vec<u8>, RpcHandlerError>(RpcHandlerError::ServerDecodeError)
                    &&& final(self).state == old(self).state
                    &&& final(self).updates == old(self).updates
                },
            },
    {
        match deserialize(input) {
            Ok(RpcCall::Increment { amount }) => {
                let counter: u32 = increment(self, amount)?;
                handle(archive_u32(counter))
            },
            Ok(RpcCall::Decrement { amount }) => {
                let counter: u32 = decrement(self, amount)?;
                handle(archive_u32(counter))
            },
            Ok(RpcCall::Get {}) => {
                assert(batch_views(self.updates@) =~= batch_views(self.updates@)
                    + counter_updates(self.state.counter, self.state.counter));
                let counter: u32 = get(self)?;
                handle(archive_u32(counter))
            },
            Ok(RpcCall::TestOverhead {}) => {
                assert(batch_views(self.updates@) =~= batch_views(self.updates@)
                    + counter_updates(self.state.counter, self.state.counter));
                let r: Vec<u8> = Vec::new();
                assert(r@ =~= Seq::<u8>::empty());
                Ok(r)
            },
            Err(e) => Err(e),
        }
    }

    /// Subscribes the connection to the given topic.
    pub fn subscribe(&mut self, topic: &Topic)
        ensures
            final(self).subscriptions@ == old(self).subscriptions@.push(Wish::Subscribe(topic@)),
            final(self).state == old(self).state,
            final(self).updates == old(self).updates,
            final(self).events == old(self).events,
    {
        self.subscriptions.add(topic);
    }

    /// Unsubscribes the connection from the given topic.
    pub fn unsubscribe(&mut self, topic: &Topic)
        ensures
            final(self).subscriptions@ == old(self).subscriptions@.push(Wish::Unsubscribe(topic@)),
            final(self).state == old(self).state,
            final(self).updates == old(self).updates,
            final(self).events == old(self).events,
    {
        self.subscriptions.remove(topic);
    }

    /// Hands an event to the event switch.
    pub fn emit(&mut self, event: Event)
        ensures
            final(self).events@ == old(self).events@.push(event@),
            final(self).events.channel() == old(self).events.channel(),
            final(self).state == old(self).state,
            final(self).updates == old(self).updates,
            final(self).subscriptions == old(self).subscriptions,
    {
        let Event { topic, payload } = event;
        self.events.emit(&topic, payload);
        assert(self.events@ =~= old(self).events@.push(event@));
    }
}

/// Adds `amount` to the counter and reads it.
pub fn increment(connection: &mut Handler, amount: u32) -> (r: HandlerResult<u32>)
    requires
        old(connection).state.counter + amount <= u32::MAX,
    ensures
        r == Ok::<u32, RpcHandlerError>((old(connection).state.counter + amount) as u32),
        final(connection).state.counter == old(connection).state.counter + amount,
        batch_views(final(connection).updates@) == batch_views(old(connection).updates@)
            + counter_updates(
            old(connection).state.counter,
            (old(connection).state.counter + amount) as u32,
        ),
        final(connection).subscriptions == old(connection).subscriptions,
        final(connection).events == old(connection).events,
{
    let counter: u32 = connection.state.counter + amount;
    connection.write(counter);
    Ok(counter)
}

/// Takes `amount` from the counter and reads it.
pub fn decrement(connection: &mut Handler, amount: u32) -> (r: HandlerResult<u32>)
    requires
        amount <= old(connection).state.counter,
    ensures
        r == Ok::<u32, RpcHandlerError>((old(connection).state.counter - amount) as u32),
        final(connection).state.counter == old(connection).state.counter - amount,
        batch_views(final(connection).updates@) == batch_views(old(connection).updates@)
            + counter_updates(
            old(connection).state.counter,
            (old(connection).state.counter - amount) as u32,
        ),
        final(connection).subscriptions == old(connection).subscriptions,
        final(connection).events == old(connection).events,
{
    let counter: u32 = connection.state.counter - amount;
    connection.write(counter);
    Ok(counter)
}

/// Reads the counter.
pub fn get(connection: &Handler) -> (r: HandlerResult<u32>)
    ensures
        r == Ok::<u32, RpcHandlerError>(connection.state.counter),
{
    Ok(connection.state.counter)
}

/// A client whose copy holds the counter from before a call holds the counter
/// from after it, once it has taken up what the call has sent.
pub proof fn client_counter_follows(before: u32, after: u32)
    ensures
        before == after <==> counter_updates(before, after).len() == 0,
        before != after ==> applied(
            State { counter: before },
            counter_updates(before, after)[0],
        ) == (State { counter: after }, true),
{
    if before != after {
        let start = State { counter: before };
        let list = seq![(0usize, le_bytes(after))];
        assert(list.drop_last() =~= Seq::empty());
        assert(applied(start, list.drop_last()) == (start, true));
        archive_reads_back(after);
        assert(list.last() == (0usize, le_bytes(after)));
    }
}

/// The result of every call that reads the counter decodes to the counter after
/// the call.
pub proof fn results_decode(counter: u32, call: RpcCall)
    requires
        !(call is TestOverhead),
    ensures
        archived_u32(call_output(counter, call)) == Some(counted(counter, call)),
        call_output(counter, call).len() == 4,
{
    archive_reads_back(counted(counter, call));
}

/// A call counts as it says: an increment leaves the counter greater by the
/// amount, a decrement less by the amount, and the other calls leave it alone.
pub proof fn calls_count_as_they_say(counter: u32, amount: u32)
    ensures
        in_range(counter, RpcCall::Increment { amount }) ==> counted(
            counter,
            RpcCall::Increment { amount },
        ) == counter + amount,
        in_range(counter, RpcCall::Decrement { amount }) ==> counted(
            counter,
            RpcCall::Decrement { amount },
        ) + amount == counter,
        counted(counter, RpcCall::Get {}) == counter,
        counted(counter, RpcCall::TestOverhead {}) == counter,
{
}

/// A call is out of range exactly when the counter cannot hold what it comes to.
pub proof fn range_is_that_of_the_counter(counter: u32, amount: u32)
    ensures
        in_range(counter, RpcCall::Increment { amount }) <==> counter as int + amount as int
            <= u32::MAX,
        in_range(counter, RpcCall::Decrement { amount }) <==> counter as int - amount as int >= 0,
        in_range(counter, RpcCall::Get {}),
        in_range(counter, RpcCall::TestOverhead {}),
{
}

/// A decrement undoes an increment by the same amount, and the other way round.
pub proof fn decrementing_undoes_incrementing(counter: u32, amount: u32)
    ensures
        in_range(counter, RpcCall::Increment { amount }) ==> {
            let up = counted(counter, RpcCall::Increment { amount });
            &&& in_range(up, RpcCall::Decrement { amount })
            &&& counted(up, RpcCall::Decrement { amount }) == counter
        },
        in_range(counter, RpcCall::Decrement { amount }) ==> {
            let down = counted(counter, RpcCall::Decrement { amount });
            &&& in_range(down, RpcCall::Increment { amount })
            &&& counted(down, RpcCall::Increment { amount }) == counter
        },
{
}

/// A number is the sum of its bytes, each by its place.
pub proof fn bytes_add_up(v: u32)
    ensures
        le_bytes(v).len() == 4,
        le_bytes(v)[0] + 256 * le_bytes(v)[1] + 65536 * le_bytes(v)[2] + 16777216 * le_bytes(v)[3]
            == v,
{
}

/// An archive holds the number in its last four bytes, whatever comes before
/// them, as long as its length is a multiple of four; nothing else is an archive.
pub proof fn archives_end_with_their_number(bytes: Seq<u8>, v: u32)
    ensures
        bytes.len() % 4 == 0 ==> archived_u32(bytes + le_bytes(v)) == Some(v),
        archived_u32(bytes) is Some <==> bytes.len() >= 4 && bytes.len() % 4 == 0,
{
    let all = bytes + le_bytes(v);
    let n = bytes.len() as int;
    assert(all[n] == le_bytes(v)[0]);
    assert(all[n + 1] == le_bytes(v)[1]);
    assert(all[n + 2] == le_bytes(v)[2]);
    assert(all[n + 3] == le_bytes(v)[3]);
    bytes_add_up(v);
}

/// The client is sent one list with one update of the counter when the counter
/// changes, and nothing when it does not.
pub proof fn changes_of_the_counter_are_sent(before: u32, after: u32)
    ensures
        before == after ==> counter_updates(before, after).len() == 0,
        before != after ==> counter_updates(before, after).len() == 1 && counter_updates(
            before,
            after,
        )[0].len() == 1 && counter_updates(before, after)[0][0].0 == 0 && archived_u32(
            counter_updates(before, after)[0][0].1,
        ) == Some(after),
{
    archive_reads_back(after);
}

/// The view of lists of updates tells of each list, in its place, all updates.
pub proof fn batch_views_tell_all(batches: Seq<Vec<StateUpdate>>)
    ensures
        batch_views(batches).len() == batches.len(),
        forall|i: int, k: int|
            0 <= i < batches.len() && 0 <= k < batches[i]@.len() ==> (
            #[trigger] batch_views(batches)[i][k]).0 == batches[i]@[k].index && batch_views(
                batches,
            )[i][k].1 == batches[i]@[k].data@,
        forall|i: int|
            0 <= i < batches.len() ==> (#[trigger] batch_views(batches)[i]).len()
                == batches[i]@.len(),
{
}

/// A state of one counter: it differs exactly when the counter does, and it is
/// encoded and decoded as the archive of the counter.
pub proof fn state_is_its_counter(state: State, start: State, data: Seq<u8>)
    ensures
        State::width() == 1,
        state.changed(start, 0) <==> state.counter != start.counter,
        archived_u32(state.encoded(0)) == Some(state.counter),
        state.decoded(0, data) is Some <==> archived_u32(data) is Some,
        state.decoded(0, data) matches Some(s) ==> Some(s.counter) == archived_u32(data),
{
    archive_reads_back(state.counter);
}

} // verus!
