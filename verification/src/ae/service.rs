use std::marker::PhantomData;
use vstd::prelude::*;
use vstd::std_specs::convert::FromSpecImpl;
use crate::ae::{carried_out, dispatch};
use crate::pb::abi::{CommandRequest, CommandRequestView, CommandResponse, CommandResponseView};
use crate::store::memory::MemTable;
use crate::store::{Storage, Table};

verus! {

/// Something that is shown a value when an event takes place.
pub trait Listener<Arg>: Send {
    fn call(&self, arg: &Arg);
}

/// Something that may change a value when an event takes place.
pub trait ListenerMut<Arg: View>: Send {
    /// Whether a call can turn a value with the model `before` into one with
    /// the model `after`. A listener that does not say can turn any value
    /// into any other.
    open spec fn may_yield(&self, before: Arg::V, after: Arg::V) -> bool {
        true
    }

    fn call(&self, arg: &mut Arg)
        ensures
            self.may_yield(old(arg)@, final(arg)@),
    ;
}

/// Something that is told that an event took place.
pub trait Signal: Send {
    fn call(&self);
}

/// Immutable event notification: each listener is shown the value, in the
/// order of the listeners.
pub trait Notify<Arg> {
    fn notify(&self, arg: &Arg);
}

impl<Arg> Notify<Arg> for Vec<Box<dyn Listener<Arg>>> {
    fn notify(&self, arg: &Arg) {
        let mut i: usize = 0;
        while i < self.len()
            invariant
                i <= self@.len(),
            decreases self@.len() - i,
        {
            self[i].call(arg);
            i += 1;
        }
    }
}

/// Whether the listeners, called one after the other in their order, each on
/// what the one before it left, can turn `before` into `after`.
pub open spec fn chain_yields<Arg: View>(
    hooks: Seq<Box<dyn ListenerMut<Arg>>>,
    before: Arg::V,
    after: Arg::V,
) -> bool
    decreases hooks.len(),
{
    if hooks.len() == 0 {
        after == before
    } else {
        exists|mid: Arg::V|
            chain_yields(hooks.drop_last(), before, mid) && #[trigger] hooks.last().may_yield(
                mid,
                after,
            )
    }
}

/// Mutable event notification: each listener may change the value, in the
/// order of the listeners.
pub trait NotifyMut<Arg: View> {
    /// Whether a notification can turn `before` into `after`. A list that
    /// does not say can turn any value into any other.
    open spec fn may_turn(&self, before: Arg::V, after: Arg::V) -> bool {
        true
    }

    fn notify(&self, arg: &mut Arg)
        ensures
            self.may_turn(old(arg)@, final(arg)@),
    ;
}

impl<Arg: View> NotifyMut<Arg> for Vec<Box<dyn ListenerMut<Arg>>> {
    open spec fn may_turn(&self, before: Arg::V, after: Arg::V) -> bool {
        chain_yields(self@, before, after)
    }

    fn notify(&self, arg: &mut Arg) {
        let mut i: usize = 0;
        while i < self.len()
            invariant
                i <= self@.len(),
                chain_yields(self@.take(i as int), old(arg)@, arg@),
            decreases self@.len() - i,
        {
            let ghost mid = arg@;
            self[i].call(arg);
            proof {
                let done = self@.take(i + 1);
                assert(done.drop_last() =~= self@.take(i as int));
                assert(done.last() == self@[i as int]);
                assert(done.last().may_yield(mid, arg@));
            }
            i += 1;
        }
        assert(self@.take(i as int) =~= self@);
    }
}

/// The last listener runs last: a chain yields what the listeners before
/// the last one yield, passed through the last one.
pub proof fn lemma_last_hook_runs_last<Arg: View>(
    hooks: Seq<Box<dyn ListenerMut<Arg>>>,
    before: Arg::V,
    after: Arg::V,
)
    requires
        hooks.len() > 0,
    ensures
        chain_yields(hooks, before, after) <==> exists|mid: Arg::V|
            chain_yields(hooks.drop_last(), before, mid) && #[trigger] hooks.last().may_yield(
                mid,
                after,
            ),
{
}

/// Two listeners run in the order in which they stand: the second is called
/// on what the first left.
pub proof fn lemma_two_hooks_in_order<Arg: View>(
    hooks: Seq<Box<dyn ListenerMut<Arg>>>,
    before: Arg::V,
    after: Arg::V,
)
    requires
        hooks.len() == 2,
    ensures
        chain_yields(hooks, before, after) <==> exists|mid: Arg::V|
            #[trigger] hooks[0].may_yield(before, mid) && hooks[1].may_yield(mid, after),
{
    let one = hooks.drop_last();
    let none = one.drop_last();
    assert(one.len() == 1 && none.len() == 0);
    assert(one.last() == hooks[0]);
    assert(hooks.last() == hooks[1]);
    assert forall|mid: Arg::V| chain_yields(one, before, mid) <==> hooks[0].may_yield(
        before,
        mid,
    ) by {
        if hooks[0].may_yield(before, mid) {
            assert(chain_yields(none, before, before));
            assert(one.last().may_yield(before, mid));
        }
        if chain_yields(one, before, mid) {
            let start = choose|start: Arg::V|
                chain_yields(none, before, start) && #[trigger] one.last().may_yield(start, mid);
            assert(start == before);
        }
    }
    if chain_yields(hooks, before, after) {
        let mid = choose|mid: Arg::V|
            chain_yields(one, before, mid) && #[trigger] hooks.last().may_yield(mid, after);
        assert(hooks[0].may_yield(before, mid));
    }
    if exists|mid: Arg::V| #[trigger]
        hooks[0].may_yield(before, mid) && hooks[1].may_yield(mid, after) {
        let mid = choose|mid: Arg::V| #[trigger]
            hooks[0].may_yield(before, mid) && hooks[1].may_yield(mid, after);
        assert(chain_yields(one, before, mid));
        assert(hooks.last().may_yield(mid, after));
    }
}

/// What adding `last` behind `list` gives: one more, `last` at the end, and
/// before it `list` as it was.
pub open spec fn added_behind<A>(list: Seq<A>, last: A, longer: Seq<A>) -> bool {
    &&& longer == list.push(last)
    &&& longer.len() == list.len() + 1
    &&& longer.last() == last
    &&& longer.drop_last() == list
    &&& forall|i: int| 0 <= i < list.len() ==> longer[i] == list[i]
}

/// A push adds behind.
pub proof fn lemma_push_adds_behind<A>(list: Seq<A>, last: A)
    ensures
        added_behind(list, last, list.push(last)),
{
    let longer = list.push(last);
    vstd::seq::axiom_seq_push_len(list, last);
    vstd::seq::axiom_seq_push_index_same(list, last, list.len() as int);
    assert forall|i: int| 0 <= i < list.len() implies longer[i] == list[i] by {
        vstd::seq::axiom_seq_push_index_different(list, last, i);
    }
    let front = longer.drop_last();
    vstd::seq::axiom_seq_subrange_len(longer, 0, longer.len() - 1);
    assert forall|i: int| 0 <= i < list.len() implies front[i] == list[i] by {
        vstd::seq::axiom_seq_subrange_index(longer, 0, longer.len() - 1, i);
    }
    vstd::seq::axiom_seq_ext_equal(front, list);
}

/// A backend and the listeners around it, as a service is built from.
pub struct ServiceInner<Store> {
    store: Store,
    on_received: Vec<Box<dyn Listener<CommandRequest>>>,
    on_executed: Vec<Box<dyn Listener<CommandResponse>>>,
    on_before_reply: Vec<Box<dyn ListenerMut<CommandResponse>>>,
    on_after_reply: Vec<Box<dyn Signal>>,
}

impl<Store: Storage> ServiceInner<Store> {
    /// The backend.
    pub closed spec fn store(&self) -> Store {
        self.store
    }

    /// The listeners that are shown each request, in the order in which they
    /// were added.
    pub closed spec fn received(&self) -> Seq<Box<dyn Listener<CommandRequest>>> {
        self.on_received@
    }

    /// The listeners that are shown each reply as the backend gave it, in the
    /// order in which they were added.
    pub closed spec fn executed(&self) -> Seq<Box<dyn Listener<CommandResponse>>> {
        self.on_executed@
    }

    /// The listeners that may change each reply, in the order in which they
    /// were added.
    pub closed spec fn before_reply(&self) -> Seq<Box<dyn ListenerMut<CommandResponse>>> {
        self.on_before_reply@
    }

    /// The listeners that are told of each reply that was sent, in the order
    /// in which they were added.
    pub closed spec fn after_reply(&self) -> Seq<Box<dyn Signal>> {
        self.on_after_reply@
    }

    /// A service on `store` without listeners.
    pub fn new(store: Store) -> (r: Self)
        ensures
            r.store() == store,
            r.received().len() == 0,
            r.executed().len() == 0,
            r.before_reply().len() == 0,
            r.after_reply().len() == 0,
    {
        Self {
            store,
            on_received: Vec::new(),
            on_executed: Vec::new(),
            on_before_reply: Vec::new(),
            on_after_reply: Vec::new(),
        }
    }

    /// Adds a listener for requests, behind those that are there.
    pub fn fn_received(self, f: Box<dyn Listener<CommandRequest>>) -> (r: Self)
        ensures
            r.store() == self.store(),
            added_behind(self.received(), f, r.received()),
            r.executed() == self.executed(),
            r.before_reply() == self.before_reply(),
            r.after_reply() == self.after_reply(),
    {
        let mut service = self;
        service.on_received.push(f);
        proof {
            lemma_push_adds_behind(self.received(), f);
        }
        service
    }

    /// Adds a listener for replies as the backend gave them, behind those
    /// that are there.
    pub fn fn_executed(self, f: Box<dyn Listener<CommandResponse>>) -> (r: Self)
        ensures
            r.store() == self.store(),
            r.received() == self.received(),
            added_behind(self.executed(), f, r.executed()),
            r.before_reply() == self.before_reply(),
            r.after_reply() == self.after_reply(),
    {
        let mut service = self;
        service.on_executed.push(f);
        proof {
            lemma_push_adds_behind(self.executed(), f);
        }
        service
    }

    /// Adds a listener that may change replies, behind those that are there.
    pub fn fn_before_reply(self, f: Box<dyn ListenerMut<CommandResponse>>) -> (r: Self)
        ensures
            r.store() == self.store(),
            r.received() == self.received(),
            r.executed() == self.executed(),
            added_behind(self.before_reply(), f, r.before_reply()),
            r.after_reply() == self.after_reply(),
    {
        let mut service = self;
        service.on_before_reply.push(f);
        proof {
            lemma_push_adds_behind(self.before_reply(), f);
        }
        service
    }

    /// Adds a listener for replies that were sent, behind those that are
    /// there.
    pub fn fn_after_reply(self, f: Box<dyn Signal>) -> (r: Self)
        ensures
            r.store() == self.store(),
            r.received() == self.received(),
            r.executed() == self.executed(),
            r.before_reply() == self.before_reply(),
            added_behind(self.after_reply(), f, r.after_reply()),
    {
        let mut service = self;
        service.on_after_reply.push(f);
        proof {
            lemma_push_adds_behind(self.after_reply(), f);
        }
        service
    }
}

/// Whether the reply `resp` can come of carrying out `req` on a backend with
/// the table `before`, which leaves the table `after`, and then passing the
/// backend's reply through `hooks` in their order.
pub open spec fn served(
    hooks: Seq<Box<dyn ListenerMut<CommandResponse>>>,
    before: Option<Table>,
    after: Option<Table>,
    req: CommandRequestView,
    resp: CommandResponseView,
) -> bool {
    exists|reply: CommandResponseView|
        carried_out(before, after, req, reply) && #[trigger] chain_yields(hooks, reply, resp)
}

/// Carries out requests on a backend and lets listeners follow.
pub struct Service<Store = MemTable> {
    inner: ServiceInner<Store>,
}

impl<Store: Storage> Service<Store> {
    /// What the service was built from.
    pub closed spec fn inner(&self) -> ServiceInner<Store> {
        self.inner
    }

    /// The table that the backend holds, `None` where it cannot be told.
    pub open spec fn table(&self) -> Option<Table> {
        self.inner().store().table()
    }

    /// Carries `cmd` out and returns the reply.
    ///
    /// The listeners for requests are shown `cmd`, the backend carries it
    /// out, the listeners for replies are shown its reply, and the listeners
    /// before the reply may change it, one after the other in the order in
    /// which they were added. The listeners themselves stay as they are.
    pub fn execute(&mut self, cmd: CommandRequest) -> (resp: CommandResponse)
        ensures
            served(
                old(self).inner().before_reply(),
                old(self).table(),
                final(self).table(),
                cmd@,
                resp@,
            ),
            final(self).inner().received() == old(self).inner().received(),
            final(self).inner().executed() == old(self).inner().executed(),
            final(self).inner().before_reply() == old(self).inner().before_reply(),
            final(self).inner().after_reply() == old(self).inner().after_reply(),
    {
        self.inner.on_received.notify(&cmd);
        let mut ret = dispatch(cmd, &mut self.inner.store);
        let ghost reply = ret@;
        self.inner.on_executed.notify(&ret);
        self.inner.on_before_reply.notify(&mut ret);
        assert(chain_yields(self.inner.on_before_reply@, reply, ret@));
        ret
    }

    /// Tells the listeners for replies that were sent that one was, in the
    /// order in which they were added.
    pub fn replied(&self) {
        let mut i: usize = 0;
        while i < self.inner.on_after_reply.len()
            invariant
                i <= self.inner.on_after_reply@.len(),
            decreases self.inner.on_after_reply@.len() - i,
        {
            self.inner.on_after_reply[i].call();
            i += 1;
        }
    }
}

impl<Store: Storage> FromSpecImpl<ServiceInner<Store>> for Service<Store> {
    open spec fn obeys_from_spec() -> bool {
        false
    }

    open spec fn from_spec(inner: ServiceInner<Store>) -> Self {
        arbitrary()
    }
}

impl<Store: Storage> From<ServiceInner<Store>> for Service<Store> {
    fn from(inner: ServiceInner<Store>) -> (r: Self)
        ensures
            r.inner() == inner,
    {
        Self { inner }
    }
}

/// A function as a listener.
pub struct Watch<Arg, F: Fn(&Arg)> {
    f: F,
    shown: PhantomData<Arg>,
}

impl<Arg, F: Fn(&Arg)> Watch<Arg, F> {
    #[verifier::type_invariant]
    spec fn callable(self) -> bool {
        forall|arg: &Arg| call_requires(self.f, (arg,))
    }

    /// The function that is called.
    pub closed spec fn function(self) -> F {
        self.f
    }

    /// The listener that calls `f`, which can be called on every value.
    pub fn new(f: F) -> (r: Self)
        requires
            forall|arg: &Arg| call_requires(f, (arg,)),
        ensures
            r.function() == f,
    {
        Watch { f, shown: PhantomData }
    }
}

impl<Arg: Send, F: Fn(&Arg) + Send> Listener<Arg> for Watch<Arg, F> {
    fn call(&self, arg: &Arg) {
        proof {
            use_type_invariant(self);
        }
        (self.f)(arg)
    }
}

/// A function from a value to the value that takes its place, as a
/// listener.
#[verifier::reject_recursive_types(Arg)]
pub struct Change<Arg: View + Default, F: Fn(Arg) -> Arg> {
    f: F,
    changed: PhantomData<Arg>,
}

impl<Arg: View + Default, F: Fn(Arg) -> Arg> Change<Arg, F> {
    #[verifier::type_invariant]
    spec fn callable(self) -> bool {
        forall|arg: Arg| call_requires(self.f, (arg,))
    }

    /// The function that is called.
    pub closed spec fn function(self) -> F {
        self.f
    }

    /// The listener that calls `f`, which can be called on every value.
    pub fn new(f: F) -> (r: Self)
        requires
            forall|arg: Arg| call_requires(f, (arg,)),
        ensures
            r.function() == f,
    {
        Change { f, changed: PhantomData }
    }
}

impl<Arg: View + Default + Send, F: Fn(Arg) -> Arg + Send> ListenerMut<Arg> for Change<Arg, F> {
    /// A call yields the model of what the function returns on a value with
    /// the model that was there.
    open spec fn may_yield(&self, before: Arg::V, after: Arg::V) -> bool {
        exists|from: Arg, to: Arg|
            from@ == before && to@ == after && #[trigger] call_ensures(
                self.function(),
                (from,),
                to,
            )
    }

    fn call(&self, arg: &mut Arg) {
        proof {
            use_type_invariant(self);
        }
        let mut value = Arg::default();
        std::mem::swap(arg, &mut value);
        let ghost from = value;
        let mut next = (self.f)(value);
        assert(call_ensures(self.function(), (from,), next));
        std::mem::swap(arg, &mut next);
    }
}

/// A function as something that is told of an event.
pub struct Tell<F: Fn()> {
    f: F,
}

impl<F: Fn()> Tell<F> {
    #[verifier::type_invariant]
    spec fn callable(self) -> bool {
        call_requires(self.f, ())
    }

    /// The function that is called.
    pub closed spec fn function(self) -> F {
        self.f
    }

    /// The listener that calls `f`, which can be called.
    pub fn new(f: F) -> (r: Self)
        requires
            call_requires(f, ()),
        ensures
            r.function() == f,
    {
        Tell { f }
    }
}

impl<F: Fn() + Send> Signal for Tell<F> {
    fn call(&self) {
        proof {
            use_type_invariant(self);
        }
        (self.f)()
    }
}

} // verus!
