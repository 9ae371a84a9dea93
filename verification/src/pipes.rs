//! Push-based pipe composition: two dual push capabilities (borrowing and
//! owning), basic stage combinators, and a channel-backed fan-out stage
//! that accepts new subscriber chains at runtime and prunes failing ones.
//!
//! Every stage keeps a ghost log of the items pushed into it, its
//! *observations*: a successful push always extends the log by the pushed
//! item, which is what the ordering guarantees of the fan-out bridge are
//! stated over.

use vstd::prelude::*;
use core::marker::PhantomData;
use std::io::Write;
use std::sync::mpsc::{Receiver, SyncSender};
use crate::domains::StrMap;
use crate::merge::{MapUnion, Max, Merge};

verus! {

/// A unary transformation with a per-implementor contract on its result.
pub trait UnaryFn<I> {
    type Output;

    /// Which outputs the transformation may hand back for an input.
    spec fn call_ens(&self, input: I, output: Self::Output) -> bool;

    fn call(&self, input: &I) -> (r: Self::Output)
        ensures
            self.call_ens(*input, r),
    ;
}

/// A stage driven by borrowing pushes.
pub trait Pipe: Sized {
    type Item;

    /// The items pushed into this stage so far, oldest first.
    spec fn obs(&self) -> Seq<Self::Item>;

    /// The stage-specific contract of one push.
    spec fn push_ens(pre: Self, post: Self, item: Self::Item, r: Result<(), String>) -> bool;

    /// Feed one item to the stage by reference.
    #[must_use]
    fn push(&mut self, item: &Self::Item) -> (r: Result<(), String>)
        ensures
            r is Ok ==> final(self).obs() == old(self).obs().push(*item),
            Self::push_ens(*old(self), *final(self), *item, r),
    ;
}

/// A stage driven by owning pushes.
pub trait MovePipe: Sized {
    type Item;

    /// The items pushed into this stage so far, oldest first.
    spec fn obs_m(&self) -> Seq<Self::Item>;

    /// The stage-specific contract of one push.
    spec fn push_ens_m(pre: Self, post: Self, item: Self::Item, r: Result<(), String>) -> bool;

    /// Feed one item to the stage by value.
    #[must_use]
    fn push(&mut self, item: Self::Item) -> (r: Result<(), String>)
        ensures
            r is Ok ==> final(self).obs_m() == old(self).obs_m().push(item),
            Self::push_ens_m(*old(self), *final(self), item, r),
    ;
}

/// Any borrowing-push stage can be driven by value: the item is pushed by
/// reference once, then dropped.
impl<P: Pipe> MovePipe for P {
    type Item = P::Item;

    open spec fn obs_m(&self) -> Seq<P::Item> {
        Pipe::obs(self)
    }

    open spec fn push_ens_m(pre: P, post: P, item: P::Item, r: Result<(), String>) -> bool {
        P::push_ens(pre, post, item, r)
    }

    fn push(&mut self, item: P::Item) -> (r: Result<(), String>) {
        Pipe::push(self, &item)
    }
}

// TRUSTED CHANNEL AND TEXT-SINK ITEMS //

#[verifier::external_type_specification]
#[verifier::external_body]
#[verifier::reject_recursive_types(T)]
pub struct ExSyncSender<T>(SyncSender<T>);

#[verifier::external_type_specification]
#[verifier::external_body]
#[verifier::reject_recursive_types(T)]
pub struct ExReceiver<T>(Receiver<T>);

/// Relies on std::sync::mpsc::sync_channel: a fresh bounded channel whose
/// sender blocks while the buffer holds `bound` items. Nothing is assumed
/// of what later travels through it.
#[verifier::external_body]
fn sync_channel_create<T>(bound: usize) -> (r: (SyncSender<T>, Receiver<T>)) {
    std::sync::mpsc::sync_channel(bound)
}

/// Relies on std::sync::mpsc::SyncSender::send, which fails exactly when
/// the receiver is gone; whether that happens cannot be known here, so
/// nothing is promised of the outcome.
#[verifier::external_body]
fn sender_send<T>(s: &SyncSender<T>, item: T) -> (r: Result<(), String>) {
    match s.send(item) {
        Ok(()) => Ok(()),
        Err(e) => Err(format!("{}", e)),
    }
}

/// Relies on std::sync::mpsc::SyncSender::clone: the copy feeds the same
/// queue, a fact outside this model.
#[verifier::external_body]
fn sender_clone<T>(s: &SyncSender<T>) -> (r: SyncSender<T>) {
    s.clone()
}

/// Relies on std::sync::mpsc::Receiver::try_recv: a non-blocking poll
/// that yields a pending item or nothing; which one depends on other
/// parties, so nothing is promised.
#[verifier::external_body]
fn receiver_try_recv<T>(r: &Receiver<T>) -> (item: Option<T>) {
    match r.try_recv() {
        Ok(v) => Some(v),
        Err(_) => None,
    }
}

/// Relies on writeln! to standard output: the debug tee's text sink, with
/// no contract on the destination or on write success.
#[verifier::external_body]
fn debug_tee<T: core::fmt::Debug>(tag: &str, item: &T) {
    let mut out = std::io::stdout();
    let _ = writeln!(out, "{}: {:?}", tag, item);
}

// STAGES //

/// A terminal sink: accepts every item, always succeeds, forwards nothing.
pub struct NullPipe<T> {
    _phantom: PhantomData<T>,
    hist: Ghost<Seq<T>>,
}

impl<T> NullPipe<T> {
    /// A fresh sink that has observed nothing.
    pub fn new() -> (s: Self)
        ensures
            s.obs() == Seq::<T>::empty(),
    {
        NullPipe { _phantom: PhantomData, hist: Ghost(Seq::empty()) }
    }
}

impl<T> Pipe for NullPipe<T> {
    type Item = T;

    closed spec fn obs(&self) -> Seq<T> {
        self.hist@
    }

    open spec fn push_ens(pre: Self, post: Self, item: T, r: Result<(), String>) -> bool {
        r is Ok
    }

    fn push(&mut self, item: &T) -> (r: Result<(), String>) {
        self.hist = Ghost(self.hist@.push(*item));
        Ok(())
    }
}

/// A debug tee: emits a tagged rendering of each item to the text sink,
/// then forwards the item itself downstream, propagating the downstream
/// result unchanged.
pub struct DebugPipe<P: Pipe> where P::Item: core::fmt::Debug {
    tag: &'static str,
    next_pipe: P,
    hist: Ghost<Seq<P::Item>>,
}

impl<P: Pipe> DebugPipe<P> where P::Item: core::fmt::Debug {
    /// The downstream stage.
    pub closed spec fn downstream(&self) -> P {
        self.next_pipe
    }

    /// A fresh tee in front of `next_pipe`.
    pub fn new(tag: &'static str, next_pipe: P) -> (s: Self)
        ensures
            s.obs() == Seq::<P::Item>::empty(),
            s.downstream() == next_pipe,
    {
        DebugPipe { tag, next_pipe, hist: Ghost(Seq::empty()) }
    }
}

impl<P: Pipe> Pipe for DebugPipe<P> where P::Item: core::fmt::Debug {
    type Item = P::Item;

    closed spec fn obs(&self) -> Seq<P::Item> {
        self.hist@
    }

    open spec fn push_ens(pre: Self, post: Self, item: P::Item, r: Result<(), String>) -> bool {
        &&& P::push_ens(pre.downstream(), post.downstream(), item, r)
        &&& r is Ok ==> post.downstream().obs() == pre.downstream().obs().push(item)
    }

    fn push(&mut self, item: &P::Item) -> (r: Result<(), String>) {
        debug_tee(self.tag, item);
        let r = self.next_pipe.push(item);
        self.hist = Ghost(self.hist@.push(*item));
        r
    }
}

/// A clone adapter: lets a borrowing producer drive an owning stage by
/// cloning each item before forwarding it.
pub struct ClonePipe<P: MovePipe> where P::Item: Clone {
    next_pipe: P,
    hist: Ghost<Seq<P::Item>>,
}

impl<P: MovePipe> ClonePipe<P> where P::Item: Clone {
    /// The downstream stage.
    pub closed spec fn downstream(&self) -> P {
        self.next_pipe
    }

    /// A fresh adapter in front of `next_pipe`.
    pub fn new(next_pipe: P) -> (s: Self)
        ensures
            s.obs() == Seq::<P::Item>::empty(),
            s.downstream() == next_pipe,
    {
        ClonePipe { next_pipe, hist: Ghost(Seq::empty()) }
    }
}

impl<P: MovePipe> Pipe for ClonePipe<P> where P::Item: Clone {
    type Item = P::Item;

    closed spec fn obs(&self) -> Seq<P::Item> {
        self.hist@
    }

    open spec fn push_ens(pre: Self, post: Self, item: P::Item, r: Result<(), String>) -> bool {
        exists|c: P::Item|
            {
                &&& #[trigger] cloned::<P::Item>(item, c)
                &&& P::push_ens_m(pre.downstream(), post.downstream(), c, r)
                &&& (r is Ok ==> post.downstream().obs_m() == pre.downstream().obs_m().push(c))
            }
    }

    fn push(&mut self, item: &P::Item) -> (r: Result<(), String>) {
        let c = item.clone();
        let ghost gc = c;
        let r = self.next_pipe.push(c);
        self.hist = Ghost(self.hist@.push(*item));
        proof {
            assert(cloned::<P::Item>(*item, gc));
        }
        r
    }
}

/// A lattice accumulator: owns a semilattice value for a chosen operator;
/// each pushed item is merged in, then the whole current state — never the
/// raw delta — is forwarded downstream, so observers see cumulative,
/// monotonically non-decreasing snapshots.
pub struct LatticePipe<F: Merge, P: Pipe<Item = F::Domain>> {
    value: F::Domain,
    next_pipe: P,
    hist: Ghost<Seq<F::Domain>>,
}

impl<F: Merge, P: Pipe<Item = F::Domain>> LatticePipe<F, P> {
    /// The accumulated state.
    pub closed spec fn current(&self) -> F::Domain {
        self.value
    }

    /// The downstream stage.
    pub closed spec fn downstream(&self) -> P {
        self.next_pipe
    }

    /// A fresh accumulator starting from `bottom`.
    pub fn new(bottom: F::Domain, next_pipe: P) -> (s: Self)
        ensures
            s.obs_m() == Seq::<F::Domain>::empty(),
            s.current() == bottom,
            s.downstream() == next_pipe,
    {
        LatticePipe { value: bottom, next_pipe, hist: Ghost(Seq::empty()) }
    }
}

impl<F: Merge, P: Pipe<Item = F::Domain>> MovePipe for LatticePipe<F, P> {
    type Item = F::Domain;

    closed spec fn obs_m(&self) -> Seq<F::Domain> {
        self.hist@
    }

    open spec fn push_ens_m(
        pre: Self,
        post: Self,
        item: F::Domain,
        r: Result<(), String>,
    ) -> bool {
        &&& F::view_of(&post.current()) == F::merge_spec(
            F::view_of(&pre.current()),
            F::view_of(&item),
        )
        &&& P::push_ens(pre.downstream(), post.downstream(), post.current(), r)
        &&& (r is Ok ==> post.downstream().obs() == pre.downstream().obs().push(post.current()))
    }

    fn push(&mut self, item: F::Domain) -> (r: Result<(), String>) {
        F::merge_in(&mut self.value, item);
        let r = self.next_pipe.push(&self.value);
        self.hist = Ghost(self.hist@.push(item));
        r
    }
}

/// A sender handle wrapping a bounded channel sender: cheap to duplicate,
/// safe to drive from several parties, used to splice new subscriber
/// chains into a fan-out stage.
#[verifier::reject_recursive_types(T)]
pub struct MpscPipe<T> {
    sender: SyncSender<T>,
    hist: Ghost<Seq<T>>,
}

impl<T> MpscPipe<T> {
    /// Wrap a channel sender into a pipe.
    pub fn create(sender: SyncSender<T>) -> (s: Self)
        ensures
            s.obs_m() == Seq::<T>::empty(),
    {
        MpscPipe { sender, hist: Ghost(Seq::empty()) }
    }
}

impl<T> MovePipe for MpscPipe<T> {
    type Item = T;

    closed spec fn obs_m(&self) -> Seq<T> {
        self.hist@
    }

    open spec fn push_ens_m(pre: Self, post: Self, item: T, r: Result<(), String>) -> bool {
        r is Err ==> post.obs_m() == pre.obs_m()
    }

    fn push(&mut self, item: T) -> (r: Result<(), String>) {
        let ghost gi = item;
        match sender_send(&self.sender, item) {
            Ok(()) => {
                self.hist = Ghost(self.hist@.push(gi));
                Ok(())
            },
            Err(e) => Err(e),
        }
    }
}

impl<T> Clone for MpscPipe<T> {
    /// Duplicate the handle; the copy feeds the same queue and starts
    /// with an empty log of its own sends.
    fn clone(&self) -> (s: Self)
        ensures
            s.obs_m() == Seq::<T>::empty(),
    {
        MpscPipe { sender: sender_clone(&self.sender), hist: Ghost(Seq::empty()) }
    }
}

/// How many subscriber registrations the bridge's channel can hold.
pub const REGISTRATION_QUEUE_BOUND: usize = 8;

/// One best-effort fan-out round: of the candidate subscribers `cand`,
/// the positions `kept` — exactly those whose push succeeded — remain, in
/// order, each having observed `item`; every dropped candidate's own push
/// returned a failure; and the round as a whole fails exactly when some
/// subscriber did, though delivery was attempted for all of them.
pub open spec fn fan_out_kept<P: Pipe>(
    cand: Seq<P>,
    kept_pipes: Seq<P>,
    item: P::Item,
    r: Result<(), String>,
    kept: Seq<int>,
) -> bool {
    &&& kept.len() == kept_pipes.len()
    &&& forall|x: int| 0 <= x < kept.len() ==> 0 <= #[trigger] kept[x] < cand.len()
    &&& forall|x: int, y: int| 0 <= x < y < kept.len() ==> kept[x] < kept[y]
    &&& forall|x: int|
        0 <= x < kept.len() ==> (#[trigger] kept_pipes[x]).obs() == cand[kept[x]].obs().push(item)
    &&& forall|j: int|
        0 <= j < cand.len() && !(#[trigger] kept.contains(j)) ==> exists|p2: P, r2: Result<
            (),
            String,
        >| r2 is Err && #[trigger] P::push_ens(cand[j], p2, item, r2)
    &&& (r is Ok <==> kept.len() == cand.len())
}

/// The fan-out stage: owns the live subscriber list and the receiving end
/// of the registration channel. Each push first drains, without blocking,
/// any pending registrations — a registration submitted between two pushes
/// becomes visible at the next push — then forwards the item to every
/// live subscriber, removing those whose push fails.
#[verifier::reject_recursive_types(P)]
pub struct SplitPipe<P: MovePipe> where P::Item: Clone {
    pipe_receiver: Receiver<P>,
    pipes: Vec<P>,
    hist: Ghost<Seq<P::Item>>,
}

impl<P: Pipe> SplitPipe<P> where P::Item: Clone {
    /// The live subscriber list, in registration order.
    pub closed spec fn subs(&self) -> Seq<P> {
        self.pipes@
    }

    /// A fresh fan-out stage with no subscribers, paired with the sender
    /// handle through which new subscriber chains are registered.
    pub fn create() -> (r: (Self, MpscPipe<P>))
        ensures
            r.0.subs() == Seq::<P>::empty(),
            r.0.obs() == Seq::<P::Item>::empty(),
            r.1.obs_m() == Seq::<P>::empty(),
    {
        let (sender, receiver) = sync_channel_create(REGISTRATION_QUEUE_BOUND);
        let inst = SplitPipe { pipe_receiver: receiver, pipes: Vec::new(), hist: Ghost(Seq::empty()) };
        let mpsc_pipe = MpscPipe::create(sender);
        (inst, mpsc_pipe)
    }
}

impl<P: Pipe> Pipe for SplitPipe<P> where P::Item: Clone {
    type Item = P::Item;

    closed spec fn obs(&self) -> Seq<P::Item> {
        self.hist@
    }

    open spec fn push_ens(pre: Self, post: Self, item: P::Item, r: Result<(), String>) -> bool {
        &&& post.obs() == pre.obs().push(item)
        &&& exists|regs: Seq<P>, kept: Seq<int>| #[trigger]
            fan_out_kept::<P>(pre.subs() + regs, post.subs(), item, r, kept)
    }

    fn push(&mut self, item: &P::Item) -> (r: Result<(), String>) {
        let ghost pre_pipes = self.pipes@;
        let ghost mut regs: Seq<P> = Seq::empty();
        // the channel holds at most REGISTRATION_QUEUE_BOUND registrations,
        // so this many polls consume everything that was pending when the
        // push began; what arrives later waits for the next push
        let mut rounds: usize = 0;
        while rounds < REGISTRATION_QUEUE_BOUND
            invariant
                self.pipes@ == pre_pipes + regs,
                self.hist@ == old(self).hist@,
                self.pipe_receiver == old(self).pipe_receiver,
            decreases REGISTRATION_QUEUE_BOUND - rounds,
        {
            match receiver_try_recv(&self.pipe_receiver) {
                Some(p) => {
                    let ghost gp = p;
                    self.pipes.push(p);
                    proof {
                        regs = regs.push(gp);
                        assert(self.pipes@ =~= pre_pipes + regs);
                    }
                },
                None => {
                    break ;
                },
            }
            rounds += 1;
        }
        let ghost cand = self.pipes@;
        let mut cand_vec: Vec<P> = Vec::new();
        core::mem::swap(&mut cand_vec, &mut self.pipes);
        let mut kept_pipes: Vec<P> = Vec::new();
        let ghost mut kept: Seq<int> = Seq::empty();
        let mut result: Result<(), String> = Ok(());
        let n = cand_vec.len();
        let mut i: usize = 0;
        while i < n
            invariant
                0 <= i <= n,
                n == cand.len(),
                cand_vec@ == cand.skip(i as int),
                kept.len() == kept_pipes@.len(),
                kept.len() <= i,
                forall|x: int| 0 <= x < kept.len() ==> 0 <= #[trigger] kept[x] < i,
                forall|x: int, y: int| 0 <= x < y < kept.len() ==> kept[x] < kept[y],
                forall|x: int|
                    0 <= x < kept.len() ==> (#[trigger] kept_pipes@[x]).obs()
                        == cand[kept[x]].obs().push(*item),
                forall|j: int|
                    0 <= j < i && !(#[trigger] kept.contains(j)) ==> exists|p2: P, r2: Result<
                        (),
                        String,
                    >| r2 is Err && #[trigger] P::push_ens(cand[j], p2, *item, r2),
                result is Ok <==> kept.len() == i,
            decreases n - i,
        {
            let mut p = cand_vec.remove(0);
            proof {
                assert(cand.skip(i as int)[0] == cand[i as int]);
                assert(cand.skip(i as int).remove(0) =~= cand.skip(i + 1));
            }
            let ghost kept_pre = kept;
            let pr = p.push(item);
            let ghost gpr = pr;
            let ghost gpost = p;
            match pr {
                Ok(()) => {
                    kept_pipes.push(p);
                    proof {
                        kept = kept.push(i as int);
                        assert forall|j: int|
                            0 <= j < i + 1 && !(#[trigger] kept.contains(j)) implies exists|
                            p2: P,
                            r2: Result<(), String>,
                        | r2 is Err && #[trigger] P::push_ens(cand[j], p2, *item, r2) by {
                            crate::domains::lemma_push_contains(kept_pre, i as int, j);
                            assert(j < i && !kept_pre.contains(j));
                        }
                    }
                },
                Err(e) => {
                    proof {
                        assert(gpr is Err && P::push_ens(cand[i as int], gpost, *item, gpr));
                        assert forall|j: int|
                            0 <= j < i + 1 && !(#[trigger] kept.contains(j)) implies exists|
                            p2: P,
                            r2: Result<(), String>,
                        | r2 is Err && #[trigger] P::push_ens(cand[j], p2, *item, r2) by {
                            if j == i {
                                assert(gpr is Err && P::push_ens(cand[j], gpost, *item, gpr));
                            }
                        }
                    }
                    // the failed subscriber is dropped, never retried; the
                    // round keeps its first error but still reaches everyone
                    if result.is_ok() {
                        result = Err(e);
                    }
                },
            }
            i += 1;
        }
        proof {
            assert(cand.skip(n as int) =~= Seq::<P>::empty());
        }
        self.pipes = kept_pipes;
        self.hist = Ghost(self.hist@.push(*item));
        proof {
            assert(cand == pre_pipes + regs);
            assert(fan_out_kept::<P>(old(self).subs() + regs, self.subs(), *item, result, kept));
        }
        result
    }
}

/// A map-filter stage: applies a transform that yields either a
/// replacement item or nothing; produced items are forwarded, nothing
/// results are silently dropped.
pub struct MapFilterPipe<T, F: UnaryFn<T, Output = Option<P::Item>>, P: MovePipe> {
    mapfilter: F,
    next_pipe: P,
    _phantom: PhantomData<T>,
    hist: Ghost<Seq<T>>,
}

impl<T, F: UnaryFn<T, Output = Option<P::Item>>, P: MovePipe> MapFilterPipe<T, F, P> {
    /// The transform.
    pub closed spec fn transform(&self) -> F {
        self.mapfilter
    }

    /// The downstream stage.
    pub closed spec fn downstream(&self) -> P {
        self.next_pipe
    }

    /// A fresh stage applying `mapfilter` in front of `next_pipe`.
    pub fn new(mapfilter: F, next_pipe: P) -> (s: Self)
        ensures
            s.obs() == Seq::<T>::empty(),
            s.transform() == mapfilter,
            s.downstream() == next_pipe,
    {
        MapFilterPipe { mapfilter, next_pipe, _phantom: PhantomData, hist: Ghost(Seq::empty()) }
    }
}

impl<T, F: UnaryFn<T, Output = Option<P::Item>>, P: MovePipe> Pipe for MapFilterPipe<T, F, P> {
    type Item = T;

    closed spec fn obs(&self) -> Seq<T> {
        self.hist@
    }

    open spec fn push_ens(pre: Self, post: Self, item: T, r: Result<(), String>) -> bool {
        &&& pre.transform() == post.transform()
        &&& exists|out: Option<P::Item>|
            {
                &&& #[trigger] pre.transform().call_ens(item, out)
                &&& match out {
                    Some(v) => P::push_ens_m(pre.downstream(), post.downstream(), v, r) && (r
                        is Ok ==> post.downstream().obs_m() == pre.downstream().obs_m().push(v)),
                    None => r is Ok && post.downstream() == pre.downstream(),
                }
            }
    }

    fn push(&mut self, item: &T) -> (r: Result<(), String>) {
        let out = self.mapfilter.call(item);
        let ghost gout = out;
        let r = match out {
            Some(v) => self.next_pipe.push(v),
            None => Ok(()),
        };
        self.hist = Ghost(self.hist@.push(*item));
        proof {
            assert(self.mapfilter.call_ens(*item, gout));
        }
        r
    }
}

// A SMALL DATAFLOW DEMONSTRATION //

/// Reads one key out of a pushed map snapshot.
struct ReadKey {
    key: &'static str,
}

impl ReadKey {
    fn new(key: &'static str) -> (s: Self)
        ensures
            s.key == key,
    {
        ReadKey { key }
    }
}

impl UnaryFn<StrMap<String>> for ReadKey {
    type Output = Option<String>;

    closed spec fn call_ens(&self, input: StrMap<String>, output: Option<String>) -> bool {
        match output {
            Some(v) => input@.dom().contains(self.key@) && v == input@[self.key@],
            None => !input@.dom().contains(self.key@),
        }
    }

    fn call(&self, input: &StrMap<String>) -> (r: Option<String>) {
        let key = self.key.to_owned();
        match input.get(&key) {
            Some(v) => Some(v.clone()),
            None => None,
        }
    }
}

/// Turns one key-value pair into a singleton map update.
struct KvToStrMap;

impl UnaryFn<(String, String)> for KvToStrMap {
    type Output = Option<StrMap<String>>;

    closed spec fn call_ens(
        &self,
        input: (String, String),
        output: Option<StrMap<String>>,
    ) -> bool {
        match output {
            Some(m) => m@ == Map::<Seq<char>, String>::empty().insert(input.0@, input.1),
            None => false,
        }
    }

    fn call(&self, input: &(String, String)) -> (r: Option<StrMap<String>>) {
        let mut m: StrMap<String> = StrMap::new();
        m.insert(input.0.clone(), input.1.clone());
        Some(m)
    }
}

/// A runnable demonstration of the whole pipeline: key-value writes are
/// mapped into singleton maps, accumulated under a key-wise max-of-strings
/// lattice, and fanned out to key readers that register while the flow is
/// live. Registration and fan-out go through a channel, so a result is
/// reported rather than promised.
pub fn test() -> Result<(), String> {
    // Set up pipes.
    let (write_pipe, mut read_pipe) = SplitPipe::create();
    let write_pipe = LatticePipe::<MapUnion<StrMap<Max<String>>>, _>::new(StrMap::new(), write_pipe);
    let mut write_pipe = MapFilterPipe::new(KvToStrMap, write_pipe);

    // Add first reader.
    let read_pipe_foo = NullPipe::new();
    let read_pipe_foo = DebugPipe::new("foo_0", read_pipe_foo);
    let read_pipe_foo = MapFilterPipe::new(ReadKey::new("foo"), read_pipe_foo);
    read_pipe.push(read_pipe_foo)?;

    // Add second reader.
    let read_pipe_xyz = NullPipe::new();
    let read_pipe_xyz = DebugPipe::new("xyz_0", read_pipe_xyz);
    let read_pipe_xyz = MapFilterPipe::new(ReadKey::new("xyz"), read_pipe_xyz);
    read_pipe.push(read_pipe_xyz)?;

    // Do first set of writes.
    MovePipe::push(&mut write_pipe, ("foo".to_owned(), "bar".to_owned()))?;
    MovePipe::push(&mut write_pipe, ("bin".to_owned(), "bag".to_owned()))?;

    // Add third reader.
    let read_pipe_foo = NullPipe::new();
    let read_pipe_foo = DebugPipe::new("foo_1", read_pipe_foo);
    let read_pipe_foo = MapFilterPipe::new(ReadKey::new("foo"), read_pipe_foo);
    read_pipe.push(read_pipe_foo)?;

    // Do second set of writes.
    MovePipe::push(&mut write_pipe, ("foo".to_owned(), "baz".to_owned()))?;
    MovePipe::push(&mut write_pipe, ("xyz".to_owned(), "zzy".to_owned()))?;

    // Add fourth reader.
    let read_pipe_foo = NullPipe::new();
    let read_pipe_foo = DebugPipe::new("foo_2", read_pipe_foo);
    let read_pipe_foo = MapFilterPipe::new(ReadKey::new("foo"), read_pipe_foo);
    read_pipe.push(read_pipe_foo)?;

    Ok(())
}

} // verus!
