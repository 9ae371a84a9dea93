use std::cmp::Ordering;
use std::sync::mpsc::sync_channel;

use spinach::domains::StrMap;
use spinach::merge::{MapUnion, Max, Merge};
use spinach::pipes::{
    ClonePipe, DebugPipe, LatticePipe, MapFilterPipe, MovePipe, MpscPipe, NullPipe, Pipe,
    SplitPipe,
};
use spinach::semilattice::Semilattice;

#[test]
pub fn run_test() {
    println!("{:?}", spinach::pipes::test());
}

#[test]
fn null_pipe_always_accepts() {
    let mut sink: NullPipe<u64> = NullPipe::new();
    assert!(Pipe::push(&mut sink, &1).is_ok());
    assert!(Pipe::push(&mut sink, &2).is_ok());
}

#[test]
fn debug_pipe_forwards_result() {
    let mut tee = DebugPipe::new("tee", NullPipe::<u64>::new());
    assert!(Pipe::push(&mut tee, &7).is_ok());
}

#[test]
fn clone_pipe_drives_owning_stage() {
    let (tx, rx) = sync_channel::<u64>(4);
    let mut adapter = ClonePipe::new(MpscPipe::create(tx));
    assert!(Pipe::push(&mut adapter, &41).is_ok());
    assert_eq!(rx.try_recv(), Ok(41));
}

#[test]
fn mpsc_pipe_fails_without_receiver() {
    let (tx, rx) = sync_channel::<u64>(4);
    let mut pipe = MpscPipe::create(tx);
    drop(rx);
    assert!(MovePipe::push(&mut pipe, 1).is_err());
}

// an unverified test helper may implement the transform trait freely
struct KeepEven;

impl spinach::pipes::UnaryFn<u64> for KeepEven {
    type Output = Option<u64>;

    fn call_ens(&self, _input: u64, _output: Option<u64>) -> bool {
        true
    }

    fn call(&self, input: &u64) -> Option<u64> {
        if input % 2 == 0 {
            Some(input + 100)
        } else {
            None
        }
    }
}

#[test]
fn map_filter_pipe_drops_nothing_results() {
    let (tx, rx) = sync_channel::<u64>(8);
    let mut stage = MapFilterPipe::new(KeepEven, MpscPipe::create(tx));
    assert!(Pipe::push(&mut stage, &1).is_ok());
    assert!(Pipe::push(&mut stage, &2).is_ok());
    assert!(Pipe::push(&mut stage, &3).is_ok());
    assert_eq!(rx.try_recv(), Ok(102));
    assert!(rx.try_recv().is_err());
}

// The fan-out scenario: a subscriber sees items from the push after its
// registration on; a failing subscriber is removed without disturbing the
// rest.
#[test]
fn fan_out_registers_delivers_and_prunes() {
    let (mut bridge, mut handle) = SplitPipe::<ClonePipe<MpscPipe<u64>>>::create();

    // register subscriber A, then push X
    let (a_tx, a_rx) = sync_channel::<u64>(16);
    assert!(MovePipe::push(&mut handle, ClonePipe::new(MpscPipe::create(a_tx))).is_ok());
    assert!(Pipe::push(&mut bridge, &1).is_ok());
    assert_eq!(a_rx.try_recv(), Ok(1));

    // register subscriber B: visible only starting the next push
    let (b_tx, b_rx) = sync_channel::<u64>(16);
    assert!(MovePipe::push(&mut handle, ClonePipe::new(MpscPipe::create(b_tx))).is_ok());

    // push Y: both observe it, and B has seen nothing earlier
    assert!(Pipe::push(&mut bridge, &2).is_ok());
    assert_eq!(a_rx.try_recv(), Ok(2));
    assert_eq!(b_rx.try_recv(), Ok(2));
    assert!(a_rx.try_recv().is_err());
    assert!(b_rx.try_recv().is_err());

    // force A to fail: the round reports the failure but B is served
    drop(a_rx);
    assert!(Pipe::push(&mut bridge, &3).is_err());
    assert_eq!(b_rx.try_recv(), Ok(3));

    // A is gone for good; B keeps receiving and rounds succeed again
    assert!(Pipe::push(&mut bridge, &4).is_ok());
    assert_eq!(b_rx.try_recv(), Ok(4));
    assert!(b_rx.try_recv().is_err());
}

// A duplicated sender handle feeds the same registration queue.
#[test]
fn fan_out_handle_is_duplicable() {
    let (mut bridge, handle) = SplitPipe::<ClonePipe<MpscPipe<u64>>>::create();
    let mut second = handle.clone();
    let (tx, rx) = sync_channel::<u64>(16);
    assert!(MovePipe::push(&mut second, ClonePipe::new(MpscPipe::create(tx))).is_ok());
    assert!(Pipe::push(&mut bridge, &9).is_ok());
    assert_eq!(rx.try_recv(), Ok(9));
}

type Accumulator = MapUnion<StrMap<Max<u64>>>;

fn singleton(k: &str, v: u64) -> StrMap<u64> {
    let mut m = StrMap::new();
    m.insert(k.to_owned(), v);
    m
}

// The lattice-accumulator scenario: downstream snapshots are cumulative
// and non-decreasing under the induced order.
#[test]
fn lattice_pipe_snapshots_are_monotone() {
    let (tx, rx) = sync_channel::<StrMap<u64>>(16);
    let mut acc: LatticePipe<Accumulator, _> =
        LatticePipe::new(StrMap::new(), ClonePipe::new(MpscPipe::create(tx)));

    assert!(MovePipe::push(&mut acc, singleton("a", 1)).is_ok());
    assert!(MovePipe::push(&mut acc, singleton("b", 5)).is_ok());
    assert!(MovePipe::push(&mut acc, singleton("c", 2)).is_ok());
    // repeating known knowledge changes nothing
    assert!(MovePipe::push(&mut acc, singleton("b", 3)).is_ok());

    let mut snaps: Vec<StrMap<u64>> = Vec::new();
    while let Ok(m) = rx.try_recv() {
        snaps.push(m);
    }
    assert_eq!(snaps.len(), 4);
    assert_eq!(snaps[3].get(&"a".to_owned()), Some(&1));
    assert_eq!(snaps[3].get(&"b".to_owned()), Some(&5));
    assert_eq!(snaps[3].get(&"c".to_owned()), Some(&2));
    for i in 0..snaps.len() {
        for j in i..snaps.len() {
            let cmp = Accumulator::partial_cmp(&snaps[i], &snaps[j]);
            assert!(cmp == Some(Ordering::Less) || cmp == Some(Ordering::Equal));
        }
    }
}

#[test]
fn semilattice_only_grows() {
    let mut cell: Semilattice<Max<u64>> = Semilattice::new(3);
    cell.merge_in(5);
    cell.merge_in(4);
    assert_eq!(*cell.reveal_ref(), 5);
    assert_eq!(cell.clone().into_reveal(), 5);
    assert_eq!(cell.into_reveal(), 5);
    let empty: Semilattice<Max<u64>> = Default::default();
    assert_eq!(empty.into_reveal(), 0);
}

#[test]
fn lattice_wrapper_variants() {
    let mut cell: spinach::lattice::Semilattice<u64, Max<u64>> =
        spinach::lattice::Semilattice::new(3);
    cell.merge_in(9);
    assert_eq!(cell.into_reveal(), 9);
    let from_cell: spinach::lattice::Semilattice<u64, Max<u64>> = 4u64.into();
    assert_eq!(from_cell.into_reveal(), 4);
    let empty: spinach::lattice::Semilattice<u64, Max<u64>> = Default::default();
    assert_eq!(empty.into_reveal(), 0);
}
