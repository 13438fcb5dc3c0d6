use timely_progress::change_batch::ChangeBatch;
use timely_progress::channels::{Message, Tee};
use timely_progress::feedback::{ConnectLoop, LoopVariable};
use timely_progress::frontier::MutableAntichain;
use timely_progress::graph::GraphBuilder;
use timely_progress::input::{Input, InputError, BUFFER_CAPACITY};
use timely_progress::operate::Operate;
use timely_progress::timestamp::{Product, Summary};

fn ts(outer: u64, inner: u64) -> Product {
    Product { outer, inner }
}

fn net_at(batch: &ChangeBatch, t: Product) -> i64 {
    batch.updates().iter().filter(|(k, _)| *k == t).map(|(_, d)| *d).sum()
}

fn sorted_elements(m: &MutableAntichain) -> Vec<Product> {
    let mut v: Vec<Product> = m.elements().clone();
    v.sort_by_key(|p| (p.outer, p.inner));
    v
}

#[test]
fn product_partial_order() {
    assert!(ts(0, 0).less_equal(&ts(5, 7)));
    assert!(ts(1, 2).less_equal(&ts(1, 2)));
    assert!(!ts(0, 1).less_equal(&ts(1, 0)));
    assert!(!ts(1, 0).less_equal(&ts(0, 1)));
    assert_eq!(Product::minimum(), ts(0, 0));
}

#[test]
fn summary_results_in_values() {
    let s = Summary::step(1);
    assert_eq!(s.results_in(&ts(0, 2)), Some(ts(0, 3)));
    let wide = Summary { outer: 2, inner: 3 };
    assert_eq!(wide.results_in(&ts(1, 1)), Some(ts(3, 4)));
    // the edge cannot carry a timestamp past the representable range
    assert_eq!(s.results_in(&ts(0, u64::MAX)), None);
}

#[test]
fn drain_moves_entries_exactly_once() {
    let mut src = ChangeBatch::new();
    let mut dst = ChangeBatch::new();
    dst.update(ts(0, 1), 5);
    src.update(ts(0, 1), 2);
    src.update(ts(0, 2), -1);
    src.drain_into(&mut dst);
    assert!(src.is_empty());
    assert_eq!(
        dst.updates().as_slice(),
        &[(ts(0, 1), 5), (ts(0, 1), 2), (ts(0, 2), -1)]
    );
    // a second drain finds nothing left to move
    src.drain_into(&mut dst);
    assert_eq!(dst.len(), 3);
    assert!(src.is_empty());
}

#[test]
fn frontier_tracks_minimal_elements() {
    let mut frontier = MutableAntichain::new_bottom(ts(0, 0));
    let mut ledger = ChangeBatch::new();
    assert_eq!(sorted_elements(&frontier), vec![ts(0, 0)]);

    // dominated timestamps do not change the minimal antichain
    frontier.update_weight(&ts(1, 2), 1, &mut ledger);
    frontier.update_weight(&ts(2, 1), 1, &mut ledger);
    assert_eq!(sorted_elements(&frontier), vec![ts(0, 0)]);
    assert_eq!(ledger.len(), 0);

    // releasing the bottom exposes the two incomparable survivors
    frontier.update_weight(&ts(0, 0), -1, &mut ledger);
    assert_eq!(sorted_elements(&frontier), vec![ts(1, 2), ts(2, 1)]);
    assert_eq!(net_at(&ledger, ts(0, 0)), -1);
    assert_eq!(net_at(&ledger, ts(1, 2)), 1);
    assert_eq!(net_at(&ledger, ts(2, 1)), 1);

    // a timestamp below both collapses the frontier to a single element
    frontier.update_weight(&ts(1, 1), 1, &mut ledger);
    assert_eq!(sorted_elements(&frontier), vec![ts(1, 1)]);
    assert_eq!(net_at(&ledger, ts(1, 1)), 1);
    assert_eq!(net_at(&ledger, ts(1, 2)), 0);
    assert_eq!(net_at(&ledger, ts(2, 1)), 0);
}

#[test]
fn frontier_overlapping_holds_collapse() {
    let mut frontier = MutableAntichain::new_bottom(ts(0, 0));
    let mut ledger = ChangeBatch::new();
    // many holds on one timestamp are a single frontier element
    frontier.update_weight(&ts(0, 0), 2, &mut ledger);
    assert_eq!(ledger.len(), 0);
    frontier.update_weight(&ts(0, 0), -2, &mut ledger);
    assert_eq!(ledger.len(), 0);
    assert_eq!(sorted_elements(&frontier), vec![ts(0, 0)]);
    frontier.update_weight(&ts(0, 0), -1, &mut ledger);
    assert_eq!(sorted_elements(&frontier), Vec::<Product>::new());
    assert_eq!(net_at(&ledger, ts(0, 0)), -1);
}

#[test]
fn tee_delivers_to_every_consumer() {
    let mut tee: Tee<u64> = Tee::new();
    let a = tee.register();
    let b = tee.register();
    tee.push(&Message::Data(timely_progress::channels::Bundle {
        time: ts(0, 4),
        data: vec![9, 9],
    }));
    tee.push(&Message::EndOfStream);
    for idx in [a, b] {
        let q = tee.take(idx);
        assert_eq!(q.len(), 2);
        match &q[0] {
            Message::Data(bundle) => {
                assert_eq!(bundle.time, ts(0, 4));
                assert_eq!(bundle.data, vec![9, 9]);
            }
            Message::EndOfStream => panic!("expected a bundle first"),
        }
        assert!(matches!(q[1], Message::EndOfStream));
    }
}

#[test]
fn feedback_forwards_iff_within_limit() {
    let mut builder = GraphBuilder::new(1);
    let (mut handle, _stream) = LoopVariable::<u64>::loop_variable(&mut builder, ts(0, 3), Summary::step(1));
    let consumer = handle.register_consumer();

    // within the limit: time advances by the summary and the data survives
    handle.push(Message::Data(timely_progress::channels::Bundle {
        time: ts(0, 2),
        data: vec![11],
    }));
    // at the boundary the advanced time exceeds the limit: dropped
    handle.push(Message::Data(timely_progress::channels::Bundle {
        time: ts(0, 3),
        data: vec![22],
    }));
    let out = handle.take_output(consumer);
    assert_eq!(out.len(), 1);
    match &out[0] {
        Message::Data(bundle) => {
            assert_eq!(bundle.time, ts(0, 3));
            assert_eq!(bundle.data, vec![11]);
        }
        Message::EndOfStream => panic!("expected a bundle"),
    }

    // both arrivals were counted as consumed at their original times
    let mut consumed = ChangeBatch::new();
    let mut internal = ChangeBatch::new();
    let mut produced = ChangeBatch::new();
    let active = handle.pull_internal_progress(&mut consumed, &mut internal, &mut produced);
    assert!(!active);
    assert_eq!(net_at(&consumed, ts(0, 2)), 1);
    assert_eq!(net_at(&consumed, ts(0, 3)), 1);
    assert_eq!(net_at(&produced, ts(0, 3)), 1);
    assert_eq!(net_at(&produced, ts(0, 4)), 0);
    assert!(internal.is_empty());
}

#[test]
fn feedback_forwards_end_of_stream() {
    let mut builder = GraphBuilder::new(1);
    let (mut handle, _stream) = LoopVariable::<u64>::loop_variable(&mut builder, ts(0, 0), Summary::step(1));
    let consumer = handle.register_consumer();
    // nothing can stay within limit 0, yet the close signal still crosses
    handle.push(Message::Data(timely_progress::channels::Bundle {
        time: ts(0, 0),
        data: vec![1],
    }));
    handle.push(Message::EndOfStream);
    let out = handle.take_output(consumer);
    assert_eq!(out.len(), 1);
    assert!(matches!(out[0], Message::EndOfStream));
}

#[test]
fn feedback_drops_on_overflowing_summary() {
    let mut builder = GraphBuilder::new(1);
    let (mut handle, _stream) =
        LoopVariable::<u64>::loop_variable(&mut builder, ts(u64::MAX, u64::MAX), Summary::step(1));
    let consumer = handle.register_consumer();
    // the summary yields no result at the top of the range: a dead path
    handle.push(Message::Data(timely_progress::channels::Bundle {
        time: ts(0, u64::MAX),
        data: vec![5],
    }));
    assert!(handle.take_output(consumer).is_empty());
}

#[test]
fn feedback_declares_cycle_summary() {
    let mut builder = GraphBuilder::new(1);
    let (handle, stream) = LoopVariable::<u64>::loop_variable(&mut builder, ts(0, 9), Summary::step(2));
    assert_eq!(stream.port, 0);
    assert_eq!(handle.name(), "Feedback");
    assert_eq!(handle.inputs(), 1);
    assert_eq!(handle.outputs(), 1);
    assert!(!handle.notify_me());
    let (paths, seeds) = handle.get_internal_summary();
    assert_eq!(paths.len(), 1);
    assert_eq!(paths[0].len(), 1);
    assert_eq!(paths[0][0].elements().as_slice(), &[Summary::step(2)]);
    assert_eq!(seeds.len(), 1);
    assert!(seeds[0].is_empty());
}

#[test]
fn connect_loop_records_the_binding() {
    let mut builder = GraphBuilder::new(1);
    let (mut handle, _stream) = LoopVariable::<u64>::loop_variable(&mut builder, ts(0, 1), Summary::step(1));
    let (_input, input_stream) = Input::<u64>::new_input(&mut builder);
    input_stream.connect_loop(&mut builder, &mut handle);
    // the next channel identifier is spent on the connection
    assert_eq!(builder.next_channel, 1);
}

#[test]
fn advance_to_rejects_non_increasing() {
    let mut builder = GraphBuilder::new(1);
    let (mut input, _stream) = Input::<u64>::new_input(&mut builder);
    assert_eq!(input.epoch(), 0);
    assert_eq!(input.advance_to(0), Err(InputError::EpochNotAdvanced));
    assert_eq!(input.advance_to(5), Ok(()));
    assert_eq!(input.epoch(), 5);
    assert_eq!(input.advance_to(5), Err(InputError::EpochNotAdvanced));
    assert_eq!(input.advance_to(4), Err(InputError::EpochNotAdvanced));
    assert_eq!(input.epoch(), 5);
    assert_eq!(input.advance_to(6), Ok(()));
    assert_eq!(input.epoch(), 6);
}

#[test]
fn input_seeds_copies_and_single_hold_moves() {
    let mut builder = GraphBuilder::new(3);
    let (mut input, _stream) = Input::<u64>::new_input(&mut builder);
    assert_eq!(input.name(), "Input");
    assert_eq!(input.inputs(), 0);
    assert_eq!(input.outputs(), 1);

    // the initial summary reports one hold per replica at the bottom
    let (paths, seeds) = input.get_internal_summary();
    assert!(paths.is_empty());
    assert_eq!(seeds.len(), 1);
    assert_eq!(seeds[0].updates().as_slice(), &[(ts(0, 0), 3)]);

    // advancing moves only this replica's single hold
    assert_eq!(input.advance_to(1), Ok(()));
    let mut consumed = ChangeBatch::new();
    let mut internal = ChangeBatch::new();
    let mut produced = ChangeBatch::new();
    assert!(!input.pull_internal_progress(&mut consumed, &mut internal, &mut produced));
    assert!(consumed.is_empty());
    assert!(produced.is_empty());
    assert_eq!(net_at(&internal, ts(0, 0)), -1);
    assert_eq!(net_at(&internal, ts(0, 1)), 1);
}

#[test]
fn pulls_are_idempotent_when_quiet() {
    let mut builder = GraphBuilder::new(1);
    let (mut input, _stream) = Input::<u64>::new_input(&mut builder);
    assert_eq!(input.advance_to(2), Ok(()));
    let mut consumed = ChangeBatch::new();
    let mut internal = ChangeBatch::new();
    let mut produced = ChangeBatch::new();
    input.pull_internal_progress(&mut consumed, &mut internal, &mut produced);
    let drained = internal.len();
    assert!(drained > 0);
    // nothing changed since: a second drain moves nothing
    input.pull_internal_progress(&mut consumed, &mut internal, &mut produced);
    assert_eq!(internal.len(), drained);
    assert!(consumed.is_empty());
    assert!(produced.is_empty());
}

#[test]
fn capacity_send_flushes_once_exactly() {
    let mut builder = GraphBuilder::new(1);
    let (mut input, _stream) = Input::<u64>::new_input(&mut builder);
    let consumer = input.register_consumer();
    for v in 0..BUFFER_CAPACITY as u64 {
        input.send(v);
    }
    // exactly one automatic flush, with zero leftover buffered records
    let out = input.take_output(consumer);
    assert_eq!(out.len(), 1);
    match &out[0] {
        Message::Data(bundle) => {
            assert_eq!(bundle.time, ts(0, 0));
            assert_eq!(bundle.data.len(), BUFFER_CAPACITY);
            assert_eq!(bundle.data[0], 0);
            assert_eq!(bundle.data[BUFFER_CAPACITY - 1], BUFFER_CAPACITY as u64 - 1);
        }
        Message::EndOfStream => panic!("expected the flushed bundle"),
    }
    // the buffer is empty, so closing the epoch flushes nothing further
    assert_eq!(input.advance_to(1), Ok(()));
    let out = input.take_output(consumer);
    assert_eq!(out.len(), 1);
    assert!(matches!(out[0], Message::EndOfStream));

    let mut consumed = ChangeBatch::new();
    let mut internal = ChangeBatch::new();
    let mut produced = ChangeBatch::new();
    input.pull_internal_progress(&mut consumed, &mut internal, &mut produced);
    assert_eq!(net_at(&produced, ts(0, 0)), BUFFER_CAPACITY as i64);
}

#[test]
fn close_releases_the_hold() {
    let mut builder = GraphBuilder::new(1);
    let (mut input, _stream) = Input::<u64>::new_input(&mut builder);
    let consumer = input.register_consumer();
    input.send(3);
    let (progress, mut output) = input.close();
    assert_eq!(net_at(&progress, ts(0, 0)), -1);
    let out = output.take_queue(consumer);
    assert_eq!(out.len(), 2);
    match &out[0] {
        Message::Data(bundle) => {
            assert_eq!(bundle.time, ts(0, 0));
            assert_eq!(bundle.data, vec![3]);
        }
        Message::EndOfStream => panic!("expected the final flush first"),
    }
    assert!(matches!(out[1], Message::EndOfStream));
}

#[test]
fn cycle_circulates_until_limit() {
    let mut builder = GraphBuilder::new(1);
    let (mut input, _input_stream) = Input::<u64>::new_input(&mut builder);
    let input_consumer = input.register_consumer();
    let (mut feedback, feedback_stream) =
        LoopVariable::<u64>::loop_variable(&mut builder, ts(0, 3), Summary::step(1));
    let feedback_consumer = feedback.register_consumer();
    feedback_stream.connect_loop(&mut builder, &mut feedback);

    // introduce x at epoch 0, then close the epoch so the bundle flushes
    input.send(42);
    assert_eq!(input.advance_to(1), Ok(()));

    // play the channel: everything the input emitted enters the cycle
    let mut observed: Vec<u64> = Vec::new();
    for message in input.take_output(input_consumer) {
        if let Message::Data(bundle) = &message {
            assert_eq!(bundle.data, vec![42]);
            observed.push(bundle.time.inner);
        }
        feedback.push(message);
    }
    // circulate: each round the cycle's output feeds its own input
    let mut saw_close = false;
    loop {
        let round = feedback.take_output(feedback_consumer);
        if round.is_empty() {
            break;
        }
        for message in round {
            match &message {
                Message::Data(bundle) => {
                    assert_eq!(bundle.data, vec![42]);
                    observed.push(bundle.time.inner);
                    feedback.push(message);
                }
                Message::EndOfStream => {
                    saw_close = true;
                }
            }
        }
    }
    // x is seen at 0 through 3 and the attempt at 4 is dropped
    assert_eq!(observed, vec![0, 1, 2, 3]);
    assert!(saw_close);

    // the progress report accounts for every circulation
    let mut consumed = ChangeBatch::new();
    let mut internal = ChangeBatch::new();
    let mut produced = ChangeBatch::new();
    feedback.pull_internal_progress(&mut consumed, &mut internal, &mut produced);
    assert_eq!(net_at(&consumed, ts(0, 0)), 1);
    assert_eq!(net_at(&consumed, ts(0, 3)), 1);
    assert_eq!(net_at(&produced, ts(0, 1)), 1);
    assert_eq!(net_at(&produced, ts(0, 3)), 1);
    assert_eq!(net_at(&produced, ts(0, 4)), 0);
}
