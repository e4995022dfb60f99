use recorder::dual_frame::{decode_pair, CpuFrame, DualFrameError};
use recorder::average::{averaged_caps, twelve_bit_pair, AveragingRun};
use recorder::cache::{CacheLookup, FrameCache};
use recorder::chunks::chunk_bounds;
use recorder::dual_frame::{
    caps, output_interpretation, check_pair, deinterleave_lines, interleave_lines, offset, plan_pull, record_failure,
    record_pair, reverse_caps, reverse_check, reverse_line_bytes, reverse_offset,
    reverse_output_interpretation, should_swap, DualFrameState, PullPlan, ReverseDualFrameError,
    FRAME_A_MARKER,
};
use recorder::frame::{
    CfaDescriptor, ColorInterpretation, Compression, FrameInterpretation, SampleInterpretation,
};
use recorder::graph::{
    build_order, input_users, GraphError, ProcessingGraphBuilder, ProcessingNodeConfig,
};
use recorder::node::{Caps, NodeID, Request};
use recorder::puller::{
    progress_after, range_end, total_frames, PullOutcome, PullerState, PullerStep,
};
use recorder::row_noise::{
    copy_uncorrectable_rows, row_noise_output_width, strip_offset, NUM_DARKCOLS,
    dark_col_lag, dark_col_rows, green_diff_median, green_diff_table, median_of,
    num_uncorrectable,
};
use recorder::capture::{swap_red_blue, BufferSlots};
use recorder::task_queue::TaskQueue;
use recorder::usb3::{
    aligned_read_len, alignment_for, find_frame_start, slip_done, usb3_step, Alignment, Usb3Step,
};

fn raw12(width: u64, height: u64) -> FrameInterpretation {
    FrameInterpretation {
        width,
        height,
        color_interpretation: ColorInterpretation::Bayer(CfaDescriptor::from_first_red(true, true)),
        sample_interpretation: SampleInterpretation::UInt(12),
        compression: Compression::Uncompressed,
    }
}

#[test]
fn dual_frame_swap_decision() {
    assert!(should_swap(5, 4));
    assert!(!should_swap(4, 5));
    assert!(should_swap(0, 14));
    assert!(!should_swap(0, 13));
}

#[test]
fn dual_frame_pair_check() {
    assert_eq!(check_pair(&[3, 7, 0], &[4, 7, 0], 1), (true, 7));
    assert_eq!(check_pair(&[3, 7, 0], &[5, 7, 0], 1), (false, 7));
    assert_eq!(check_pair(&[14, 7, 0], &[0, 7, 0], 1), (true, 7));
    assert_eq!(check_pair(&[3, 7, 0], &[4, 8, 0], 1), (false, 7));
    assert_eq!(check_pair(&[3, 7, 0], &[4, 7, 0], 7), (false, 7));
}

#[test]
fn dual_frame_pull_plans() {
    let mut state: DualFrameState<u32> = DualFrameState::new();
    assert!(state.ready_for(0));
    assert!(!state.ready_for(1));
    let plan = plan_pull(&mut state);
    assert!(matches!(plan, PullPlan::PullTwo { first: 0, second: 1 }));
    assert_eq!(offset(&plan), 2);
    record_pair(&mut state, 0, 0, 2, 9, false, false, 77u32);
    assert_eq!(state.next, 1);
    assert_eq!(state.next_even, 2);
    assert_eq!(state.last_wrsel, 9);
    assert_eq!(state.old_frame, Some(77));
    let plan = plan_pull(&mut state);
    assert!(matches!(plan, PullPlan::ReuseOld { old: 77, pull: 2 }));
    assert_eq!(offset(&plan), 1);
    assert_eq!(state.old_frame, None);
    record_failure(&mut state, 1, 2, 1);
    assert_eq!(state.next, 2);
    assert_eq!(state.next_even, 3);
}

#[test]
fn dual_frame_interleaves_lines() {
    let a = vec![1u8, 2, FRAME_A_MARKER, 4];
    let b = vec![5u8, 6, 0, 8];
    let out = interleave_lines(&a, &b, 2, 8);
    assert_eq!(out, vec![5u8, 6, 1, 2, 0, 8, FRAME_A_MARKER, 4]);
    let swapped = interleave_lines(&b, &a, 2, 10);
    assert_eq!(swapped, vec![5u8, 6, 1, 2, 0, 8, FRAME_A_MARKER, 4, 0, 0]);
}

#[test]
fn dual_frame_caps_and_interpretation() {
    let c = caps(Caps { frame_count: Some(11), random_access: true });
    assert_eq!(c, Caps { frame_count: Some(5), random_access: true });
    let c = reverse_caps(Caps { frame_count: Some(11), random_access: false });
    assert_eq!(c, Caps { frame_count: Some(22), random_access: false });
    let cfa = CfaDescriptor::from_first_red(false, true);
    let doubled = output_interpretation(raw12(100, 50), cfa);
    assert_eq!(doubled.width, 200);
    assert_eq!(doubled.height, 100);
    assert_eq!(doubled.color_interpretation, ColorInterpretation::Bayer(cfa));
    assert_eq!(doubled.sample_interpretation, SampleInterpretation::UInt(12));
    assert_eq!(reverse_check(doubled), Ok(()));
    let out = reverse_output_interpretation(raw12(100, 50));
    assert_eq!(out.width, 50);
    assert_eq!(out.height, 25);
    assert_eq!(out.sample_interpretation, SampleInterpretation::UInt(8));
}

#[test]
fn reverse_decoder_checks_and_offsets() {
    assert_eq!(reverse_check(raw12(4, 4)), Ok(()));
    let eight = FrameInterpretation {
        sample_interpretation: SampleInterpretation::UInt(8),
        ..raw12(4, 4)
    };
    assert_eq!(reverse_check(eight), Err(ReverseDualFrameError::NotTwelveBit));
    let rgb = FrameInterpretation { color_interpretation: ColorInterpretation::Rgb, ..raw12(4, 4) };
    assert_eq!(reverse_check(rgb), Err(ReverseDualFrameError::NotBayer));
    assert_eq!(reverse_offset(4, false), 0);
    assert_eq!(reverse_offset(4, true), 1);
    assert_eq!(reverse_offset(5, true), 0);
    assert_eq!(reverse_line_bytes(4096), 6144);
}

#[test]
fn reverse_decoder_takes_every_second_line() {
    let input = vec![1u8, 1, 2, 2, 3, 3, 4, 4, 5, 5];
    assert_eq!(deinterleave_lines(&input, 2, 0, 6), vec![1u8, 1, 3, 3, 5, 5]);
    assert_eq!(deinterleave_lines(&input, 2, 1, 6), vec![2u8, 2, 4, 4, 0, 0]);
}

#[test]
fn cache_hit_miss_and_full() {
    let mut cache: FrameCache<u32> = FrameCache::new(1, 2);
    assert_eq!(cache.capacity(), 1);
    assert_eq!(cache.len(), 0);
    assert!(cache.can_proceed(5));
    assert!(matches!(cache.lookup(5, false), CacheLookup::Miss));
    cache.insert_pulled(5, false, 50);
    assert_eq!(cache.len(), 1);
    assert_eq!(cache.remaining(5), Some(1));
    assert!(!cache.can_proceed(6));
    assert!(matches!(cache.lookup(6, false), CacheLookup::Full));
    assert!(matches!(cache.lookup(5, false), CacheLookup::Hit(50)));
    assert_eq!(cache.len(), 0);
    assert_eq!(cache.remaining(5), None);
}

#[test]
fn cache_single_consumer_never_blocks() {
    let mut cache: FrameCache<u32> = FrameCache::new(1, 1);
    for frame in 0..5u64 {
        assert!(cache.can_proceed(frame));
        assert!(matches!(cache.lookup(frame, false), CacheLookup::Miss));
        cache.insert_pulled(frame, false, frame as u32);
        assert_eq!(cache.len(), 0);
    }
    cache.insert_pulled(9, true, 90);
    assert_eq!(cache.remaining(9), Some(1));
    assert!(matches!(cache.lookup(9, false), CacheLookup::Hit(90)));
    assert_eq!(cache.len(), 0);
}

#[test]
fn cache_pinned_frames_stay() {
    let mut cache: FrameCache<u32> = FrameCache::new(2, 3);
    cache.insert_pulled(1, true, 10);
    assert_eq!(cache.remaining(1), Some(3));
    assert!(matches!(cache.lookup(1, true), CacheLookup::Hit(10)));
    assert_eq!(cache.remaining(1), Some(3));
    assert!(matches!(cache.lookup(1, false), CacheLookup::Hit(10)));
    assert_eq!(cache.remaining(1), Some(2));
}

#[test]
fn puller_ranges_and_steps() {
    assert_eq!(range_end(None, None), u64::MAX);
    assert_eq!(range_end(Some(10), None), 10);
    assert_eq!(range_end(None, Some(7)), 7);
    assert_eq!(range_end(Some(10), Some(7)), 7);
    assert_eq!(total_frames(u64::MAX), None);
    assert_eq!(total_frames(12), Some(12));
    let mut s = PullerState::new(2);
    assert_eq!(s.decide(1), PullerStep::Spawn(0));
    s.spawned();
    assert_eq!(s.decide(1), PullerStep::WaitOne);
    assert_eq!(s.decide(2), PullerStep::Spawn(1));
    s.spawned();
    assert_eq!(s.decide(4), PullerStep::WaitOne);
    assert_eq!(s.in_flight(), 2);
    assert_eq!(s.delivered(true, false), Some(0));
    assert_eq!(s.delivered(true, false), Some(1));
    assert_eq!(s.decide(4), PullerStep::Done);
    assert!(!s.consumer_failed());
    assert_eq!(progress_after(3, 5), (5, 3));
    assert_eq!(progress_after(5, 3), (5, 5));
}

#[test]
fn puller_stops_at_end_of_stream() {
    let mut s = PullerState::new(100);
    s.spawned();
    s.spawned();
    s.spawned();
    // A failed pull of frame 0 is skipped, frame 1 is handed on, and the end
    // of the stream at frame 2 stops the puller.
    assert_eq!(s.delivered(false, false), None);
    assert_eq!(s.decide(4), PullerStep::Spawn(3));
    assert_eq!(s.delivered(true, false), Some(1));
    assert_eq!(s.delivered(false, true), None);
    assert_eq!(s.decide(4), PullerStep::Done);
    assert_eq!(s.next_frame(), 3);
}

#[test]
fn unordered_puller_fails_only_on_consumer_failure() {
    let mut s = PullerState::new(4);
    for _ in 0..4 {
        s.spawned();
    }
    s.completed(2, PullOutcome::PullFailed);
    s.completed(0, PullOutcome::Consumed);
    assert!(!s.consumer_failed());
    assert_eq!(s.decide(8), PullerStep::WaitOne);
    s.completed(1, PullOutcome::ConsumerFailed);
    assert!(s.consumer_failed());
    assert_eq!(s.decide(8), PullerStep::Done);
    let mut t = PullerState::new(10);
    t.spawned();
    t.completed(0, PullOutcome::EndOfFile);
    assert!(!t.consumer_failed());
    assert_eq!(t.decide(8), PullerStep::Done);
}

#[test]
fn puller_without_threads_still_pulls() {
    let s = PullerState::new(3);
    assert_eq!(s.decide(0), PullerStep::Spawn(0));
}

#[test]
fn averaging_pairs_and_caps() {
    assert_eq!(twelve_bit_pair(0xab, 0xcd, 0xef), (0xabc, 0xdef));
    let c = averaged_caps(Caps { frame_count: Some(100), random_access: true }, 8);
    assert_eq!(c, Caps { frame_count: Some(12), random_access: true });
}

#[test]
fn averaging_run_counts_failures() {
    let mut run = AveragingRun::start(4, 3, 2);
    assert_eq!(run.n, 14);
    run.first_failed();
    assert_eq!(run.n, 15);
    let to_issue = run.begin(3);
    assert_eq!(to_issue, 2);
    assert_eq!(run.next, 18);
    assert_eq!(run.on_result(true), Some(18));
    assert_eq!(run.on_result(false), Some(19));
    assert_eq!(run.n, 16);
    assert_eq!(run.on_result(true), None);
    assert_eq!(run.on_result(true), None);
    assert_eq!(run.in_flight, 0);
    assert_eq!(run.succeeded, 4);
    assert_eq!(run.finish(3), (4, 4));
}

#[test]
fn graph_orders_inputs_first() {
    let inputs = vec![vec![2usize], vec![0usize, 2], vec![]];
    let order = build_order(&inputs).unwrap();
    assert_eq!(order, vec![2usize, 0, 1]);
    let users = input_users(&inputs);
    assert_eq!(users, vec![vec![1usize], vec![], vec![0usize, 1]]);
    let cyclic = vec![vec![1usize], vec![0usize]];
    assert_eq!(build_order(&cyclic), Err(GraphError::Cycle));
}

#[test]
fn graph_builder_plans() {
    let mut b: ProcessingGraphBuilder<u32> = ProcessingGraphBuilder::new();
    let src = ProcessingNodeConfig::single_input_node("Reader".to_string(), 1u32, None);
    let sink = ProcessingNodeConfig::single_input_node(
        "Writer".to_string(),
        2u32,
        Some("reader".to_string()),
    );
    assert_eq!(sink.inputs, vec![("input".to_string(), "reader".to_string())]);
    assert_eq!(b.add("writer".to_string(), sink), Ok(NodeID(0)));
    assert_eq!(b.add("reader".to_string(), src), Ok(NodeID(1)));
    let again = ProcessingNodeConfig::single_input_node("Reader".to_string(), 3u32, None);
    assert_eq!(b.add("reader".to_string(), again), Err(GraphError::DuplicateNode));
    assert_eq!(b.nodes().len(), 2);
    let plan = b.plan().unwrap();
    assert_eq!(plan.order, vec![1usize, 0]);
    assert_eq!(plan.inputs, vec![vec![1usize], vec![]]);
    assert_eq!(plan.is_input_to, vec![vec![], vec![0usize]]);
}

#[test]
fn graph_builder_unknown_input() {
    let mut b: ProcessingGraphBuilder<u32> = ProcessingGraphBuilder::new();
    let sink =
        ProcessingNodeConfig::single_input_node("Writer".to_string(), 2u32, Some("x".to_string()));
    assert!(b.add("writer".to_string(), sink).is_ok());
    let e = b.plan().err().unwrap();
    assert_eq!(e, GraphError::UnknownInput { node: 0, missing: "x".to_string() });
    assert_eq!(e.message(), "node 0 reads from x, which is not a node of the graph");
    assert_eq!(GraphError::Cycle.message(), "the inputs of the nodes form a cycle");
}

#[test]
fn request_markers() {
    let r = Request::new(2, 9);
    assert_eq!(r.frame_number(), 9);
    assert_eq!(r.priority().get_frame(), 9);
    assert_eq!(r.requester(), NodeID(u16::MAX));
    assert!(r.get_pin_cache().is_none());
    assert!(r.get_drop().is_none());
    let r = r.with_pin_cache().with_drop().with_requester(NodeID(3)).with_frame_number(4);
    assert!(r.get_pin_cache().is_some());
    assert!(r.get_drop().is_some());
    assert_eq!(r.requester(), NodeID(3));
    assert_eq!(r.frame_number(), 4);
    assert_eq!(NodeID::from_index(70000).index(), 70000 - 65536);
}

#[test]
fn row_noise_counts_and_lags() {
    assert_eq!(num_uncorrectable(3, 4), 4);
    assert_eq!(num_uncorrectable(5, 4), 5);
    assert_eq!(num_uncorrectable(0, 5), 4);
    let lags: Vec<isize> = (0..5).map(dark_col_lag).collect();
    assert_eq!(lags, vec![0, -1, 1, -2, 2]);
    assert_eq!(dark_col_rows(7, 0), (6, 7));
    assert_eq!(dark_col_rows(7, 3), (2, 3));
    assert_eq!(dark_col_rows(6, 4), (10, 11));
}

#[test]
fn row_noise_green_medians() {
    assert_eq!(median_of(&vec![5, -3, 9, 1]), 5);
    assert_eq!(median_of(&vec![7]), 7);
    assert_eq!(median_of(&vec![2, 2, 1]), 2);
    // 4x3 RGGB frame: green samples of row 0 are at columns 1 and 3, of row 1 at 0 and 2.
    let frame: Vec<u16> = vec![0, 10, 0, 20, 4, 0, 6, 0, 0, 30, 0, 50];
    let cfa = CfaDescriptor::from_first_red(true, true);
    assert_eq!(green_diff_median(&frame, 4, cfa, 0, 1), 14);
    assert_eq!(green_diff_median(&frame, 4, cfa, 0, 2), -20);
    let table = green_diff_table(&frame, 4, cfa, 2, 1);
    assert_eq!(table, vec![vec![14], vec![-20]]);
}

#[test]
fn buffer_slots_round_trip() {
    let mut slots = BufferSlots::new(2);
    assert_eq!(slots.enqueue(vec![1, 2]), Some(0));
    assert_eq!(slots.enqueue(vec![3]), Some(1));
    assert_eq!(slots.enqueue(vec![4]), None);
    assert_eq!(slots.dequeue(1), Some(vec![3]));
    assert_eq!(slots.dequeue(1), None);
    assert_eq!(slots.enqueue(vec![5]), Some(1));
    assert_eq!(slots.dequeue(0), Some(vec![1, 2]));
    assert_eq!(slots.dequeue(9), None);
}

#[test]
fn usb3_alignment() {
    assert_eq!(aligned_read_len(0), 8192);
    assert_eq!(aligned_read_len(1), 16384);
    assert_eq!(aligned_read_len(8192), 16384);
    let mut words = vec![0u32; 12];
    words.push(7);
    words.push(0);
    assert_eq!(find_frame_start(&words), Some(48));
    assert_eq!(find_frame_start(&[0, 0, 5, 0]), None);
    assert_eq!(alignment_for(48), Alignment::Aligned(48));
    assert_eq!(alignment_for(20000), Alignment::Slip(16384));
    assert!(slip_done(16384, 16384));
}

#[test]
fn usb3_reader_steps() {
    let mut words = vec![0u32; 11];
    words.push(9);
    assert_eq!(usb3_step(0, &words, 48), (0, Usb3Step::Frame(44)));
    let mut late = vec![0u32; 5000];
    late.push(1);
    assert_eq!(usb3_step(0, &late, 20004), (16384, Usb3Step::RequestSlip(16384)));
    assert_eq!(usb3_step(16384, &late, 100), (16384, Usb3Step::Skip));
    assert_eq!(usb3_step(16384, &late, 16384), (0, Usb3Step::Skip));
    assert_eq!(usb3_step(0, &[1, 2, 3], 12), (0, Usb3Step::NoFrameStart));
}

#[test]
fn task_queue_runs_smallest_key_first() {
    let mut q: TaskQueue<char> = TaskQueue::new();
    assert_eq!(q.pop(), None);
    q.push(5, 'a');
    q.push(3, 'b');
    q.push(3, 'c');
    q.push(7, 'd');
    assert_eq!(q.len(), 4);
    assert_eq!(q.pop(), Some((3, 'b')));
    assert_eq!(q.pop(), Some((3, 'c')));
    q.push(1, 'e');
    assert_eq!(q.pop(), Some((1, 'e')));
    assert_eq!(q.pop(), Some((5, 'a')));
    assert_eq!(q.pop(), Some((7, 'd')));
    assert_eq!(q.pop(), None);
}

#[test]
fn chunks_split_buffers() {
    assert_eq!(chunk_bounds(10, 3, 0), (0, 3));
    assert_eq!(chunk_bounds(10, 3, 2), (6, 9));
    assert_eq!(chunk_bounds(2, 4, 3), (0, 0));
}

#[test]
fn config_input_references() {
    assert_eq!(recorder::graph::input_reference("<reader"), Some("reader".to_string()));
    assert_eq!(recorder::graph::input_reference("<"), Some(String::new()));
    assert_eq!(recorder::graph::input_reference("reader"), None);
    assert_eq!(recorder::graph::input_reference(""), None);
}

#[test]
fn webcam_pixels_become_rgb() {
    assert_eq!(swap_red_blue(&[1, 2, 3, 4, 5, 6], 6), vec![3u8, 2, 1, 6, 5, 4]);
    assert_eq!(swap_red_blue(&[1, 2, 3, 4], 6), vec![3u8, 2, 1, 0, 0, 0]);
    assert_eq!(swap_red_blue(&[1, 2, 3, 4, 5, 6], 4), vec![3u8, 2, 1, 0]);
}

#[test]
fn reverse_decoder_undoes_dual_frame_decoder() {
    let first = vec![1u8, 2, FRAME_A_MARKER, 4, 5, 6];
    let second = vec![7u8, 8, 9, 10, 11, 12];
    let woven = interleave_lines(&first, &second, 3, 12);
    assert_eq!(deinterleave_lines(&woven, 3, 1, 6), first);
    assert_eq!(deinterleave_lines(&woven, 3, 0, 6), second);
}

fn rgb8(width: u64, height: u64) -> FrameInterpretation {
    FrameInterpretation {
        width,
        height,
        color_interpretation: ColorInterpretation::Rgb,
        sample_interpretation: SampleInterpretation::UInt(8),
        compression: Compression::Uncompressed,
    }
}

#[test]
fn dual_frame_decode_pair_interleaves_all_lines() {
    let a_bytes: Vec<u8> = vec![3, 1, 0xAA, 10, 11, 12, 20, 21, 22, 23, 24, 25];
    let b_bytes: Vec<u8> = vec![4, 1, 0x00, 40, 41, 42, 50, 51, 52, 53, 54, 55];
    let a = CpuFrame { interpretation: rgb8(2, 2), storage: a_bytes.clone() };
    let b = CpuFrame { interpretation: rgb8(2, 2), storage: b_bytes.clone() };
    let cfa = CfaDescriptor::from_first_red(true, true);
    let mut state: DualFrameState<CpuFrame> = DualFrameState::new();
    // Handed over in the wrong order: the counters put b second.
    let out = decode_pair(&mut state, 0, 0, 2, false, b, a, cfa).unwrap();
    assert_eq!(out.interpretation.width, 4);
    assert_eq!(out.interpretation.height, 4);
    assert_eq!(out.interpretation.sample_interpretation, SampleInterpretation::UInt(12));
    assert_eq!(out.interpretation.color_interpretation, ColorInterpretation::Bayer(cfa));
    let mut expected = Vec::new();
    expected.extend_from_slice(&b_bytes[0..6]);
    expected.extend_from_slice(&a_bytes[0..6]);
    expected.extend_from_slice(&b_bytes[6..12]);
    expected.extend_from_slice(&a_bytes[6..12]);
    assert_eq!(out.storage, expected);
    assert_eq!(state.next, 1);
    assert_eq!(state.next_even, 2);
    assert_eq!(state.last_wrsel, 1);
    assert!(state.old_frame.is_none());
}

#[test]
fn dual_frame_decode_pair_slip_keeps_second_frame() {
    let a = CpuFrame { interpretation: rgb8(1, 1), storage: vec![3, 1, 0xAA] };
    let b = CpuFrame { interpretation: rgb8(1, 1), storage: vec![4, 2, 0x00] };
    let cfa = CfaDescriptor::from_first_red(true, true);
    let mut state: DualFrameState<CpuFrame> = DualFrameState::new();
    let r = decode_pair(&mut state, 5, 10, 2, false, a, b, cfa);
    assert_eq!(r.unwrap_err(), DualFrameError::Slipped);
    assert_eq!(DualFrameError::Slipped.message(), "frame slipped in DualFrameRawDecoder");
    assert_eq!(state.next, 6);
    assert_eq!(state.next_even, 12);
    assert_eq!(state.old_frame.unwrap().storage, vec![4, 2, 0x00]);
}

#[test]
fn row_noise_strips_dark_columns_and_keeps_uncorrectable_rows() {
    assert_eq!(strip_offset(true), NUM_DARKCOLS);
    assert_eq!(strip_offset(false), 0);
    assert_eq!(row_noise_output_width(4096, true), 4080);
    assert_eq!(row_noise_output_width(4096, false), 4096);
    // 4 rows of 5 samples, output 3 wide from column 1, one uncorrectable row
    // at the top and one at the bottom.
    let src: Vec<u16> = (0..20).collect();
    let mut dst = vec![99u16; 12];
    copy_uncorrectable_rows(&src, &mut dst, 5, 4, 3, 1, 1);
    assert_eq!(dst, vec![1, 2, 3, 99, 99, 99, 99, 99, 99, 16, 17, 18]);
}
