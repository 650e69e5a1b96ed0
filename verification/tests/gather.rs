//! Packing scatter/gather writes into work requests.

use hord::gather::{next_gather_batch, plan_batches, plan_gather, WriteSegment, WRITE_WR_MAX};
use hord::verbs::{Mr, RegisteredBuffer};

fn seg(addr: u64, len: usize) -> WriteSegment {
    WriteSegment::from_raw(addr, 0xABCD, len)
}

/// Each planned work request as its remote offset and its spans.
fn plan(segments: &[WriteSegment], max_sge: usize) -> Vec<(u64, Vec<(u64, u32)>)> {
    plan_gather(segments, max_sge)
        .iter()
        .map(|wr| (wr.remote_off, wr.sges.iter().map(|s| (s.addr, s.length)).collect()))
        .collect()
}

#[test]
fn single_small_segment_is_one_1sge_wr() {
    assert_eq!(plan(&[seg(0x1000, 4096)], 16), vec![(0, vec![(0x1000, 4096)])]);
}

#[test]
fn empty_or_all_zero_length_emits_nothing() {
    assert!(plan(&[], 16).is_empty());
    assert!(plan(&[seg(0x1000, 0), seg(0x2000, 0)], 16).is_empty());
}

#[test]
fn packs_up_to_max_sge_per_wr_at_contiguous_offsets() {
    let segs: Vec<_> = (0..5).map(|i| seg(0x1000 * (i + 1) as u64, 100)).collect();
    let wrs = plan(&segs, 2);
    assert_eq!(wrs.len(), 3);
    assert_eq!([wrs[0].1.len(), wrs[1].1.len(), wrs[2].1.len()], [2, 2, 1]);
    assert_eq!([wrs[0].0, wrs[1].0, wrs[2].0], [0, 200, 400]);
}

#[test]
fn zero_length_segment_between_data_is_skipped() {
    let wrs = plan(&[seg(0x1000, 50), seg(0x2000, 0), seg(0x3000, 50)], 16);
    assert_eq!(wrs, vec![(0, vec![(0x1000, 50), (0x3000, 50)])]);
}

#[test]
fn segment_larger_than_byte_cap_splits_across_wrs() {
    let cap = WRITE_WR_MAX as u64;
    let half = WRITE_WR_MAX / 2;
    let total = 2 * WRITE_WR_MAX + half;
    let base = 0x4000_0000u64;
    let wrs = plan(&[seg(base, total)], 16);
    assert_eq!(wrs.len(), 3);
    assert_eq!(wrs[0], (0, vec![(base, WRITE_WR_MAX as u32)]));
    assert_eq!(wrs[1], (cap, vec![(base + cap, WRITE_WR_MAX as u32)]));
    assert_eq!(wrs[2], (2 * cap, vec![(base + 2 * cap, half as u32)]));
    let laid: u64 = wrs.iter().flat_map(|(_, s)| s.iter().map(|&(_, l)| l as u64)).sum();
    assert_eq!(laid, total as u64);
}

#[test]
fn max_sge_zero_is_clamped_to_one() {
    let wrs = plan(&[seg(0x1000, 10), seg(0x2000, 10)], 0);
    assert_eq!(wrs, vec![(0, vec![(0x1000, 10)]), (10, vec![(0x2000, 10)])]);
}

#[test]
fn fragments_are_written_in_batches() {
    let segs: Vec<_> = (0..7).map(|i| seg(0x1000 * (i + 1) as u64, 10)).collect();
    // Two elements per work request and two work requests at a time.
    assert_eq!(next_gather_batch(&segs, 0, 2, 2), (4, 40));
    assert_eq!(next_gather_batch(&segs, 4, 2, 2), (3, 30));
    let batches = plan_batches(&segs, 0x9000, Some(6), 2, 2);
    assert_eq!(batches.len(), 2);
    assert_eq!((batches[0].start, batches[0].end, batches[0].peer_addr, batches[0].imm), (0, 4, 0x9000, None));
    assert_eq!((batches[1].start, batches[1].end, batches[1].peer_addr, batches[1].imm), (4, 7, 0x9028, Some(6)));
    // Nothing to write is still one batch, which carries the immediate.
    let empty = plan_batches(&[], 0x9000, Some(6), 2, 2);
    assert_eq!(empty.len(), 1);
    assert_eq!(empty[0].imm, Some(6));
}

#[test]
fn segments_name_spans() {
    let buf = RegisteredBuffer { addr: 100, length: 50, local_key: 3, remote_key: 4 };
    let s = WriteSegment::from_registered(&buf, 10, 40);
    assert_eq!((s.local_addr, s.lkey, s.len()), (110, 3, 40));
    let m = WriteSegment::from_mr(&Mr { addr: 200, length: 9, local_key: 8 }, 9, 0);
    assert_eq!((m.local_addr, m.lkey), (209, 8));
    assert!(m.is_empty() && !s.is_empty());
}
