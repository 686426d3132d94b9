use time2freq::ring::{new_ring, prefill_silence, try_pop_chunk, try_push};
use time2freq::RingBuffer;

#[test]
fn ring_accepts_exactly_capacity_then_refuses() {
    let (mut p, mut c) = new_ring(4);
    for v in 0..4u32 {
        assert!(try_push(&mut p, v));
    }
    assert!(!try_push(&mut p, 99));
    let mut out = Vec::new();
    assert!(try_pop_chunk(&mut c, 2, &mut out));
    assert_eq!(out, vec![0, 1]);
    assert!(try_push(&mut p, 4));
    assert!(try_push(&mut p, 5));
    assert!(!try_push(&mut p, 6));
}

#[test]
fn ring_capacity_law_over_several_sizes() {
    for cap in 1..20usize {
        let (mut p, mut c) = new_ring(cap);
        for v in 0..cap as u32 {
            assert!(try_push(&mut p, v));
        }
        assert!(!try_push(&mut p, 0));
        for k in 1..=cap {
            let mut out = Vec::new();
            assert!(try_pop_chunk(&mut c, k, &mut out));
            for v in 0..k as u32 {
                assert!(try_push(&mut p, v));
            }
            assert!(!try_push(&mut p, 0));
            assert_eq!(out.len(), k);
        }
    }
}

#[test]
fn ring_round_trip_keeps_order() {
    let (mut p, mut c) = new_ring(16);
    let input: Vec<u32> = (100..148).collect();
    let mut output = Vec::new();
    for chunk in input.chunks(4) {
        for &v in chunk {
            assert!(try_push(&mut p, v));
        }
        assert!(try_pop_chunk(&mut c, 4, &mut output));
    }
    assert_eq!(output, input);
}

#[test]
fn ring_pop_chunk_is_all_or_nothing() {
    let (mut p, mut c) = new_ring(8);
    for v in [7u32, 8, 9] {
        assert!(try_push(&mut p, v));
    }
    let mut out = vec![1u32];
    assert!(!try_pop_chunk(&mut c, 4, &mut out));
    assert_eq!(out, vec![1]);
    assert!(try_pop_chunk(&mut c, 3, &mut out));
    assert_eq!(out, vec![1, 7, 8, 9]);
    assert!(!try_pop_chunk(&mut c, 1, &mut out));
}

#[test]
fn ring_empty_pop_fails() {
    let (_p, mut c) = new_ring(4);
    let mut out = Vec::new();
    assert!(!try_pop_chunk(&mut c, 2, &mut out));
    assert!(out.is_empty());
}

#[test]
fn prefill_writes_silence() {
    let (mut p, mut c) = new_ring(6);
    prefill_silence(&mut p, 4);
    let mut out = Vec::new();
    assert!(try_pop_chunk(&mut c, 4, &mut out));
    assert_eq!(out, vec![0, 0, 0, 0]);
    assert!(!try_pop_chunk(&mut c, 1, &mut out));
}

#[test]
fn ring_buffer_capacity_is_exact() {
    for cap in 0..12usize {
        let mut r = RingBuffer::new(cap);
        for v in 0..cap as u32 {
            assert!(r.try_push(v));
        }
        assert!(!r.try_push(1000));
        assert_eq!(r.len(), cap);
        for k in 0..=cap {
            let mut out = Vec::new();
            assert!(r.try_pop_chunk(k, &mut out));
            assert_eq!(r.len(), cap - k);
            for v in 0..k as u32 {
                assert!(r.try_push(v));
            }
            assert!(!r.try_push(1000));
        }
    }
}

#[test]
fn ring_buffer_round_trip_in_chunks() {
    let mut r = RingBuffer::new(10);
    let input: Vec<u32> = (0..40).map(|i| i * 3 + 1).collect();
    let mut output = Vec::new();
    for chunk in input.chunks(5) {
        for &v in chunk {
            assert!(r.try_push(v));
        }
        assert!(r.try_pop_chunk(5, &mut output));
    }
    assert_eq!(output, input);
    assert_eq!(r.len(), 0);
}

#[test]
fn ring_buffer_pop_needs_whole_chunk() {
    let mut r = RingBuffer::new(4);
    assert!(r.try_push(5));
    assert!(r.try_push(6));
    let mut out = Vec::new();
    assert!(!r.try_pop_chunk(3, &mut out));
    assert!(out.is_empty());
    assert_eq!(r.len(), 2);
    assert!(r.try_pop_chunk(2, &mut out));
    assert_eq!(out, vec![5, 6]);
}

#[test]
fn ring_buffer_handles_keep_contents() {
    let mut r = RingBuffer::new(4);
    assert!(r.try_push(1));
    assert!(r.try_push(2));
    let (mut p, mut c) = r.into_handles();
    assert!(try_push(&mut p, 3));
    assert!(try_push(&mut p, 4));
    assert!(!try_push(&mut p, 5));
    let mut out = Vec::new();
    assert!(try_pop_chunk(&mut c, 4, &mut out));
    assert_eq!(out, vec![1, 2, 3, 4]);
}
