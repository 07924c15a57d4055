use faster::{IntoScalar, Packed, SIMDIterator, SIMDRefIter, Simd};

fn pattern(len: usize) -> Vec<u32> {
    (0..len as u32).map(|i| i * 7 + 3).collect()
}

#[test]
fn partial_after_full_vector() {
    let buf: Vec<u32> = vec![1, 2, 3, 4, 5];
    let mut it = SIMDRefIter::new(&buf);
    let v = it.next_vector().unwrap();
    assert_eq!(v.lanes, [1, 2, 3, 4]);
    assert_eq!(it.position, 4);
    assert!(it.next_vector().is_none());
    let (p, missing) = it.next_partial(Simd::splat(0)).unwrap();
    assert_eq!(missing, 3);
    assert_eq!(p.lanes, [0, 0, 0, 5]);
    assert_eq!(it.position, 5);
    assert!(it.next_partial(Simd::splat(0)).is_none());
}

#[test]
fn short_buffer_tail() {
    let buf: Vec<u32> = vec![7];
    let mut it = SIMDRefIter::new(&buf);
    assert!(it.next_vector().is_none());
    let (p, missing) = it.next_partial(Simd::splat(9)).unwrap();
    assert_eq!(missing, 3);
    assert_eq!(p.lanes[3], 7);
    assert_eq!(&p.lanes[0..3], &[9, 9, 9]);
    assert!(it.next_partial(Simd::splat(9)).is_none());
}

#[test]
fn empty_buffer_exhausted() {
    let buf: Vec<u32> = Vec::new();
    let mut it = SIMDRefIter::new(&buf);
    assert!(it.next_vector().is_none());
    assert!(it.next_partial(Simd::splat(0)).is_none());
    assert_eq!(it.scalar_len(), 0);
    assert_eq!(it.scalar_position(), 0);
}

#[test]
fn short_buffers_give_one_tail() {
    for len in 1..4usize {
        let buf = pattern(len);
        let mut it = SIMDRefIter::new(&buf);
        assert!(it.next_vector().is_none());
        let (p, missing) = it.next_partial(Simd::splat(0)).unwrap();
        assert_eq!(missing, 4 - len);
        assert_eq!(&p.lanes[missing..], &buf[..]);
        assert!(it.next_partial(Simd::splat(0)).is_none());
        assert!(it.next_vector().is_none());
    }
}

#[test]
fn exact_multiple_has_no_tail() {
    for len in [0usize, 4, 8, 16] {
        let buf = pattern(len);
        let mut it = SIMDRefIter::new(&buf);
        let mut count = 0;
        while let Some(v) = it.next_vector() {
            assert_eq!(&v.lanes[..], &buf[count * 4..count * 4 + 4]);
            count += 1;
        }
        assert_eq!(count, len / 4);
        assert!(it.next_partial(Simd::splat(0)).is_none());
    }
}

#[test]
fn exactly_one_vector_left_as_partial() {
    let buf = pattern(4);
    let mut it = SIMDRefIter::new(&buf);
    let (p, missing) = it.next_partial(Simd::splat(0)).unwrap();
    assert_eq!(missing, 0);
    assert_eq!(&p.lanes[..], &buf[..]);
    assert_eq!(it.position, 4);
}

#[test]
fn second_partial_is_exhausted() {
    for len in 1..=16usize {
        let buf = pattern(len);
        let mut it = SIMDRefIter::new(&buf);
        while it.next_vector().is_some() {}
        if len % 4 != 0 {
            assert!(it.next_partial(Simd::splat(0)).is_some());
        }
        assert!(it.next_partial(Simd::splat(0)).is_none());
        assert_eq!(it.scalar_position(), len);
    }
}

#[test]
fn round_trip_all_lengths() {
    for len in 0..=16usize {
        let buf = pattern(len);
        let mut it = SIMDRefIter::new(&buf);
        let mut out: Vec<u32> = Vec::new();
        while let Some(v) = it.next_vector() {
            out.extend_from_slice(&v.lanes);
        }
        if let Some((p, missing)) = it.next_partial(Simd::splat(u32::MAX)) {
            out.extend_from_slice(&p.lanes[missing..]);
        }
        assert_eq!(out, buf);

        let mut fill = vec![0u32; len];
        SIMDRefIter::new(&buf).scalar_fill(&mut fill);
        assert_eq!(fill, buf);
    }
}

#[test]
fn round_trip_other_widths() {
    for len in 0..=64usize {
        let bytes: Vec<u8> = (0..len).map(|i| (i * 31 + 5) as u8).collect();
        let mut fill = vec![0u8; len];
        SIMDRefIter::new(&bytes).scalar_fill(&mut fill);
        assert_eq!(fill, bytes);
    }
    for len in 0..=8usize {
        let wide: Vec<i64> = (0..len as i64).map(|i| -3 * i - 1).collect();
        let mut fill = vec![0i64; len];
        SIMDRefIter::new(&wide).scalar_fill(&mut fill);
        assert_eq!(fill, wide);
    }
}

#[test]
fn fill_leaves_the_rest_of_the_buffer() {
    let buf = pattern(6);
    let mut fill = vec![100u32; 9];
    SIMDRefIter::new(&buf).scalar_fill(&mut fill);
    assert_eq!(&fill[..6], &buf[..]);
    assert_eq!(&fill[6..], &[100, 100, 100]);
}

#[test]
fn collect_matches_fill() {
    for len in 0..=16usize {
        let buf = pattern(len);
        let collected = SIMDRefIter::new(&buf).scalar_collect();
        let mut fill = vec![0u32; len];
        SIMDRefIter::new(&buf).scalar_fill(&mut fill);
        assert_eq!(collected, fill);
        assert_eq!(collected, buf);
    }
}

#[test]
fn collect_from_a_later_position() {
    let buf = pattern(10);
    let mut it = SIMDRefIter::new(&buf);
    it.next_vector();
    let mut other = SIMDRefIter::new(&buf);
    other.next_vector();
    let collected = it.scalar_collect();
    assert_eq!(collected, buf[4..].to_vec());
    let mut fill = vec![0u32; 6];
    other.scalar_fill(&mut fill);
    assert_eq!(fill, collected);
    assert_eq!(it.scalar_position(), 10);
}

#[test]
fn width_and_length() {
    let buf = pattern(9);
    let it = SIMDRefIter::new(&buf);
    assert_eq!(it.width(), 4);
    assert_eq!(it.len(), 9);
    let bytes = vec![0u8; 3];
    assert_eq!(SIMDRefIter::new(&bytes).width(), 16);
}
