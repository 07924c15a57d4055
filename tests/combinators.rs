use std::cell::Cell;

use faster::{
    IntoScalar, Packable, Packed, SIMDArray, SIMDArrayMut, SIMDIter, SIMDIterator,
    SIMDIteratorExt, SIMDRefIter, SIMDRefMutIter, Simd,
};

fn add(a: Simd<u32, 4>, b: Simd<u32, 4>) -> Simd<u32, 4> {
    let mut lanes = a.lanes;
    for i in 0..4 {
        lanes[i] += b.lanes[i];
    }
    Simd { lanes }
}

fn double(v: Simd<u32, 4>) -> Simd<u32, 4> {
    let mut lanes = v.lanes;
    for l in lanes.iter_mut() {
        *l *= 2;
    }
    Simd { lanes }
}

#[test]
fn reduce_constant_sums() {
    for n in 0..40usize {
        let buf = vec![2u32; n];
        let r = SIMDRefIter::new(&buf).simd_reduce(Simd::splat(0), Simd::splat(0), add);
        assert_eq!(r.lanes.iter().sum::<u32>(), 2 * n as u32);
    }
}

#[test]
fn reduce_constant_sums_eight_lanes() {
    for n in 0..40usize {
        let buf = vec![3u16; n];
        let r = SIMDRefIter::new(&buf).simd_reduce(Simd::splat(0u16), Simd::splat(0u16), |a, v| {
            let mut lanes = a.lanes;
            for i in 0..8 {
                lanes[i] += v.lanes[i];
            }
            Simd { lanes }
        });
        assert_eq!(r.lanes.iter().sum::<u16>(), 3 * n as u16);
    }
}

#[test]
fn reduce_empty_returns_start() {
    let buf: Vec<u32> = Vec::new();
    let r = SIMDRefIter::new(&buf).simd_reduce(17u64, Simd::splat(0), |a, _v| a + 1);
    assert_eq!(r, 17);
}

#[test]
fn reduce_counts_vectors_and_tail() {
    let buf = vec![1u32; 9];
    let r = SIMDRefIter::new(&buf).simd_reduce(0u64, Simd::splat(0), |a, _v| a + 1);
    assert_eq!(r, 3);
}

#[test]
fn reduce_sees_padding_from_default() {
    let buf = vec![1u32; 5];
    let r = SIMDRefIter::new(&buf).simd_reduce(Simd::splat(0), Simd::splat(10), add);
    assert_eq!(r.lanes, [11, 11, 11, 2]);
}

#[test]
fn for_each_identity_keeps_buffer() {
    for len in 0..=16usize {
        let orig: Vec<u32> = (0..len as u32).map(|i| i * 5 + 1).collect();
        let mut buf = orig.clone();
        let mut it = SIMDRefMutIter::new(&mut buf);
        it.simd_for_each(Simd::splat(0), |v| v);
        assert_eq!(it.position, len);
        assert_eq!(buf, orig);
    }
}

#[test]
fn for_each_doubles_every_element() {
    for len in 0..=16usize {
        let orig: Vec<u32> = (0..len as u32).map(|i| i * 5 + 1).collect();
        let mut buf = orig.clone();
        SIMDRefMutIter::new(&mut buf).simd_for_each(Simd::splat(1000), double);
        let want: Vec<u32> = orig.iter().map(|x| x * 2).collect();
        assert_eq!(buf, want);
    }
}

#[test]
fn map_into_doubles_into_destination() {
    for len in 0..=16usize {
        let src: Vec<u32> = (0..len as u32).map(|i| i + 10).collect();
        let mut into = vec![99u32; len + 2];
        let mut it = SIMDRefIter::new(&src);
        it.simd_map_into(&mut into, Simd::splat(0), double);
        let want: Vec<u32> = src.iter().map(|x| x * 2).collect();
        assert_eq!(&into[..len], &want[..]);
        assert_eq!(&into[len..], &[99, 99]);
        assert_eq!(it.position, 0);
    }
}

#[test]
fn map_collects_transformed_scalars() {
    for len in 0..=13usize {
        let src: Vec<u32> = (0..len as u32).collect();
        let mut m = SIMDRefIter::new(&src).simd_map(Simd::splat(0), |v: Simd<u32, 4>| {
            add(v, Simd::splat(1))
        });
        let out = m.scalar_collect();
        let want: Vec<u32> = src.iter().map(|x| x + 1).collect();
        assert_eq!(out, want);
    }
}

#[test]
fn map_partial_keeps_padding_count() {
    let src: Vec<u32> = vec![1, 2, 3, 4, 5, 6];
    let mut m = SIMDRefIter::new(&src).simd_map(Simd::splat(0), double);
    assert_eq!(m.next_vector().unwrap().lanes, [2, 4, 6, 8]);
    let (p, missing) = m.next_partial(Simd::splat(77)).unwrap();
    assert_eq!(missing, 2);
    assert_eq!(p.lanes, [77, 77, 10, 12]);
    assert!(m.next_partial(Simd::splat(77)).is_none());
    assert_eq!(m.scalar_len(), 6);
    assert_eq!(m.scalar_position(), 6);
}

#[test]
fn map_rescales_padding_to_narrower_scalars() {
    let src: Vec<u32> = vec![1, 2, 3];
    let mut m = SIMDRefIter::new(&src).simd_map(Simd::splat(0), |v: Simd<u32, 4>| {
        let mut lanes = [0u16; 8];
        for i in 0..4 {
            lanes[2 * i] = v.lanes[i] as u16;
            lanes[2 * i + 1] = (v.lanes[i] >> 16) as u16;
        }
        Simd { lanes }
    });
    let (p, missing) = m.next_partial(Simd::splat(500u16)).unwrap();
    assert_eq!(missing, 2);
    assert_eq!(p.lanes, [500, 500, 1, 0, 2, 0, 3, 0]);
}

#[test]
fn do_each_visits_every_vector() {
    for len in 0..=12usize {
        let buf = vec![1u32; len];
        let calls = Cell::new(0usize);
        let seen = Cell::new(0u32);
        let mut it = SIMDRefIter::new(&buf);
        it.simd_do_each(Simd::splat(0), |v| {
            calls.set(calls.get() + 1);
            seen.set(seen.get() + v.lanes.iter().sum::<u32>());
        });
        assert_eq!(calls.get(), (len + 3) / 4);
        assert_eq!(seen.get(), len as u32);
        assert_eq!(it.scalar_position(), len);
    }
}

#[test]
fn unroll_groups_vectors() {
    let buf: Vec<u32> = (0..22).collect();
    let mut packed = SIMDRefIter::new(&buf).pack();
    let mut sizes = Vec::new();
    let mut firsts = Vec::new();
    {
        let mut un = packed.unroll(2);
        while let Some(window) = un.next() {
            sizes.push(window.len());
            firsts.push(window[0].lanes[0]);
        }
    }
    assert_eq!(sizes, vec![2, 2, 1]);
    assert_eq!(firsts, vec![0, 8, 16]);
    let mut rest = packed.unpack();
    assert_eq!(rest.scalar_position(), 20);
    let (p, missing) = rest.next_partial(Simd::splat(0)).unwrap();
    assert_eq!(missing, 2);
    assert_eq!(p.lanes, [0, 0, 20, 21]);
}

#[test]
fn pack_yields_full_vectors() {
    let buf: Vec<u32> = (0..9).collect();
    let mut packed = SIMDRefIter::new(&buf).pack();
    assert_eq!(packed.next().unwrap().lanes, [0, 1, 2, 3]);
    assert_eq!(packed.next().unwrap().lanes, [4, 5, 6, 7]);
    assert!(packed.next().is_none());
    assert_eq!(packed.unpack().scalar_position(), 8);
}

#[test]
fn scalar_protocol_steps_one_by_one() {
    let buf: Vec<u32> = vec![5, 6, 7];
    let mut it = SIMDRefIter::new(&buf);
    assert_eq!(it.size_hint(), (3, Some(3)));
    assert_eq!(it.next(), Some(5));
    assert_eq!(it.size_hint(), (2, Some(2)));
    assert_eq!(it.next(), Some(6));
    assert_eq!(it.next(), Some(7));
    assert_eq!(it.next(), None);
    assert_eq!(it.position, 3);
    assert_eq!(it.size_hint(), (0, Some(0)));
}

#[test]
fn owned_iterator_collects() {
    let mut it = SIMDIter::new((0..11u64).collect());
    assert_eq!(it.next_vector().unwrap().lanes, [0, 1]);
    assert_eq!(it.next(), Some(2));
    let rest = it.scalar_collect();
    assert_eq!(rest, (3..11u64).collect::<Vec<u64>>());
}

#[test]
fn array_loads_and_stores() {
    let mut buf: Vec<i32> = (0..10).collect();
    let mut it = SIMDRefMutIter::new(&mut buf);
    assert_eq!(it.load(3).lanes, [3, 4, 5, 6]);
    assert_eq!(it.load_unchecked(6).lanes, [6, 7, 8, 9]);
    assert_eq!(it.load_scalar(9), 9);
    assert_eq!(it.load_scalar_unchecked(0), 0);
    it.store(Simd::splat(-1), 2);
    it.store_unchecked(Simd { lanes: [40, 41, 42, 43] }, 6);
    it.store_scalar(100, 0);
    it.store_scalar_unchecked(101, 1);
    assert_eq!(it.position, 0);
    assert_eq!(buf, vec![100, 101, -1, -1, -1, -1, 40, 41, 42, 43]);
}

#[test]
fn vector_primitives() {
    let a: Simd<u32, 4> = Simd { lanes: [1, 2, 3, 4] };
    let b: Simd<u32, 4> = Simd::splat(9);
    assert_eq!(a.merge_partitioned(b, 1).lanes, [1, 9, 9, 9]);
    assert_eq!(a.merge_partitioned(b, 0).lanes, [9, 9, 9, 9]);
    assert_eq!(a.merge_partitioned(b, 4).lanes, [1, 2, 3, 4]);
    assert_eq!(a.replace(2, 30).lanes, [1, 2, 30, 4]);
    assert_eq!(a.extract(3), 4);
    assert_eq!(a.coalesce(), 1);
    assert_eq!(<Simd<u32, 4> as Packed>::width(), 4);
    let mut out = vec![0u32; 6];
    a.store(&mut out, 1);
    assert_eq!(out, vec![0, 1, 2, 3, 4, 0]);
    assert_eq!(<Simd<u32, 4> as Packed>::load(&out, 2).lanes, [2, 3, 4, 0]);
    assert_eq!(<u8 as Packable>::size(), 1);
    assert_eq!(<i64 as Packable>::size(), 8);
    assert_eq!(<u16 as Packable>::zero(), 0);
}

#[test]
fn map_next_takes_first_lane() {
    let src: Vec<u32> = vec![1, 2, 3];
    let mut m = SIMDRefIter::new(&src).simd_map(Simd::splat(0), double);
    assert_eq!(m.size_hint(), (3, Some(3)));
    assert_eq!(m.next(), Some(2));
    assert_eq!(m.size_hint(), (2, Some(2)));
    assert_eq!(m.next(), Some(4));
    assert_eq!(m.next(), Some(6));
    assert_eq!(m.next(), None);
    assert_eq!(m.len(), 3);
}

#[test]
fn reduce_constant_sums_other_widths() {
    for n in 0..=51usize {
        let buf = vec![5u8; n];
        let r = SIMDRefIter::new(&buf).simd_reduce(Simd::splat(0u8), Simd::splat(0u8), |a, v| {
            let mut lanes: [u8; 16] = a.lanes;
            for i in 0..16 {
                lanes[i] = lanes[i].wrapping_add(v.lanes[i]);
            }
            Simd { lanes }
        });
        assert_eq!(r.lanes.iter().map(|x| *x as usize).sum::<usize>(), 5 * n);
    }
    for n in 0..=9usize {
        let buf = vec![1_000_000_007u64; n];
        let r = SIMDRefIter::new(&buf).simd_reduce(Simd::splat(0u64), Simd::splat(0u64), |a: Simd<u64, 2>, v| {
            Simd { lanes: [a.lanes[0].wrapping_add(v.lanes[0]), a.lanes[1].wrapping_add(v.lanes[1])] }
        });
        assert_eq!(r.lanes[0] + r.lanes[1], 1_000_000_007u64 * n as u64);
    }
}

#[test]
fn draining_a_mutable_cursor_leaves_its_buffer() {
    let orig: Vec<u32> = (0..11).collect();
    let mut buf = orig.clone();
    {
        let mut it = SIMDRefMutIter::new(&mut buf);
        let collected = it.scalar_collect();
        assert_eq!(collected, orig);
        assert_eq!(it.position, 11);
    }
    assert_eq!(buf, orig);
    {
        let mut it = SIMDRefMutIter::new(&mut buf);
        let r = it.simd_reduce(0u32, Simd::splat(0), |a, v| a + v.lanes.iter().sum::<u32>());
        assert_eq!(r, (0..11).sum::<u32>());
    }
    assert_eq!(buf, orig);
}
