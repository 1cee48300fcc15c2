use fastlanes::BitPacking;
use vortex_core::accessor::{ArrayValueIterator, PrimitiveArray};
use vortex_core::bitpacked::{BitPackedArray, BlockStep};

/// Packs `values` at 8 bits each, 1024 values per chunk, padding the last chunk with zeros.
fn bitpack_encode_8(values: &[u32]) -> Vec<u32> {
    let mut packed = Vec::new();
    for chunk in values.chunks(1024) {
        let mut input = [0u32; 1024];
        input[..chunk.len()].copy_from_slice(chunk);
        let mut out = [0u32; 256];
        BitPacking::pack::<8, 256>(&input, &mut out);
        packed.extend_from_slice(&out);
    }
    packed
}

#[test]
fn test_get_iter() {
    let mut vals = vec![1; 1024];
    vals.extend(vec![2; 1024]);
    vals.extend(vec![3; 3]);
    let packed = BitPackedArray::new(bitpack_encode_8(&vals), 8, 0, vals.len());

    let mut iter = packed.iter_blocks::<2048>();
    println!(
        "{:?}",
        iter.next()
            .unwrap()
            .map(|v| (v.len(), v))
            .map_err(|e| (e.len(), e))
    );
    println!(
        "{:?}",
        iter.next()
            .unwrap()
            .map(|v| (v.len(), v))
            .map_err(|e| (e.len(), e))
    );
    println!("{:?}", iter.next());
}

#[test]
fn test_get_iter2() {
    const SIZE: usize = 8192;
    let vals = vec![1; SIZE];
    let start = SIZE / (2 << 6);
    let end = SIZE - (SIZE / 2);
    // the slice [start, end) of the packed array: it begins `start % 1024` values into chunk
    // `start / 1024`
    let all = bitpack_encode_8(&vals);
    let first_chunk = start / 1024;
    let packed = BitPackedArray::new(all[first_chunk * 256..].to_vec(), 8, start % 1024, end - start);

    let mut iter = packed.iter_blocks::<2048>();
    println!("{:?}", iter.next().unwrap().map_err(|e| (e.len(), e)));
    println!(
        "{:?}",
        iter.next()
            .unwrap()
            .map(|v| (v.len(), v))
            .map_err(|e| (e.len(), e))
    );
    println!("{:?}", iter.next().unwrap().map_err(|e| (e.len(), e)));
    println!("{:?}", iter.next());
}

#[test]
fn test_get_iter_sliced() {
    let mut vals = vec![1; 1024];
    vals.extend(vec![2; 1024]);
    vals.extend(vec![3; 1024]);
    vals.extend(vec![4; 3]);
    let packed = BitPackedArray::new(bitpack_encode_8(&vals), 8, 2, 3074 - 2);

    let mut iter = packed.iter_blocks::<2048>();
    println!("{:?}", iter.next().unwrap().map_err(|e| (e.len(), e)));
    println!(
        "{:?}",
        iter.next()
            .unwrap()
            .map(|v| (v.len(), v))
            .map_err(|e| (e.len(), e))
    );
    println!("{:?}", iter.next().unwrap().map_err(|e| (e.len(), e)));
    println!("{:?}", iter.next());
}

#[test]
fn accessor_test_get_iter() {
    let prim = PrimitiveArray::from_vec((0..1025).collect::<Vec<i32>>());

    let mut res = prim.iter_blocks::<2048>();
    println!("{:?}", res.next());
    println!("{:?}", res.next());
}

#[test]
fn primitive_blocks_cover_the_values() {
    let prim = PrimitiveArray::from_vec((0..10).collect::<Vec<u16>>());
    let mut it = prim.iter_blocks::<4>();
    assert_eq!(it.next(), Some(Ok(&[0u16, 1, 2, 3])));
    assert_eq!(it.next(), Some(Ok(&[4u16, 5, 6, 7])));
    assert_eq!(it.next(), Some(Err(&[8u16, 9][..])));
    assert_eq!(it.next(), None);
    assert_eq!(it.next(), None);
    // a run of exactly one block length at the end is handed out as a short run
    let prim = PrimitiveArray::from_vec(vec![7u8; 8]);
    let mut it = prim.iter_blocks::<4>();
    assert_eq!(it.next(), Some(Ok(&[7u8; 4])));
    assert_eq!(it.next(), Some(Err(&[7u8; 4][..])));
    assert_eq!(it.next(), None);
    let empty = PrimitiveArray::<u8>::from_vec(vec![]);
    assert_eq!(empty.iter_blocks::<4>().next(), None);
}

#[test]
fn boxed_iterator_delegates() {
    let prim = PrimitiveArray::from_vec(vec![1u32, 2, 3]);
    let mut boxed: Box<dyn ArrayValueIterator<2, Item = u32> + '_> = Box::new(prim.iter_blocks::<2>());
    assert_eq!(boxed.next(), Some(Ok(&[1u32, 2])));
    assert_eq!(boxed.next(), Some(Err(&[3u32][..])));
    assert_eq!(boxed.next(), None);
}

#[test]
fn bitpacked_steps_of_a_sliced_array() {
    let vals: Vec<u32> = (0..3076).map(|i| (i % 200) as u32).collect();
    let packed = BitPackedArray::new(bitpack_encode_8(&vals), 8, 2, 3074);
    let mut iter = packed.block_steps::<2048>();
    assert_eq!(iter.block_count, 4);
    assert_eq!(iter.full_block_count, 3);
    assert_eq!(iter.last_chunk_len, 4);
    assert_eq!(
        iter.next_step(),
        Some(BlockStep { first_chunk: 0, chunk_count: 1, full: false, start: 2, end: 1024 })
    );
    assert_eq!(
        iter.next_step(),
        Some(BlockStep { first_chunk: 1, chunk_count: 2, full: true, start: 0, end: 2048 })
    );
    assert_eq!(
        iter.next_step(),
        Some(BlockStep { first_chunk: 3, chunk_count: 1, full: false, start: 0, end: 4 })
    );
    assert_eq!(iter.next_step(), None);

    // the values handed out are the values of the array
    let mut iter = packed.iter_blocks::<2048>();
    let mut seen: Vec<u32> = Vec::new();
    let mut kinds: Vec<(bool, usize)> = Vec::new();
    while let Some(b) = iter.next() {
        match b {
            Ok(a) => {
                kinds.push((true, a.len()));
                seen.extend_from_slice(a)
            }
            Err(s) => {
                kinds.push((false, s.len()));
                seen.extend_from_slice(s)
            }
        }
    }
    assert_eq!(kinds, vec![(false, 1022), (true, 2048), (false, 4)]);
    assert_eq!(seen, vals[2..].to_vec());
}

#[test]
fn bitpacked_steps_of_an_aligned_array() {
    let packed = BitPackedArray::new(vec![0u32; 4 * 256], 8, 0, 4096);
    let mut iter = packed.block_steps::<2048>();
    assert_eq!(iter.full_block_count, 4);
    assert_eq!(iter.last_chunk_len, 0);
    assert_eq!(
        iter.next_step(),
        Some(BlockStep { first_chunk: 0, chunk_count: 2, full: true, start: 0, end: 2048 })
    );
    assert_eq!(
        iter.next_step(),
        Some(BlockStep { first_chunk: 2, chunk_count: 2, full: true, start: 0, end: 2048 })
    );
    assert_eq!(iter.next_step(), None);
}

#[test]
fn bitpacked_values_of_an_aligned_array() {
    let vals: Vec<u32> = (0..5000).map(|i| (i * 7 % 251) as u32).collect();
    let packed = BitPackedArray::new(bitpack_encode_8(&vals), 8, 0, vals.len());
    let mut iter = packed.iter_blocks::<2048>();
    assert_eq!(iter.next(), Some(Ok(<&[u32; 2048]>::try_from(&vals[0..2048]).unwrap())));
    assert_eq!(iter.next(), Some(Ok(<&[u32; 2048]>::try_from(&vals[2048..4096]).unwrap())));
    assert_eq!(iter.next(), Some(Err(&vals[4096..5000])));
    assert_eq!(iter.next(), None);
    assert_eq!(iter.next(), None);
}

#[test]
fn bitpacked_values_at_other_widths() {
    // three bits per value: 1024 values in 96 words
    let vals: Vec<u32> = (0..1030).map(|i| (i % 8) as u32).collect();
    let mut packed_words = Vec::new();
    for chunk in vals.chunks(1024) {
        let mut input = [0u32; 1024];
        input[..chunk.len()].copy_from_slice(chunk);
        let mut out = [0u32; 96];
        BitPacking::pack::<3, 96>(&input, &mut out);
        packed_words.extend_from_slice(&out);
    }
    let packed = BitPackedArray::new(packed_words, 3, 0, vals.len());
    let mut iter = packed.iter_blocks::<1024>();
    assert_eq!(iter.next(), Some(Ok(<&[u32; 1024]>::try_from(&vals[0..1024]).unwrap())));
    assert_eq!(iter.next(), Some(Err(&vals[1024..1030])));
    assert_eq!(iter.next(), None);
    // no bits per value: every value is zero
    let zeros = BitPackedArray::new(vec![], 0, 0, 10);
    let mut iter = zeros.iter_blocks::<1024>();
    assert_eq!(iter.next(), Some(Err(&[0u32; 10][..])));
    assert_eq!(iter.next(), None);
}

#[test]
fn block_count_and_only_last_short() {
    // 10 values in blocks of 3: ceil(10 / 3) = 4 items, the last a run of one value
    let prim = PrimitiveArray::from_vec((0..10).collect::<Vec<u8>>());
    let mut it = prim.iter_blocks::<3>();
    let mut items = Vec::new();
    while let Some(item) = it.next() {
        items.push(item.map(|b| b.to_vec()).map_err(|r| r.to_vec()));
    }
    assert_eq!(items.len(), 4);
    assert!(items[..3].iter().all(|i| matches!(i, Ok(b) if b.len() == 3)));
    assert_eq!(items[3], Err(vec![9u8]));
    let joined: Vec<u8> = items.into_iter().flat_map(|i| match i {
        Ok(b) => b,
        Err(r) => r,
    }).collect();
    assert_eq!(joined, (0..10).collect::<Vec<u8>>());
    assert_eq!(it.next(), None);
}
