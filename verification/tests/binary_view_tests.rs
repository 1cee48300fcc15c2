use vortex_core::binary_view::{
    map_views, map_views_crazy, take_views, take_views_into, take_views_unchecked, BinaryView,
    TakeError, VarBinViewBuilder,
};

#[test]
fn inlined_view_holds_its_bytes() {
    let v = BinaryView::new_inlined(b"hello");
    assert_eq!(v.len(), 5);
    assert!(v.is_inlined());
    let expected = 5u128 | (u128::from_le_bytes(*b"\0\0\0\0hello\0\0\0\0\0\0\0") & !0xFFFF_FFFFu128);
    assert_eq!(v.as_u128(), expected);
    assert_eq!(BinaryView::new_inlined(&[]).as_u128(), 0);
}

#[test]
fn referencing_view_fields() {
    let v = BinaryView::new_view(100, [1, 2, 3, 4], 7, 99);
    assert_eq!(v.len(), 100);
    assert!(!v.is_inlined());
    let r = v.as_view();
    assert_eq!(r.size(), 100);
    assert_eq!(r.prefix(), &[1, 2, 3, 4]);
    assert_eq!(r.buffer_index(), 7);
    assert_eq!(r.offset(), 99);
    assert_eq!(
        v.as_u128(),
        100u128 | (0x0403_0201u128 << 32) | (7u128 << 64) | (99u128 << 96)
    );
    assert_eq!(BinaryView::from_u128(v.as_u128()), v);
}

#[test]
fn map_views_moves_only_referencing_views() {
    let views = vec![
        BinaryView::new_inlined(b"abc"),
        BinaryView::new_view(13, [9, 9, 9, 9], 0, 5),
        BinaryView::new_view(1000, [0, 0, 0, 1], 3, 12345),
        BinaryView::new_inlined(b"exactly12byt"),
    ];
    let moved = map_views(views.clone(), 10);
    assert_eq!(moved[0], views[0]);
    assert_eq!(moved[1], BinaryView::new_view(13, [9, 9, 9, 9], 10, 5));
    assert_eq!(moved[2], BinaryView::new_view(1000, [0, 0, 0, 1], 13, 12345));
    assert_eq!(moved[3], views[3]);
    let crazy = map_views_crazy(views.clone(), 10);
    assert_eq!(moved, crazy);
}

#[test]
fn test_q_view_swap() {
    // a deterministic mix of inline and referencing views
    let mut seed: u64 = 23324;
    let mut next = || {
        seed = seed.wrapping_mul(6364136223846793005).wrapping_add(1442695040888963407);
        (seed >> 33) as u32
    };
    let views = (0..2000000)
        .map(|_| {
            if next() % 2 == 0 {
                BinaryView::new_inlined(&[])
            } else {
                BinaryView::new_view(next() % 1000, [0u8; 4], 10, next() % 1000)
            }
        })
        .collect::<Vec<_>>();
    let buffers_offset = 10;
    let res2 = map_views(views.clone(), buffers_offset);
    let res = map_views_crazy(views.clone(), buffers_offset);
    assert_eq!(
        res2.iter().map(|r| r.as_u128()).collect::<Vec<_>>(),
        res.iter().map(|r| r.as_u128()).collect::<Vec<_>>()
    );
}

#[test]
fn take_views_picks_in_order() {
    let views = vec![
        BinaryView::new_inlined(b"x"),
        BinaryView::new_view(20, [1, 2, 3, 4], 2, 40),
        BinaryView::new_inlined(b"yz"),
    ];
    let taken = take_views(&views, &[2, 0, 1, 1]);
    assert_eq!(taken, vec![views[2], views[0], views[1], views[1]]);
    assert_eq!(take_views_unchecked(&views, &[1]), vec![views[1]]);
    assert_eq!(take_views(&views, &[]), vec![]);
    let mut builder: VarBinViewBuilder<&str> = VarBinViewBuilder::new();
    builder.push_buffer_and_adjusted_views(vec!["p", "q", "r", "s", "t"], vec![], vec![]);
    assert_eq!(take_views_into(&views, vec!["u", "v"], &[1, 0], vec![true, false], &mut builder), Ok(()));
    assert_eq!(builder.completed_block_count(), 7);
    assert_eq!(builder.completed(), &["p", "q", "r", "s", "t", "u", "v"][..]);
    assert_eq!(builder.views(), &[BinaryView::new_view(20, [1, 2, 3, 4], 7, 40), views[0]][..]);
    assert_eq!(builder.validity(), &[true, false][..]);
    if usize::BITS > 32 {
        let too_many = (u32::MAX as usize) + 1;
        let mut big: VarBinViewBuilder<()> = VarBinViewBuilder::new();
        big.push_buffer_and_adjusted_views(vec![(); too_many], vec![], vec![]);
        assert_eq!(
            take_views_into(&views, vec![], &[0], vec![true], &mut big),
            Err(TakeError::TooManyBuffers(too_many))
        );
        assert_eq!(big.views().len(), 0);
    }
}

#[test]
fn mapping_twice_is_mapping_by_the_sum() {
    let views = vec![
        BinaryView::new_inlined(b"abc"),
        BinaryView::new_view(100, [1, 2, 3, 4], 3, 17),
        BinaryView::new_view(13, [5, 6, 7, 8], 0, 0),
    ];
    let twice = map_views(map_views(views.clone(), 4), 6);
    let once = map_views(views.clone(), 10);
    assert_eq!(
        twice.iter().map(|v| v.as_u128()).collect::<Vec<_>>(),
        once.iter().map(|v| v.as_u128()).collect::<Vec<_>>()
    );
    assert_eq!(once[1], BinaryView::new_view(100, [1, 2, 3, 4], 13, 17));
    assert_eq!(map_views(views.clone(), 0), views);
}
