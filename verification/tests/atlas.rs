use wisp::text::Atlas;

#[test]
fn a_mask_can_be_read_back_where_it_was_put() {
    let mut atlas = Atlas::new(64);
    let slot = atlas.add(2, 2, &[1, 2, 3, 4]).expect("room in an empty atlas");
    let at = |x: u32, y: u32| atlas.pixels()[((slot.y + y) * 64 + slot.x + x) as usize];
    assert_eq!([at(0, 0), at(1, 0), at(0, 1), at(1, 1)], [1, 2, 3, 4]);
}

#[test]
fn glyphs_do_not_land_on_top_of_each_other() {
    let mut atlas = Atlas::new(64);
    let a = atlas.add(8, 8, &[255; 64]).unwrap();
    let b = atlas.add(8, 8, &[255; 64]).unwrap();
    let overlaps = a.x < b.x + b.width
        && b.x < a.x + a.width
        && a.y < b.y + b.height
        && b.y < a.y + a.height;
    assert!(!overlaps, "{a:?} and {b:?} overlap");
}

#[test]
fn there_is_a_gap_between_neighbours() {
    // Without it, filtering at the edge of one glyph samples the next and
    // leaves a faint smear beside every letter.
    let mut atlas = Atlas::new(64);
    let a = atlas.add(8, 8, &[255; 64]).unwrap();
    let b = atlas.add(8, 8, &[255; 64]).unwrap();
    let apart = (a.x as i64 - b.x as i64).abs() > a.width as i64
        || (a.y as i64 - b.y as i64).abs() > a.height as i64;
    assert!(apart, "{a:?} and {b:?} are touching");
}

#[test]
fn atlas_a_full_atlas_says_so_rather_than_failing() {
    // The caller drops a glyph for one frame and asks for a bigger atlas;
    // it does not lose the frame.
    let mut atlas = Atlas::new(16);
    assert!(atlas.add(8, 8, &[0; 64]).is_some());
    assert!(atlas.add(64, 64, &[0; 4096]).is_none());
}

#[test]
fn a_space_has_no_shape_to_pack() {
    let mut atlas = Atlas::new(64);
    let slot = atlas.add(0, 0, &[]).expect("an empty glyph is not a failure");
    assert_eq!((slot.width, slot.height), (0, 0));
}

#[test]
fn atlas_only_what_changed_is_reported_as_dirty() {
    // Uploading the whole atlas every frame is most of the cost of a glyph
    // cache and all of the reason not to have one.
    let mut atlas = Atlas::new(64);
    atlas.add(4, 4, &[255; 16]).unwrap();
    let (l, t, r, b) = atlas.take_dirty().expect("something was written");
    assert!(r - l <= 5 && b - t <= 5, "dirty region is the whole atlas");
    assert_eq!(atlas.take_dirty(), None, "taking it twice reports it twice");
}

#[test]
fn an_earlier_glyph_is_still_there_after_a_later_one() {
    let mut atlas = Atlas::new(64);
    let a = atlas.add(2, 2, &[1, 2, 3, 4]).unwrap();
    let _ = atlas.add(3, 3, &[9; 9]).unwrap();
    let at = |x: u32, y: u32| atlas.pixels()[((a.y + y) * 64 + a.x + x) as usize];
    assert_eq!([at(0, 0), at(1, 0), at(0, 1), at(1, 1)], [1, 2, 3, 4]);
}

#[test]
fn the_dirty_region_grows_to_take_in_both_writes() {
    let mut atlas = Atlas::new(64);
    let a = atlas.add(4, 4, &[255; 16]).unwrap();
    let b = atlas.add(4, 4, &[255; 16]).unwrap();
    let (l, t, r, bottom) = atlas.take_dirty().unwrap();
    assert_eq!(l, a.x.min(b.x));
    assert_eq!(t, a.y.min(b.y));
    assert_eq!(r, (a.x + 4).max(b.x + 4));
    assert_eq!(bottom, (a.y + 4).max(b.y + 4));
}

#[test]
fn a_new_atlas_is_empty_and_clean() {
    let mut atlas = Atlas::new(8);
    assert_eq!(atlas.side(), 8);
    assert_eq!(atlas.pixels().len(), 64);
    assert!(atlas.pixels().iter().all(|p| *p == 0));
    assert_eq!(atlas.take_dirty(), None);
}

#[test]
fn a_mask_shorter_than_its_size_is_refused_and_nothing_is_written() {
    let mut atlas = Atlas::new(64);
    assert_eq!(atlas.add(4, 4, &[255; 3]), None);
    assert_eq!(atlas.take_dirty(), None);
    assert!(atlas.pixels().iter().all(|&p| p == 0));
    assert!(atlas.add(4, 4, &[255; 16]).is_some(), "the room is still there");
}

#[test]
fn a_glyph_too_wide_for_any_atlas_is_refused() {
    let mut atlas = Atlas::new(64);
    assert_eq!(atlas.add(70000, 1, &vec![255; 70000]), None);
    assert_eq!(atlas.take_dirty(), None);
}

#[test]
fn an_atlas_that_has_packed_as_many_as_its_allocator_can_number_is_full() {
    let mut atlas = Atlas::new(1024);
    for _ in 0..wisp::text::MOST_PACKED {
        assert!(atlas.add(1, 1, &[255]).is_some(), "there is room for this one");
    }
    assert_eq!(atlas.add(1, 1, &[255]), None);
    assert_eq!(wisp::text::MOST_PACKED, 32767);
}
