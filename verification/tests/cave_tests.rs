use redbreadcrumb::CaveFinder;

#[test]
fn test_find_caves() {
    let data = vec![0x41, 0x00, 0x00, 0x00, 0x00, 0x42, 0x00, 0x00, 0x43];
    let caves = CaveFinder::find_caves(&data, 2);

    assert_eq!(caves.len(), 2);
    assert_eq!(caves[0].file_offset, 1);
    assert_eq!(caves[0].size, 4);
    assert_eq!(caves[1].file_offset, 6);
    assert_eq!(caves[1].size, 2);
}

#[test]
fn test_find_best_cave() {
    let data = vec![0x41, 0x00, 0x00, 0x42, 0x00, 0x00, 0x00, 0x00, 0x43];
    let cave = CaveFinder::find_best_cave(&data, 3);

    assert!(cave.is_some());
    let cave = cave.unwrap();
    assert_eq!(cave.file_offset, 4);
    assert_eq!(cave.size, 4);
}

#[test]
fn test_find_caves_trailing_run() {
    // a run that reaches the end of the buffer is still maximal
    let data = vec![0x41, 0x00, 0x00, 0x00];
    let caves = CaveFinder::find_caves(&data, 1);
    assert_eq!(caves.len(), 1);
    assert_eq!(caves[0].file_offset, 1);
    assert_eq!(caves[0].size, 3);
}

#[test]
fn test_find_caves_sorted_by_size_with_stable_ties() {
    let data = vec![0x41, 0x00, 0x00, 0x42, 0x00, 0x00, 0x00, 0x43, 0x00, 0x00, 0x44];
    let caves = CaveFinder::find_caves(&data, 2);
    assert_eq!(caves.len(), 3);
    assert_eq!((caves[0].file_offset, caves[0].size), (4, 3));
    // equal sizes keep scan order: lower offset first
    assert_eq!((caves[1].file_offset, caves[1].size), (1, 2));
    assert_eq!((caves[2].file_offset, caves[2].size), (8, 2));
}

#[test]
fn test_find_caves_in_range_shifts_offsets() {
    let data = vec![0x41, 0x00, 0x00, 0x00, 0x00, 0x42, 0x00, 0x00, 0x43];
    // scan [3, 9): sees zeros at 3..5 and 6..8
    let caves = CaveFinder::find_caves_in_range(&data, 3, 9, 2);
    assert_eq!(caves.len(), 2);
    assert_eq!((caves[0].file_offset, caves[0].size), (3, 2));
    assert_eq!((caves[1].file_offset, caves[1].size), (6, 2));
}

#[test]
fn test_find_caves_in_range_interior_matches_full_scan() {
    // a cave wholly inside the window equals the full-buffer cave shifted
    let data = vec![0x41, 0x42, 0x00, 0x00, 0x00, 0x43, 0x44, 0x45];
    let full = CaveFinder::find_caves(&data, 2);
    let ranged = CaveFinder::find_caves_in_range(&data, 1, 7, 2);
    assert_eq!(full.len(), 1);
    assert_eq!(ranged.len(), 1);
    assert_eq!(full[0].file_offset, ranged[0].file_offset);
    assert_eq!(full[0].size, ranged[0].size);
}

#[test]
fn test_find_caves_in_range_rejects_bad_window() {
    let data = vec![0x00, 0x00, 0x00];
    assert!(CaveFinder::find_caves_in_range(&data, 3, 3, 1).is_empty());
    assert!(CaveFinder::find_caves_in_range(&data, 0, 4, 1).is_empty());
    assert!(CaveFinder::find_caves_in_range(&data, 2, 1, 1).is_empty());
}

#[test]
fn test_largest_cave_size() {
    let data = vec![0x41, 0x00, 0x00, 0x42, 0x00, 0x00, 0x00, 0x43];
    assert_eq!(CaveFinder::largest_cave_size(&data), 3);
    let no_zeros = vec![0x41, 0x42, 0x43];
    assert_eq!(CaveFinder::largest_cave_size(&no_zeros), 0);
    assert!(CaveFinder::find_best_cave(&no_zeros, 1).is_none());
}
