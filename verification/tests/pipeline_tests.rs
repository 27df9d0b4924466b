use hexit::combine::combine_files;
use hexit::disktree::{parse_cell_text, ByteSource, DiskTree};
use hexit::error::HError;
use hexit::records::Record;
use hexit::tess::{
    from_pairs, should_write, tessellation_from_bytes, tessellation_to_bytes,
};

fn cell_at(lat: f64, lon: f64, res: h3o::Resolution) -> u64 {
    h3o::LatLng::new(lat, lon).unwrap().to_cell(res).into()
}

fn anon_map(bytes: &[u8]) -> memmap2::Mmap {
    let mut m = memmap2::MmapMut::map_anon(bytes.len()).unwrap();
    m.copy_from_slice(bytes);
    m.make_read_only().unwrap()
}

#[test]
fn test_from_pairs_sorts_dedups_last_wins() {
    let a = cell_at(44.1, -72.1, h3o::Resolution::Ten);
    let b = cell_at(44.5, -71.5, h3o::Resolution::Ten);
    assert_ne!(a, b);
    let pairs = vec![(b, 5i16), (a, 3i16), (b, 7i16)];
    let t = from_pairs(10, &pairs).unwrap();
    assert_eq!(t.resolution, 10);
    assert_eq!(t.records.len(), 2);
    assert!(t.records[0].cell < t.records[1].cell);
    for r in &t.records {
        let want = if r.cell == b { 7 } else { 3 };
        assert_eq!(r.elevation, want);
    }
}

#[test]
fn test_from_pairs_rejects_wrong_resolution() {
    let coarse = cell_at(44.1, -72.1, h3o::Resolution::Five);
    assert_eq!(
        from_pairs(10, &vec![(coarse, 1i16)]),
        Err(HError::InvalidCell(coarse))
    );
    assert_eq!(from_pairs(16, &vec![]), Err(HError::InvalidResolution(16)));
    assert_eq!(from_pairs(10, &vec![(0u64, 1i16)]), Err(HError::InvalidCell(0)));
}

#[test]
fn test_tessellation_roundtrip() {
    let a = cell_at(44.1, -72.1, h3o::Resolution::Ten);
    let b = cell_at(44.5, -71.5, h3o::Resolution::Ten);
    let t = from_pairs(10, &vec![(a, -44i16), (b, 900i16)]).unwrap();
    let bytes = tessellation_to_bytes(&t);
    let t2 = tessellation_from_bytes(&bytes).unwrap();
    assert_eq!(t2.resolution, t.resolution);
    assert_eq!(t2.records, t.records);
    // Writing the re-read tessellation is byte-identical: a second build
    // over the same records changes nothing.
    assert_eq!(tessellation_to_bytes(&t2), bytes);
}

#[test]
fn test_tessellation_rejects_corrupt() {
    assert_eq!(
        tessellation_from_bytes(&vec![1u8, 2, 3]),
        Err(HError::CorruptIndex)
    );
    let a = cell_at(44.1, -72.1, h3o::Resolution::Ten);
    let t = from_pairs(10, &vec![(a, 1i16)]).unwrap();
    let mut bytes = tessellation_to_bytes(&t);
    bytes[0] = 0; // break the magic
    assert_eq!(tessellation_from_bytes(&bytes), Err(HError::CorruptIndex));
}

#[test]
fn test_combine_determinism() {
    let a = cell_at(44.1, -72.1, h3o::Resolution::Ten);
    let b = cell_at(44.5, -71.5, h3o::Resolution::Ten);
    let c = cell_at(43.9, -72.9, h3o::Resolution::Ten);
    let t1 = tessellation_to_bytes(&from_pairs(10, &vec![(a, 1i16), (b, 2i16)]).unwrap());
    let t2 = tessellation_to_bytes(&from_pairs(10, &vec![(b, 9i16), (c, 3i16)]).unwrap());
    let inputs = vec![t1, t2];
    let out1 = combine_files(&inputs, 10).unwrap();
    let out2 = combine_files(&inputs, 10).unwrap();
    assert_eq!(out1, out2);
}

#[test]
fn test_combine_last_input_wins() {
    let a = cell_at(44.1, -72.1, h3o::Resolution::Ten);
    let b = cell_at(44.5, -71.5, h3o::Resolution::Ten);
    let t1 = tessellation_to_bytes(&from_pairs(10, &vec![(a, 1i16), (b, 2i16)]).unwrap());
    let t2 = tessellation_to_bytes(&from_pairs(10, &vec![(b, 9i16)]).unwrap());
    let out = combine_files(&vec![t1, t2], 10).unwrap();
    let tree = DiskTree::open(ByteSource::Mem(out)).unwrap();
    assert_eq!(tree.lookup(a).unwrap(), Some(1));
    assert_eq!(tree.lookup(b).unwrap(), Some(9));
}

#[test]
fn test_combine_coarsens_finer_inputs() {
    let fine = cell_at(44.1, -72.1, h3o::Resolution::Twelve);
    let t = tessellation_to_bytes(&from_pairs(12, &vec![(fine, 321i16)]).unwrap());
    let out = combine_files(&vec![t], 10).unwrap();
    let tree = DiskTree::open(ByteSource::Mem(out)).unwrap();
    // The record was re-keyed to the ancestor cell at the target
    // resolution; querying either the fine cell or its ancestor finds it.
    let ancestor = cell_at(44.1, -72.1, h3o::Resolution::Ten);
    assert_eq!(tree.lookup(ancestor).unwrap(), Some(321));
    assert_eq!(tree.lookup(fine).unwrap(), Some(321));
}

#[test]
fn test_resolution_too_coarse() {
    let a = cell_at(44.1, -72.1, h3o::Resolution::Ten);
    let t = tessellation_to_bytes(&from_pairs(10, &vec![(a, 1i16)]).unwrap());
    let r = combine_files(&vec![t], 12);
    assert_eq!(
        r,
        Err(HError::ResolutionTooCoarse { have: 10, want: 12 })
    );
}

#[test]
fn test_lookup_present_and_absent() {
    let a = cell_at(44.1, -72.1, h3o::Resolution::Ten);
    let b = cell_at(44.5, -71.5, h3o::Resolution::Ten);
    let t = tessellation_to_bytes(&from_pairs(10, &vec![(a, -5i16), (b, 7i16)]).unwrap());
    let out = combine_files(&vec![t], 10).unwrap();
    let tree = DiskTree::open(ByteSource::Mem(out)).unwrap();
    // Every stored record is found with exactly its stored elevation.
    assert_eq!(tree.lookup(a).unwrap(), Some(-5));
    assert_eq!(tree.lookup(b).unwrap(), Some(7));
    // A cell never stored, whose ancestor is never stored either, is a
    // normal not-found.
    let far = cell_at(-33.9, 151.2, h3o::Resolution::Ten);
    assert_eq!(tree.lookup(far).unwrap(), None);
    // An identifier the grid rejects is an error, not a not-found.
    assert_eq!(tree.lookup(0), Err(HError::InvalidCell(0)));
}

#[test]
fn test_disktree_mapped_matches_materialized() {
    let a = cell_at(44.1, -72.1, h3o::Resolution::Ten);
    let b = cell_at(44.5, -71.5, h3o::Resolution::Ten);
    let t = tessellation_to_bytes(&from_pairs(10, &vec![(a, 11i16), (b, 22i16)]).unwrap());
    let out = combine_files(&vec![t], 10).unwrap();
    let mem_tree = DiskTree::open(ByteSource::Mem(out.clone())).unwrap();
    let map_tree = DiskTree::open(ByteSource::Mapped(anon_map(&out))).unwrap();
    for cell in [a, b] {
        assert_eq!(mem_tree.lookup(cell).unwrap(), map_tree.lookup(cell).unwrap());
    }
}

#[test]
fn test_disktree_rejects_corrupt() {
    assert!(matches!(
        DiskTree::open(ByteSource::Mem(vec![1u8, 2, 3])),
        Err(HError::CorruptIndex)
    ));
    let a = cell_at(44.1, -72.1, h3o::Resolution::Ten);
    let t = tessellation_to_bytes(&from_pairs(10, &vec![(a, 1i16)]).unwrap());
    let mut out = combine_files(&vec![t], 10).unwrap();
    let last = out.len() - 1;
    out.truncate(last); // truncated file
    assert!(matches!(
        DiskTree::open(ByteSource::Mem(out)),
        Err(HError::CorruptIndex)
    ));
}

#[test]
fn test_parse_cell_text() {
    assert_eq!(parse_cell_text("8a2a1072b59ffff"), Some(0x8a2a1072b59ffff));
    assert_eq!(parse_cell_text("FF"), Some(255));
    assert_eq!(parse_cell_text("0"), Some(0));
    assert_eq!(parse_cell_text(""), None);
    assert_eq!(parse_cell_text("12345678901234567"), None);
    assert_eq!(parse_cell_text("08g"), None);
}

#[test]
fn test_should_write() {
    assert!(should_write(false, false));
    assert!(should_write(false, true));
    assert!(should_write(true, true));
    assert!(!should_write(true, false));
}

#[test]
fn test_combine_empty_inputs() {
    let out = combine_files(&vec![], 10).unwrap();
    let tree = DiskTree::open(ByteSource::Mem(out)).unwrap();
    let a = cell_at(44.1, -72.1, h3o::Resolution::Ten);
    assert_eq!(tree.lookup(a).unwrap(), None);
}

#[test]
fn test_records_equality() {
    let r = Record { cell: 5, elevation: -1 };
    assert_eq!(r, Record { cell: 5, elevation: -1 });
}
