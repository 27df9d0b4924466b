use hexit::coord::{Coord, DegCorner};
use hexit::error::HError;
use hexit::tile::{extract_resolution, parse_sw_corner, Tile};

fn tile_bytes(dim: usize) -> Vec<u8> {
    // Deterministic sample pattern, covering negative values too.
    let mut bytes: Vec<u8> = Vec::with_capacity(dim * dim * 2);
    for i in 0..dim * dim {
        let v: i16 = ((i as u32).wrapping_mul(31) & 0xffff) as u16 as i16;
        let u: u16 = v as u16;
        bytes.push((u >> 8) as u8);
        bytes.push(u as u8);
    }
    bytes
}

fn sample_of(bytes: &[u8], idx: usize) -> i16 {
    let u: u16 = ((bytes[2 * idx] as u16) << 8) | (bytes[2 * idx + 1] as u16);
    u as i16
}

fn anon_map(bytes: &[u8]) -> memmap2::Mmap {
    let mut m = memmap2::MmapMut::map_anon(bytes.len()).unwrap();
    m.copy_from_slice(bytes);
    m.make_read_only().unwrap()
}

#[test]
fn test_parse_hgt_name() {
    let sw_corner = parse_sw_corner("N44W072").unwrap();
    let resolution = extract_resolution(3601 * 3601 * 2).unwrap();
    assert_eq!(sw_corner, DegCorner { lon: -72, lat: 44 });
    assert_eq!(resolution, (1, (3601, 3601)));
}

#[test]
fn nasadem_test_parse_hgt_name() {
    let sw_corner = parse_sw_corner("N44W072").unwrap();
    let resolution = extract_resolution(1201 * 1201 * 2).unwrap();
    assert_eq!(sw_corner, DegCorner { lon: -72, lat: 44 });
    assert_eq!(resolution, (3, (1201, 1201)));
}

#[test]
fn test_tile_open() {
    let bytes = tile_bytes(3601);
    Tile::parse("N44W072", &bytes).unwrap();
}

#[test]
fn nasadem_test_tile_open() {
    let bytes = tile_bytes(1201);
    Tile::parse("N44W072", &bytes).unwrap();
}

#[test]
fn test_tile_index() {
    let bytes = tile_bytes(3601);
    let parsed_tile = Tile::parse("N44W072", &bytes).unwrap();
    let mapped_tile = Tile::memmap("N44W072", anon_map(&bytes)).unwrap();
    let mut idx: usize = 0;
    for row in (0..3601usize).rev() {
        for col in 0..3601usize {
            let expect = sample_of(&bytes, idx);
            assert_eq!(expect, parsed_tile.get_xy((col, row)).unwrap());
            assert_eq!(expect, mapped_tile.get_xy((col, row)).unwrap());
            idx += 1;
        }
    }
}

#[test]
fn nasadem_test_tile_index() {
    let bytes = tile_bytes(1201);
    let tile = Tile::parse("N44W072", &bytes).unwrap();
    let mut idx: usize = 0;
    for row in (0..1201usize).rev() {
        for col in 0..1201usize {
            assert_eq!(sample_of(&bytes, idx), tile.get_xy((col, row)).unwrap());
            idx += 1;
        }
    }
}

#[test]
fn test_tile_corners() {
    let bytes = tile_bytes(3601);
    let tile = Tile::parse("N44W072", &bytes).unwrap();
    assert_eq!(tile.resolution(), 1);
    assert_eq!(tile.dimensions(), (3601, 3601));
    let sw = tile.sw_corner();
    assert_eq!(sw, Coord { lon_das: -72 * 36000, lat_das: 44 * 36000 });
    let ne = tile.ne_corner();
    // One resolution step (1 arcsecond = 10 deci-arcseconds) per sample.
    assert_eq!(ne.lon_das, sw.lon_das + 3601 * 10);
    assert_eq!(ne.lat_das, sw.lat_das + 3601 * 10);
}

#[test]
fn test_tile_geo_index() {
    // A synthetic peak: the sample covering the query coordinate holds
    // the tile's maximum.
    let dim: usize = 3601;
    let mut bytes: Vec<u8> = vec![0u8; dim * dim * 2];
    let x: usize = 2508;
    let y: usize = 974;
    let linear: usize = dim * (dim - 1 - y) + x;
    let peak: u16 = 1917;
    bytes[2 * linear] = (peak >> 8) as u8;
    bytes[2 * linear + 1] = peak as u8;
    let tile = Tile::parse("N44W072", &bytes).unwrap();
    let mt_washington = Coord {
        lat_das: 1593738,  // 44.2705 degrees north
        lon_das: -2566917, // 71.30325 degrees west
    };
    assert_eq!(
        tile.get_coord(mt_washington).unwrap(),
        tile.max_elev().unwrap()
    );
    assert_eq!(tile.get_coord(mt_washington).unwrap(), 1917);
}

#[test]
fn test_tile_index_conversions() {
    let bytes = tile_bytes(3601);
    let tile = Tile::parse("N44W072", &bytes).unwrap();
    for row in (0..3601usize).rev() {
        for col in 0..3601usize {
            let linear = tile.xy_to_linear_index((col, row));
            let roundtrip_2d = tile.linear_index_to_xy(linear);
            assert_eq!((col, row), roundtrip_2d);
        }
    }
}

#[test]
fn nasadem_test_tile_index_conversions() {
    let bytes = tile_bytes(1201);
    let parsed_tile = Tile::parse("N44W072", &bytes).unwrap();
    for row in (0..1201usize).rev() {
        for col in 0..1201usize {
            let linear = parsed_tile.xy_to_linear_index((col, row));
            let roundtrip_2d = parsed_tile.linear_index_to_xy(linear);
            assert_eq!((col, row), roundtrip_2d);
        }
    }
}

#[test]
fn test_bad_length_rejected() {
    assert_eq!(extract_resolution(123), Err(HError::HgtLen(123)));
    assert!(matches!(
        Tile::parse("N44W072", &vec![0u8; 10]),
        Err(HError::HgtLen(10))
    ));
}

#[test]
fn test_bad_name_rejected() {
    assert!(matches!(parse_sw_corner("X44W072"), Err(HError::HgtName(_))));
    assert!(matches!(parse_sw_corner("N4W072"), Err(HError::HgtName(_))));
    assert!(matches!(parse_sw_corner("N44W0721"), Err(HError::HgtName(_))));
    assert!(matches!(parse_sw_corner("N44X072"), Err(HError::HgtName(_))));
    assert!(matches!(parse_sw_corner("N4AW072"), Err(HError::HgtName(_))));
    assert_eq!(
        parse_sw_corner("S09E123").unwrap(),
        DegCorner { lon: 123, lat: -9 }
    );
}

#[test]
fn test_out_of_range_rejected() {
    let bytes = tile_bytes(1201);
    let tile = Tile::parse("N44W072", &bytes).unwrap();
    assert_eq!(tile.get_xy((1201, 0)), Err(HError::OutOfRange));
    assert_eq!(tile.get_xy((0, 1201)), Err(HError::OutOfRange));
    // A coordinate west of the tile.
    let west = Coord { lon_das: -73 * 36000, lat_das: 44 * 36000 };
    assert_eq!(tile.get_coord(west), Err(HError::OutOfRange));
}

#[test]
fn test_mapped_aggregates_unsupported() {
    let bytes = tile_bytes(1201);
    let mapped = Tile::memmap("N44W072", anon_map(&bytes)).unwrap();
    assert_eq!(mapped.max_elev(), Err(HError::UnsupportedStorage));
    assert_eq!(mapped.min_elev(), Err(HError::UnsupportedStorage));
    let parsed = Tile::parse("N44W072", &bytes).unwrap();
    assert!(parsed.max_elev().is_ok());
    assert!(parsed.min_elev().unwrap() <= parsed.max_elev().unwrap());
}

#[test]
fn test_sample_views() {
    let bytes = tile_bytes(1201);
    let tile = Tile::parse("N44W072", &bytes).unwrap();
    let sample = tile.sample(5);
    assert_eq!(sample.elevation(), sample_of(&bytes, 5));
    assert_eq!(sample.index(), (5, 1200));
    assert_eq!(tile.sample_count(), 1201 * 1201);
    assert_eq!(tile.dimensions(), (1201, 1201));
    assert_eq!(tile.resolution(), 3);
}
