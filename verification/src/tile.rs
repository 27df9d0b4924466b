//! NASADEM `.hgt` raster tiles: parsing, storage, and index transforms.
//!
//! A tile is a square grid of big-endian signed 16-bit elevation samples,
//! row-major with the northernmost row stored first. It is held either
//! fully materialized (decoded eagerly into a vector) or memory-mapped
//! (decoded lazily per access); both storage modes yield identical sample
//! values for identical indices.

use vstd::arithmetic::div_mod::{
    lemma_fundamental_div_mod, lemma_fundamental_div_mod_converse,
};
use vstd::prelude::*;

use crate::codec::{decode_be_i16, spec_i16_of_bytes};
use crate::coord::{Coord, DegCorner, DAS_PER_DEG};
use crate::error::HError;
use crate::mapping::{mmap_byte, mmap_len, mmap_view};

verus! {

/// Byte length of a 1-arcsecond (3601 x 3601) raster file.
pub const LEN_1_ARCSEC: u64 = 3601 * 3601 * 2;

/// Byte length of a 3-arcsecond (1201 x 1201) raster file.
pub const LEN_3_ARCSEC: u64 = 1201 * 1201 * 2;

/// Elevation sample storage: eagerly decoded, or a lazy read-through view
/// over a memory-mapped file's bytes.
pub enum Storage {
    /// Fully materialized samples.
    Parsed(Vec<i16>),
    /// Big-endian samples decoded on demand from a mapped file.
    Mapped(memmap2::Mmap),
}

/// One parsed raster grid.
pub struct Tile {
    /// Longitude of the south-west sample's center, deci-arcseconds.
    pub sw_lon_das: i64,
    /// Latitude of the south-west sample's center, deci-arcseconds.
    pub sw_lat_das: i64,
    /// Arcseconds per sample.
    pub resolution: u8,
    /// Number of columns.
    pub cols: usize,
    /// Number of rows.
    pub rows: usize,
    /// Elevation samples.
    pub samples: Storage,
}

/// Row-major linear index of grid position `(x, y)`, accounting for the
/// vertical flip: the first stored row is the northernmost.
pub open spec fn spec_xy_to_linear(cols: int, rows: int, x: int, y: int) -> int {
    cols * (rows - 1 - y) + x
}

/// The `(x, y)` grid position of a linear index.
pub open spec fn spec_linear_to_xy(cols: int, rows: int, idx: int) -> (int, int) {
    (idx % cols, rows - 1 - idx / cols)
}

impl Tile {
    /// The samples this tile holds, in storage order, whichever storage
    /// mode backs them.
    pub open spec fn sample_seq(self) -> Seq<i16> {
        match self.samples {
            Storage::Parsed(v) => v@,
            Storage::Mapped(m) => Seq::new(
                (self.cols * self.rows) as nat,
                |i: int| spec_i16_of_bytes(mmap_view(m)[2 * i], mmap_view(m)[2 * i + 1]),
            ),
        }
    }

    /// Well-formedness: a supported size/resolution pairing, a corner
    /// parsed from a valid name, and storage of exactly the right length.
    pub open spec fn wf(self) -> bool {
        &&& (self.resolution == 1 || self.resolution == 3)
        &&& self.cols == self.rows
        &&& (if self.resolution == 1 {
            self.cols == 3601
        } else {
            self.cols == 1201
        })
        &&& -35964000 <= self.sw_lon_das <= 35964000
        &&& -3564000 <= self.sw_lat_das <= 3564000
        &&& match self.samples {
            Storage::Parsed(v) => v@.len() == self.cols * self.rows,
            Storage::Mapped(m) => mmap_view(m).len() == 2 * (self.cols * self.rows),
        }
        &&& self.sample_seq().len() == self.cols * self.rows
    }

    /// Raster x index of a coordinate: samples-per-degree scaling with a
    /// half-sample centering correction, as exact integer floor division.
    pub open spec fn spec_coord_x(self, c: Coord) -> int {
        (c.lon_das - self.sw_lon_das + 5 * self.resolution) / (10 * self.resolution)
    }

    /// Raster y index of a coordinate.
    pub open spec fn spec_coord_y(self, c: Coord) -> int {
        (c.lat_das - self.sw_lat_das + 5 * self.resolution) / (10 * self.resolution)
    }
}

/// Maps a raster file byte length to its (resolution, dimensions) pair.
///
/// Exactly the two supported square sizes are accepted.
pub fn extract_resolution(len: u64) -> (r: Result<(u8, (usize, usize)), HError>)
    ensures
        len == LEN_1_ARCSEC ==> r == Ok::<_, HError>((1u8, (3601usize, 3601usize))),
        len == LEN_3_ARCSEC ==> r == Ok::<_, HError>((3u8, (1201usize, 1201usize))),
        len != LEN_1_ARCSEC && len != LEN_3_ARCSEC ==> r == Err::<(u8, (usize, usize)), _>(
            HError::HgtLen(len),
        ),
{
    if len == LEN_1_ARCSEC {
        Ok((1, (3601, 3601)))
    } else if len == LEN_3_ARCSEC {
        Ok((3, (1201, 1201)))
    } else {
        Err(HError::HgtLen(len))
    }
}

/// Whether `c` is an ASCII decimal digit.
pub open spec fn spec_is_digit(c: char) -> bool {
    48 <= c as u32 <= 57
}

/// The value of an ASCII decimal digit.
pub open spec fn spec_digit_val(c: char) -> int {
    c as u32 - 48
}

/// The `[N|S]DD[E|W]DDD` raster file name grammar: one hemisphere letter,
/// a 2-digit latitude, one hemisphere letter, a 3-digit longitude.
pub open spec fn spec_name_ok(s: Seq<char>) -> bool {
    &&& s.len() == 7
    &&& (s[0] == 'N' || s[0] == 'S')
    &&& spec_is_digit(s[1])
    &&& spec_is_digit(s[2])
    &&& (s[3] == 'E' || s[3] == 'W')
    &&& spec_is_digit(s[4])
    &&& spec_is_digit(s[5])
    &&& spec_is_digit(s[6])
}

/// Latitude, in degrees, encoded by a valid raster file name: north is
/// positive, south negative.
pub open spec fn spec_name_lat(s: Seq<char>) -> int {
    (if s[0] == 'N' {
        1int
    } else {
        -1int
    }) * (spec_digit_val(s[1]) * 10 + spec_digit_val(s[2]))
}

/// Longitude, in degrees, encoded by a valid raster file name: east is
/// positive, west negative.
pub open spec fn spec_name_lon(s: Seq<char>) -> int {
    (if s[3] == 'E' {
        1int
    } else {
        -1int
    }) * (spec_digit_val(s[4]) * 100 + spec_digit_val(s[5]) * 10 + spec_digit_val(s[6]))
}

/// Reads one ASCII digit; anything else is a naming error.
fn digit_at(name: &str, i: usize) -> (r: Result<u16, HError>)
    requires
        i < name@.len(),
    ensures
        spec_is_digit(name@[i as int]) ==> r == Ok::<_, HError>(
            spec_digit_val(name@[i as int]) as u16,
        ),
        !spec_is_digit(name@[i as int]) ==> (r matches Err(e) && e matches HError::HgtName(n)
            && n@ == name@),
{
    let c = name.get_char(i);
    let v = c as u32;
    if 48 <= v && v <= 57 {
        Ok((v - 48) as u16)
    } else {
        Err(HError::HgtName(name.to_owned()))
    }
}

/// Parses a raster file stem into its south-west corner.
///
/// Accepts exactly the 7-character `[N|S]DD[E|W]DDD` grammar; the
/// hemisphere letters give the signs.
pub fn parse_sw_corner(name: &str) -> (r: Result<DegCorner, HError>)
    ensures
        r is Ok <==> spec_name_ok(name@),
        r matches Ok(c) ==> c.lat == spec_name_lat(name@) && c.lon == spec_name_lon(name@),
        r matches Err(e) ==> (e matches HError::HgtName(n) && n@ == name@),
{
    if name.unicode_len() != 7 {
        return Err(HError::HgtName(name.to_owned()));
    }
    let lat_sign: i16 = match name.get_char(0) {
        'N' => 1,
        'S' => -1,
        _ => {
            return Err(HError::HgtName(name.to_owned()));
        },
    };
    let d1 = digit_at(name, 1)?;
    let d2 = digit_at(name, 2)?;
    let lon_sign: i16 = match name.get_char(3) {
        'E' => 1,
        'W' => -1,
        _ => {
            return Err(HError::HgtName(name.to_owned()));
        },
    };
    let d4 = digit_at(name, 4)?;
    let d5 = digit_at(name, 5)?;
    let d6 = digit_at(name, 6)?;
    let lat: i16 = lat_sign * ((d1 * 10 + d2) as i16);
    let lon: i16 = lon_sign * ((d4 * 100 + d5 * 10 + d6) as i16);
    Ok(DegCorner { lon, lat })
}

/// Hemisphere letters give the corner's signs: north and east are
/// non-negative, south and west non-positive, for every valid name.
pub proof fn lemma_hemisphere_sign(s: Seq<char>)
    requires
        spec_name_ok(s),
    ensures
        s[0] == 'N' ==> spec_name_lat(s) >= 0,
        s[0] == 'S' ==> spec_name_lat(s) <= 0,
        s[3] == 'E' ==> spec_name_lon(s) >= 0,
        s[3] == 'W' ==> spec_name_lon(s) <= 0,
{
    lemma_name_value_bounds(s);
    let lat_mag = spec_digit_val(s[1]) * 10 + spec_digit_val(s[2]);
    let lon_mag = spec_digit_val(s[4]) * 100 + spec_digit_val(s[5]) * 10 + spec_digit_val(s[6]);
    assert((1int) * lat_mag == lat_mag && (-1int) * lat_mag == -lat_mag) by (nonlinear_arith);
    assert((1int) * lon_mag == lon_mag && (-1int) * lon_mag == -lon_mag) by (nonlinear_arith);
}

/// The degree values a valid raster file name can encode are bounded:
/// two latitude digits, three longitude digits.
proof fn lemma_name_value_bounds(s: Seq<char>)
    requires
        spec_name_ok(s),
    ensures
        -99 <= spec_name_lat(s) <= 99,
        -999 <= spec_name_lon(s) <= 999,
{
    let lat_mag = spec_digit_val(s[1]) * 10 + spec_digit_val(s[2]);
    let lon_mag = spec_digit_val(s[4]) * 100 + spec_digit_val(s[5]) * 10 + spec_digit_val(s[6]);
    assert(0 <= lat_mag <= 99);
    assert(0 <= lon_mag <= 999);
    assert((1int) * lat_mag == lat_mag && (-1int) * lat_mag == -lat_mag) by (nonlinear_arith);
    assert((1int) * lon_mag == lon_mag && (-1int) * lon_mag == -lon_mag) by (nonlinear_arith);
    if s[0] == 'N' {
        assert(spec_name_lat(s) == lat_mag);
    } else {
        assert(spec_name_lat(s) == -lat_mag);
    }
    if s[3] == 'E' {
        assert(spec_name_lon(s) == lon_mag);
    } else {
        assert(spec_name_lon(s) == -lon_mag);
    }
}

/// Quotient and remainder bounds: a linear index below `cols * rows`
/// has row quotient below `rows`.
proof fn lemma_linear_bounds(cols: int, rows: int, idx: int)
    requires
        0 < cols,
        0 < rows,
        0 <= idx < cols * rows,
    ensures
        0 <= idx % cols < cols,
        0 <= idx / cols < rows,
{
    lemma_fundamental_div_mod(idx, cols);
    assert(0 <= idx % cols < cols) by {
        vstd::arithmetic::div_mod::lemma_mod_bound(idx, cols);
    }
    assert(idx / cols < rows) by {
        if idx / cols >= rows {
            assert(cols * (idx / cols) >= cols * rows) by (nonlinear_arith)
                requires
                    idx / cols >= rows,
                    cols > 0,
            ;
        }
    }
    assert(idx / cols >= 0) by {
        if idx / cols < 0 {
            assert(cols * (idx / cols) <= -cols) by (nonlinear_arith)
                requires
                    idx / cols <= -1,
                    cols > 0,
            ;
        }
    }
}

/// Index round-trip: converting a grid position to its linear index and
/// back recovers the position exactly, for every in-range position of any
/// grid, both supported sizes included.
pub proof fn lemma_index_roundtrip(cols: int, rows: int, x: int, y: int)
    requires
        0 < cols,
        0 < rows,
        0 <= x < cols,
        0 <= y < rows,
    ensures
        spec_linear_to_xy(cols, rows, spec_xy_to_linear(cols, rows, x, y)) == (x, y),
{
    let idx = spec_xy_to_linear(cols, rows, x, y);
    lemma_fundamental_div_mod_converse(idx, cols, rows - 1 - y, x);
}

impl Tile {
    /// Linear index of grid position `(x, y)`.
    pub fn xy_to_linear_index(&self, xy: (usize, usize)) -> (r: usize)
        requires
            self.wf(),
            xy.0 < self.cols,
            xy.1 < self.rows,
        ensures
            r == spec_xy_to_linear(self.cols as int, self.rows as int, xy.0 as int, xy.1 as int),
            r < self.cols * self.rows,
    {
        let (x, y) = xy;
        proof {
            assert(self.cols * (self.rows - 1 - y) + x < self.cols * self.rows) by (
            nonlinear_arith)
                requires
                    0 <= x < self.cols,
                    0 <= y < self.rows,
            ;
            assert(self.cols * ((self.rows - y - 1) as int) == self.cols * (self.rows - 1
                - y)) by (nonlinear_arith)
                requires
                    y < self.rows,
            ;
        }
        self.cols * (self.rows - y - 1) + x
    }

    /// Grid position `(x, y)` of a linear index.
    pub fn linear_index_to_xy(&self, idx: usize) -> (r: (usize, usize))
        requires
            self.wf(),
            idx < self.cols * self.rows,
        ensures
            (r.0 as int, r.1 as int) == spec_linear_to_xy(
                self.cols as int,
                self.rows as int,
                idx as int,
            ),
            r.0 < self.cols,
            r.1 < self.rows,
    {
        proof {
            lemma_linear_bounds(self.cols as int, self.rows as int, idx as int);
        }
        let flipped: usize = idx / self.cols;
        let x: usize = idx % self.cols;
        (x, self.rows - 1 - flipped)
    }

    /// The sample at a linear storage index, served by whichever storage
    /// mode backs this tile.
    pub fn get_linear(&self, idx: usize) -> (r: i16)
        requires
            self.wf(),
            idx < self.cols * self.rows,
        ensures
            r == self.sample_seq()[idx as int],
    {
        match &self.samples {
            Storage::Parsed(v) => v[idx],
            Storage::Mapped(m) => {
                proof {
                    assert(2 * idx + 1 < 2 * (self.cols * self.rows));
                }
                let hi = mmap_byte(m, 2 * idx);
                let lo = mmap_byte(m, 2 * idx + 1);
                decode_be_i16(hi, lo)
            },
        }
    }

    /// The sample at grid position `(x, y)`; out-of-range positions are
    /// rejected.
    pub fn get_xy(&self, xy: (usize, usize)) -> (r: Result<i16, HError>)
        requires
            self.wf(),
        ensures
            xy.0 < self.cols && xy.1 < self.rows ==> r == Ok::<_, HError>(
                self.sample_seq()[spec_xy_to_linear(
                    self.cols as int,
                    self.rows as int,
                    xy.0 as int,
                    xy.1 as int,
                )],
            ),
            !(xy.0 < self.cols && xy.1 < self.rows) ==> r == Err::<i16, _>(HError::OutOfRange),
    {
        if xy.0 < self.cols && xy.1 < self.rows {
            let idx = self.xy_to_linear_index(xy);
            Ok(self.get_linear(idx))
        } else {
            Err(HError::OutOfRange)
        }
    }

    /// The grid position covering a geographic coordinate: floor of the
    /// samples-per-degree scaling with a half-sample centering correction,
    /// exact in fixed point. Coordinates mapping outside the grid are
    /// rejected.
    pub fn coord_to_xy(&self, c: Coord) -> (r: Result<(usize, usize), HError>)
        requires
            self.wf(),
            c.valid(),
        ensures
            ({
                let x = self.spec_coord_x(c);
                let y = self.spec_coord_y(c);
                if 0 <= x < self.cols && 0 <= y < self.rows {
                    r == Ok::<_, HError>(((x as usize), (y as usize)))
                } else {
                    r == Err::<(usize, usize), _>(HError::OutOfRange)
                }
            }),
    {
        let res_das: i64 = 10 * (self.resolution as i64);
        let half: i64 = 5 * (self.resolution as i64);
        let num_x: i64 = c.lon_das - self.sw_lon_das + half;
        let num_y: i64 = c.lat_das - self.sw_lat_das + half;
        if num_x < 0 || num_y < 0 {
            proof {
                lemma_neg_num_neg_quot(num_x as int, num_y as int, res_das as int);
            }
            return Err(HError::OutOfRange);
        }
        let x64: u64 = (num_x as u64) / (res_das as u64);
        let y64: u64 = (num_y as u64) / (res_das as u64);
        if x64 < self.cols as u64 && y64 < self.rows as u64 {
            Ok((x64 as usize, y64 as usize))
        } else {
            Err(HError::OutOfRange)
        }
    }

    /// The sample whose footprint contains a geographic coordinate;
    /// coordinates outside the tile are rejected.
    pub fn get_coord(&self, c: Coord) -> (r: Result<i16, HError>)
        requires
            self.wf(),
            c.valid(),
        ensures
            ({
                let x = self.spec_coord_x(c);
                let y = self.spec_coord_y(c);
                if 0 <= x < self.cols && 0 <= y < self.rows {
                    r == Ok::<_, HError>(
                        self.sample_seq()[spec_xy_to_linear(
                            self.cols as int,
                            self.rows as int,
                            x,
                            y,
                        )],
                    )
                } else {
                    r == Err::<i16, _>(HError::OutOfRange)
                }
            }),
    {
        let xy = self.coord_to_xy(c)?;
        self.get_xy(xy)
    }
}

/// `s` is the sequence of big-endian 16-bit values decoded from `bytes`.
pub open spec fn spec_decodes(bytes: Seq<u8>, s: Seq<i16>) -> bool {
    &&& 2 * s.len() == bytes.len()
    &&& forall|i: int|
        0 <= i < s.len() ==> s[i] == spec_i16_of_bytes(bytes[2 * i], bytes[2 * i + 1])
}

/// Storage-mode equivalence: two well-formed tiles whose samples decode
/// the same underlying bytes — one materialized, one memory-mapped, or
/// any other pairing — hold identical sample values at every index.
pub proof fn lemma_storage_modes_agree(t1: Tile, t2: Tile, bytes: Seq<u8>)
    requires
        spec_decodes(bytes, t1.sample_seq()),
        spec_decodes(bytes, t2.sample_seq()),
    ensures
        t1.sample_seq() == t2.sample_seq(),
{
    assert(t1.sample_seq() =~= t2.sample_seq());
}

impl Tile {
    /// Parses a tile from its file stem and its file's bytes, decoding
    /// every sample eagerly into materialized storage.
    ///
    /// The byte length must match one of the two supported grid sizes and
    /// the stem must follow the `[N|S]DD[E|W]DDD` grammar; the byte length
    /// is checked first, as its error takes precedence.
    pub fn parse(name: &str, bytes: &Vec<u8>) -> (r: Result<Tile, HError>)
        ensures
            r is Ok <==> ((bytes@.len() == LEN_1_ARCSEC || bytes@.len() == LEN_3_ARCSEC)
                && spec_name_ok(name@)),
            bytes@.len() != LEN_1_ARCSEC && bytes@.len() != LEN_3_ARCSEC ==> r == Err::<
                Tile,
                _,
            >(HError::HgtLen(bytes@.len() as u64)),
            (bytes@.len() == LEN_1_ARCSEC || bytes@.len() == LEN_3_ARCSEC) && !spec_name_ok(
                name@,
            ) ==> (r matches Err(e) && e matches HError::HgtName(n) && n@ == name@),
            r matches Ok(t) ==> {
                &&& t.wf()
                &&& t.samples is Parsed
                &&& spec_decodes(bytes@, t.sample_seq())
                &&& t.resolution == (if bytes@.len() == LEN_1_ARCSEC {
                    1int
                } else {
                    3int
                })
                &&& t.sw_lon_das == 36000 * spec_name_lon(name@)
                &&& t.sw_lat_das == 36000 * spec_name_lat(name@)
            },
    {
        let blen: u64 = bytes.len() as u64;
        let (resolution, (cols, rows)) = extract_resolution(blen)?;
        let corner = parse_sw_corner(name)?;
        proof {
            lemma_name_value_bounds(name@);
        }
        let n: usize = cols * rows;
        let mut samples: Vec<i16> = Vec::new();
        let mut i: usize = 0;
        while i < n
            invariant
                n <= 12967201,
                2 * n <= bytes@.len(),
                samples@.len() == i,
                i <= n,
                forall|j: int|
                    0 <= j < i ==> samples@[j] == spec_i16_of_bytes(
                        bytes@[2 * j],
                        bytes@[2 * j + 1],
                    ),
            decreases n - i,
        {
            let hi = bytes[2 * i];
            let lo = bytes[2 * i + 1];
            samples.push(decode_be_i16(hi, lo));
            i = i + 1;
        }
        Ok(Tile {
            sw_lon_das: (corner.lon as i64) * DAS_PER_DEG,
            sw_lat_das: (corner.lat as i64) * DAS_PER_DEG,
            resolution,
            cols,
            rows,
            samples: Storage::Parsed(samples),
        })
    }

    /// Builds a tile over an existing memory mapping of its file, decoding
    /// samples lazily per access.
    ///
    /// Validation matches [`Tile::parse`]; only the storage mode differs.
    pub fn memmap(name: &str, map: memmap2::Mmap) -> (r: Result<Tile, HError>)
        ensures
            r is Ok <==> ((mmap_view(map).len() == LEN_1_ARCSEC || mmap_view(map).len()
                == LEN_3_ARCSEC) && spec_name_ok(name@)),
            mmap_view(map).len() != LEN_1_ARCSEC && mmap_view(map).len() != LEN_3_ARCSEC ==> r
                == Err::<Tile, _>(HError::HgtLen(mmap_view(map).len() as u64)),
            (mmap_view(map).len() == LEN_1_ARCSEC || mmap_view(map).len() == LEN_3_ARCSEC)
                && !spec_name_ok(name@) ==> (r matches Err(e) && e matches HError::HgtName(n)
                && n@ == name@),
            r matches Ok(t) ==> {
                &&& t.wf()
                &&& t.samples is Mapped
                &&& spec_decodes(mmap_view(map), t.sample_seq())
                &&& t.resolution == (if mmap_view(map).len() == LEN_1_ARCSEC {
                    1int
                } else {
                    3int
                })
                &&& t.sw_lon_das == 36000 * spec_name_lon(name@)
                &&& t.sw_lat_das == 36000 * spec_name_lat(name@)
            },
    {
        let blen: u64 = mmap_len(&map) as u64;
        let (resolution, (cols, rows)) = extract_resolution(blen)?;
        let corner = parse_sw_corner(name)?;
        proof {
            lemma_name_value_bounds(name@);
        }
        let t = Tile {
            sw_lon_das: (corner.lon as i64) * DAS_PER_DEG,
            sw_lat_das: (corner.lat as i64) * DAS_PER_DEG,
            resolution,
            cols,
            rows,
            samples: Storage::Mapped(map),
        };
        proof {
            assert forall|i: int| 0 <= i < t.sample_seq().len() implies t.sample_seq()[i]
                == spec_i16_of_bytes(mmap_view(map)[2 * i], mmap_view(map)[2 * i + 1]) by {}
        }
        Ok(t)
    }

    /// This tile's (columns, rows).
    pub fn dimensions(&self) -> (r: (usize, usize))
        ensures
            r == (self.cols, self.rows),
    {
        (self.cols, self.rows)
    }

    /// This tile's resolution in arcseconds per sample.
    pub fn resolution(&self) -> (r: u8)
        ensures
            r == self.resolution,
    {
        self.resolution
    }

    /// Number of samples this tile holds.
    pub fn sample_count(&self) -> (r: usize)
        requires
            self.wf(),
        ensures
            r == self.sample_seq().len(),
    {
        self.cols * self.rows
    }

    /// A transient view of the sample at a linear storage index.
    pub fn sample<'a>(&'a self, index: usize) -> (r: Sample<'a>)
        requires
            self.wf(),
            index < self.sample_seq().len(),
        ensures
            r.wf(),
            r.tile == self,
            r.index == index,
    {
        Sample { tile: self, index }
    }

    /// The geographic center of the sample at a linear storage index, in
    /// exact fixed point: the south-west corner plus whole samples.
    pub fn sample_coord(&self, idx: usize) -> (r: Coord)
        requires
            self.wf(),
            idx < self.cols * self.rows,
        ensures
            ({
                let xy = spec_linear_to_xy(self.cols as int, self.rows as int, idx as int);
                r.lon_das == self.sw_lon_das + xy.0 * 10 * self.resolution && r.lat_das
                    == self.sw_lat_das + xy.1 * 10 * self.resolution
            }),
    {
        let (x, y) = self.linear_index_to_xy(idx);
        let res_das: i64 = 10 * (self.resolution as i64);
        proof {
            assert((x as int) * 10 * (self.resolution as int) <= 3601 * 30 && (y as int) * 10
                * (self.resolution as int) <= 3601 * 30 && (x as int) * 10 * (
            self.resolution as int) >= 0 && (y as int) * 10 * (self.resolution as int) >= 0) by (
            nonlinear_arith)
                requires
                    0 <= x <= 3601,
                    0 <= y <= 3601,
                    1 <= self.resolution <= 3,
            ;
            let xi = x as int;
            let yi = y as int;
            let ri = self.resolution as int;
            assert(xi * (10 * ri) == xi * 10 * ri && yi * (10 * ri) == yi * 10 * ri) by (
            nonlinear_arith);
        }
        Coord {
            lon_das: self.sw_lon_das + (x as i64) * res_das,
            lat_das: self.sw_lat_das + (y as i64) * res_das,
        }
    }

    /// The south-west corner: the geographic center of the
    /// south-westernmost sample.
    pub fn sw_corner(&self) -> (r: Coord)
        ensures
            r == (Coord { lon_das: self.sw_lon_das, lat_das: self.sw_lat_das }),
    {
        Coord { lon_das: self.sw_lon_das, lat_das: self.sw_lat_das }
    }

    /// The north-east corner, derived, never stored: the south-west
    /// corner plus the grid's extent, one resolution step per sample.
    pub fn ne_corner(&self) -> (r: Coord)
        requires
            self.wf(),
        ensures
            r.lon_das == self.sw_lon_das + (self.cols as int) * 10 * (self.resolution as int),
            r.lat_das == self.sw_lat_das + (self.rows as int) * 10 * (self.resolution as int),
    {
        let res_das: i64 = 10 * (self.resolution as i64);
        proof {
            let ci = self.cols as int;
            let ri = self.rows as int;
            let pi = self.resolution as int;
            assert(ci * (10 * pi) == ci * 10 * pi && ri * (10 * pi) == ri * 10 * pi
                && 0 <= ci * (10 * pi) <= 3601 * 30 && 0 <= ri * (10 * pi) <= 3601 * 30) by (
            nonlinear_arith)
                requires
                    0 <= ci <= 3601,
                    0 <= ri <= 3601,
                    1 <= pi <= 3,
            ;
        }
        Coord {
            lon_das: self.sw_lon_das + (self.cols as i64) * res_das,
            lat_das: self.sw_lat_das + (self.rows as i64) * res_das,
        }
    }

    /// The largest sample of a materialized tile; an explicit unsupported
    /// condition for memory-mapped storage, which implements no aggregate
    /// scans.
    pub fn max_elev(&self) -> (r: Result<i16, HError>)
        requires
            self.wf(),
        ensures
            self.samples is Mapped ==> r == Err::<i16, _>(HError::UnsupportedStorage),
            self.samples is Parsed ==> (r matches Ok(m) && self.sample_seq().contains(m)
                && (forall|i: int|
                0 <= i < self.sample_seq().len() ==> self.sample_seq()[i] <= m)),
    {
        match &self.samples {
            Storage::Mapped(_) => Err(HError::UnsupportedStorage),
            Storage::Parsed(v) => {
                let mut best: i16 = v[0];
                let ghost mut best_at: int = 0;
                let mut i: usize = 1;
                while i < v.len()
                    invariant
                        self.samples == Storage::Parsed(*v),
                        v@.len() == self.sample_seq().len(),
                        0 < v@.len(),
                        1 <= i <= v@.len(),
                        0 <= best_at < i,
                        best == v@[best_at],
                        forall|j: int| 0 <= j < i ==> v@[j] <= best,
                    decreases v@.len() - i,
                {
                    if v[i] > best {
                        best = v[i];
                        proof {
                            best_at = i as int;
                        }
                    }
                    i = i + 1;
                }
                proof {
                    assert(self.sample_seq()[best_at] == best);
                }
                Ok(best)
            },
        }
    }

    /// The smallest sample of a materialized tile; an explicit unsupported
    /// condition for memory-mapped storage.
    pub fn min_elev(&self) -> (r: Result<i16, HError>)
        requires
            self.wf(),
        ensures
            self.samples is Mapped ==> r == Err::<i16, _>(HError::UnsupportedStorage),
            self.samples is Parsed ==> (r matches Ok(m) && self.sample_seq().contains(m)
                && (forall|i: int|
                0 <= i < self.sample_seq().len() ==> m <= self.sample_seq()[i])),
    {
        match &self.samples {
            Storage::Mapped(_) => Err(HError::UnsupportedStorage),
            Storage::Parsed(v) => {
                let mut best: i16 = v[0];
                let ghost mut best_at: int = 0;
                let mut i: usize = 1;
                while i < v.len()
                    invariant
                        self.samples == Storage::Parsed(*v),
                        v@.len() == self.sample_seq().len(),
                        0 < v@.len(),
                        1 <= i <= v@.len(),
                        0 <= best_at < i,
                        best == v@[best_at],
                        forall|j: int| 0 <= j < i ==> best <= v@[j],
                    decreases v@.len() - i,
                {
                    if v[i] < best {
                        best = v[i];
                        proof {
                            best_at = i as int;
                        }
                    }
                    i = i + 1;
                }
                proof {
                    assert(self.sample_seq()[best_at] == best);
                }
                Ok(best)
            },
        }
    }
}

/// A transient view of one elevation sample: a back-reference to its
/// owning tile plus a linear index. It never owns elevation data; the
/// value is resolved through the tile's store at access time.
pub struct Sample<'a> {
    /// The tile this sample belongs to.
    pub tile: &'a Tile,
    /// Linear index into the tile's storage.
    pub index: usize,
}

impl<'a> Sample<'a> {
    /// A sample view into a well-formed tile, in range.
    pub open spec fn wf(self) -> bool {
        &&& self.tile.wf()
        &&& self.index < self.tile.sample_seq().len()
    }

    /// This sample's elevation, resolved through the owning tile's store.
    pub fn elevation(&self) -> (r: i16)
        requires
            self.wf(),
        ensures
            r == self.tile.sample_seq()[self.index as int],
    {
        self.tile.get_linear(self.index)
    }

    /// This sample's grid position `(x, y)`.
    pub fn index(&self) -> (r: (usize, usize))
        requires
            self.wf(),
        ensures
            (r.0 as int, r.1 as int) == spec_linear_to_xy(
                self.tile.cols as int,
                self.tile.rows as int,
                self.index as int,
            ),
    {
        self.tile.linear_index_to_xy(self.index)
    }
}

/// The centering correction is exact: the geographic center of any
/// sample is assigned, by the forward transform, to that very sample.
pub proof fn lemma_sample_center_roundtrip(t: Tile, idx: int)
    requires
        t.wf(),
        0 <= idx < t.cols * t.rows,
    ensures
        ({
            let xy = spec_linear_to_xy(t.cols as int, t.rows as int, idx);
            let c = (Coord {
                lon_das: (t.sw_lon_das + xy.0 * 10 * t.resolution) as i64,
                lat_das: (t.sw_lat_das + xy.1 * 10 * t.resolution) as i64,
            });
            t.spec_coord_x(c) == xy.0 && t.spec_coord_y(c) == xy.1
        }),
{
    lemma_linear_bounds(t.cols as int, t.rows as int, idx);
    let xy = spec_linear_to_xy(t.cols as int, t.rows as int, idx);
    let x = xy.0;
    let y = xy.1;
    let r = t.resolution as int;
    assert(x * 10 * r == x * (10 * r) && y * 10 * r == y * (10 * r)) by (nonlinear_arith);
    assert(0 <= x * (10 * r) && x * (10 * r) <= 3601 * 30 && 0 <= y * (10 * r) && y * (10 * r)
        <= 3601 * 30) by (nonlinear_arith)
        requires
            0 <= x <= 3601,
            0 <= y <= 3601,
            1 <= r <= 3,
    ;
    lemma_fundamental_div_mod_converse(x * (10 * r) + 5 * r, 10 * r, x, 5 * r);
    lemma_fundamental_div_mod_converse(y * (10 * r) + 5 * r, 10 * r, y, 5 * r);
}

/// A negative numerator has a negative floor quotient for a positive
/// divisor.
proof fn lemma_neg_num_neg_quot(nx: int, ny: int, d: int)
    requires
        d > 0,
        nx < 0 || ny < 0,
    ensures
        nx < 0 ==> nx / d < 0,
        ny < 0 ==> ny / d < 0,
{
    if nx < 0 {
        lemma_fundamental_div_mod(nx, d);
        vstd::arithmetic::div_mod::lemma_mod_bound(nx, d);
        if nx / d >= 0 {
            assert(d * (nx / d) >= 0) by (nonlinear_arith)
                requires
                    d > 0,
                    nx / d >= 0,
            ;
        }
    }
    if ny < 0 {
        lemma_fundamental_div_mod(ny, d);
        vstd::arithmetic::div_mod::lemma_mod_bound(ny, d);
        if ny / d >= 0 {
            assert(d * (ny / d) >= 0) by (nonlinear_arith)
                requires
                    d > 0,
                    ny / d >= 0,
            ;
        }
    }
}

} // verus!
