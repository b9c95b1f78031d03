//! The text form of a level: a ground layer and a wall layer of
//! comma-separated raw tile codes, each after a fixed run of header lines.
use crate::tile::{
    ground_varient_of, rotation_of, wall_varient_of, Ground, GroundVarient, TileRotation, Wall,
    WallVarient,
};
use crate::world_map::{WorldMap, MAX_CELLS};
use vstd::prelude::*;

verus! {

/// Lines before the ground layer.
pub const GROUND_SKIP: u64 = 6;

/// Lines between the ground layer and the wall layer.
pub const WALL_SKIP: u64 = 4;

pub const NEWLINE: u8 = 10;

pub const CARRIAGE_RETURN: u8 = 13;

pub const COMMA: u8 = 44;

#[derive(Clone, Copy, Debug, PartialEq, Eq, Structural)]
pub enum MapError {
    /// A field is not a decimal number that fits in 32 bits.
    BadNumber,
    /// A code names no known tile kind.
    UnknownTile,
    /// A code's orientation flags name no orientation.
    BadRotation,
    /// The wall layer has more rows, or a row more cells, than a grid holds.
    TooLarge,
}

/// The pieces of `s` between occurrences of `sep`.
pub open spec fn split(s: Seq<u8>, sep: u8) -> Seq<Seq<u8>>
    decreases s.len(),
{
    if s.len() == 0 {
        seq![Seq::<u8>::empty()]
    } else {
        let prev = split(s.drop_last(), sep);
        if s.last() == sep {
            prev.push(Seq::<u8>::empty())
        } else {
            prev.update(prev.len() - 1, prev.last().push(s.last()))
        }
    }
}

pub open spec fn strip_cr(line: Seq<u8>) -> Seq<u8> {
    if line.len() > 0 && line.last() == CARRIAGE_RETURN {
        line.drop_last()
    } else {
        line
    }
}

/// Line `i` of the text without its line break; empty past the end.
pub open spec fn line_at(text: Seq<u8>, i: int) -> Seq<u8> {
    let lines = split(text, NEWLINE);
    if 0 <= i < lines.len() {
        strip_cr(lines[i])
    } else {
        Seq::<u8>::empty()
    }
}

pub open spec fn is_digit(c: u8) -> bool {
    48 <= c <= 57
}

pub open spec fn decimal_value(s: Seq<u8>) -> int
    decreases s.len(),
{
    if s.len() == 0 {
        0
    } else {
        decimal_value(s.drop_last()) * 10 + (s.last() - 48)
    }
}

/// The number written in decimal digits by `s`, where it fits in 32 bits.
pub open spec fn parse_u32(s: Seq<u8>) -> Option<u32> {
    if s.len() > 0 && (forall|i: int| 0 <= i < s.len() ==> is_digit(#[trigger] s[i]))
        && decimal_value(s) <= u32::MAX {
        Some(decimal_value(s) as u32)
    } else {
        None
    }
}

pub open spec fn ground_field(f: Seq<u8>) -> Result<Ground, MapError> {
    match parse_u32(f) {
        None => Err(MapError::BadNumber),
        Some(raw) => match ground_varient_of(raw) {
            None => Err(MapError::UnknownTile),
            Some(varient) => match rotation_of(raw) {
                None => Err(MapError::BadRotation),
                Some(rotation) => Ok(Ground { varient, rotation }),
            },
        },
    }
}

/// A wall-layer field: `0` for no wall.
pub open spec fn wall_field(f: Seq<u8>) -> Result<Option<Wall>, MapError> {
    match parse_u32(f) {
        None => Err(MapError::BadNumber),
        Some(raw) => if raw == 0 {
            Ok(None)
        } else {
            match wall_varient_of(raw) {
                None => Err(MapError::UnknownTile),
                Some(varient) => match rotation_of(raw) {
                    None => Err(MapError::BadRotation),
                    Some(rotation) => Ok(Some(Wall { varient, rotation })),
                },
            }
        },
    }
}

/// The ground tiles of a row's comma-separated fields, empty fields skipped;
/// the first bad field's error.
pub open spec fn ground_row(fields: Seq<Seq<u8>>) -> Result<Seq<Ground>, MapError>
    decreases fields.len(),
{
    if fields.len() == 0 {
        Ok(seq![])
    } else {
        match ground_row(fields.drop_last()) {
            Err(e) => Err(e),
            Ok(row) => if fields.last().len() == 0 {
                Ok(row)
            } else {
                match ground_field(fields.last()) {
                    Err(e) => Err(e),
                    Ok(g) => Ok(row.push(g)),
                }
            },
        }
    }
}

pub open spec fn wall_row(fields: Seq<Seq<u8>>) -> Result<Seq<Option<Wall>>, MapError>
    decreases fields.len(),
{
    if fields.len() == 0 {
        Ok(seq![])
    } else {
        match wall_row(fields.drop_last()) {
            Err(e) => Err(e),
            Ok(row) => if fields.last().len() == 0 {
                Ok(row)
            } else {
                match wall_field(fields.last()) {
                    Err(e) => Err(e),
                    Ok(w) => Ok(row.push(w)),
                }
            },
        }
    }
}

/// The first `n` ground rows, read from line `first` on.
pub open spec fn ground_rows(text: Seq<u8>, first: int, n: int) -> Result<Seq<Seq<Ground>>, MapError>
    decreases n,
{
    if n <= 0 {
        Ok(seq![])
    } else {
        match ground_rows(text, first, n - 1) {
            Err(e) => Err(e),
            Ok(rows) => match ground_row(split(line_at(text, first + n - 1), COMMA)) {
                Err(e) => Err(e),
                Ok(row) => Ok(rows.push(row)),
            },
        }
    }
}

pub open spec fn wall_rows(text: Seq<u8>, first: int, n: int) -> Result<
    Seq<Seq<Option<Wall>>>,
    MapError,
>
    decreases n,
{
    if n <= 0 {
        Ok(seq![])
    } else {
        match wall_rows(text, first, n - 1) {
            Err(e) => Err(e),
            Ok(rows) => match wall_row(split(line_at(text, first + n - 1), COMMA)) {
                Err(e) => Err(e),
                Ok(row) => Ok(rows.push(row)),
            },
        }
    }
}

pub open spec fn grid_fits(walls: Seq<Seq<Option<Wall>>>) -> bool {
    walls.len() <= MAX_CELLS && forall|y: int|
        0 <= y < walls.len() ==> #[trigger] walls[y].len() <= MAX_CELLS
}

/// The ground and wall layers of a level of `height` rows.
pub open spec fn parse_spec(text: Seq<u8>, height: int) -> Result<
    (Seq<Seq<Ground>>, Seq<Seq<Option<Wall>>>),
    MapError,
> {
    match ground_rows(text, GROUND_SKIP as int, height) {
        Err(e) => Err(e),
        Ok(ground) => match wall_rows(text, GROUND_SKIP + height + WALL_SKIP, height) {
            Err(e) => Err(e),
            Ok(walls) => if grid_fits(walls) {
                Ok((ground, walls))
            } else {
                Err(MapError::TooLarge)
            },
        },
    }
}

pub open spec fn views(v: Seq<Vec<u8>>) -> Seq<Seq<u8>> {
    v.map_values(|x: Vec<u8>| x@)
}

/// Splits the first `len` bytes of `s` at each `sep`.
pub fn split_bytes(s: &[u8], len: usize, sep: u8) -> (r: Vec<Vec<u8>>)
    requires
        len <= s@.len(),
    ensures
        views(r@) == split(s@.take(len as int), sep),
{
    let mut parts: Vec<Vec<u8>> = Vec::new();
    let mut cur: Vec<u8> = Vec::new();
    let mut i: usize = 0;
    while i < len
        invariant
            len <= s@.len(),
            0 <= i <= len,
            views(parts@).push(cur@) == split(s@.take(i as int), sep),
        decreases len - i,
    {
        let c = s[i];
        proof {
            assert(s@.take(i as int + 1).drop_last() =~= s@.take(i as int));
            assert(s@.take(i as int + 1).last() == c);
        }
        if c == sep {
            let done = cur;
            cur = Vec::new();
            parts.push(done);
            assert(views(parts@).push(cur@) =~= split(s@.take(i as int), sep).push(Seq::<u8>::empty()));
        } else {
            let ghost before = views(parts@).push(cur@);
            cur.push(c);
            assert(views(parts@).push(cur@) =~= before.update(before.len() - 1, before.last().push(c)));
        }
        i += 1;
    }
    parts.push(cur);
    assert(views(parts@) =~= split(s@.take(i as int), sep));
    parts
}

proof fn lemma_decimal_grows(s: Seq<u8>, k: int)
    requires
        0 <= k <= s.len(),
        forall|i: int| 0 <= i < s.len() ==> is_digit(#[trigger] s[i]),
    ensures
        decimal_value(s.take(k)) <= decimal_value(s),
        decimal_value(s) >= 0,
    decreases s.len(),
{
    if s.len() > 0 {
        let p = s.drop_last();
        assert forall|i: int| 0 <= i < p.len() implies is_digit(#[trigger] p[i]) by {
            assert(p[i] == s[i]);
        }
        if k < s.len() {
            lemma_decimal_grows(p, k);
            assert(p.take(k) =~= s.take(k));
        } else {
            assert(s.take(k) =~= s);
            lemma_decimal_grows(p, 0);
        }
    } else {
        assert(s.take(k) =~= s);
    }
}

/// Reads a field written in decimal digits.
pub fn parse_field(f: &Vec<u8>) -> (r: Option<u32>)
    ensures
        r == parse_u32(f@),
{
    if f.len() == 0 {
        return None;
    }
    let mut value: u64 = 0;
    let mut i: usize = 0;
    while i < f.len()
        invariant
            0 <= i <= f.len(),
            forall|k: int| 0 <= k < i ==> is_digit(#[trigger] f@[k]),
            value == decimal_value(f@.take(i as int)),
            value <= u32::MAX,
        decreases f.len() - i,
    {
        let c = f[i];
        assert(f@.take(i as int + 1).drop_last() =~= f@.take(i as int));
        if c < 48 || c > 57 {
            return None;
        }
        let next = value * 10 + (c - 48) as u64;
        if next > 0xFFFF_FFFF {
            proof {
                if forall|k: int| 0 <= k < f@.len() ==> is_digit(#[trigger] f@[k]) {
                    lemma_decimal_grows(f@, i as int + 1);
                }
            }
            return None;
        }
        value = next;
        i += 1;
    }
    assert(f@.take(i as int) =~= f@);
    Some(value as u32)
}

/// Decodes one ground-layer field.
pub fn ground_from_field(f: &Vec<u8>) -> (r: Result<Ground, MapError>)
    ensures
        r == ground_field(f@),
{
    match parse_field(f) {
        None => Err(MapError::BadNumber),
        Some(raw) => match GroundVarient::from_raw_u32(raw) {
            None => Err(MapError::UnknownTile),
            Some(varient) => match TileRotation::from_raw_u32(raw) {
                None => Err(MapError::BadRotation),
                Some(rotation) => Ok(Ground { varient, rotation }),
            },
        },
    }
}

/// Decodes one wall-layer field.
pub fn wall_from_field(f: &Vec<u8>) -> (r: Result<Option<Wall>, MapError>)
    ensures
        r == wall_field(f@),
{
    match parse_field(f) {
        None => Err(MapError::BadNumber),
        Some(raw) => if raw == 0 {
            Ok(None)
        } else {
            match WallVarient::from_raw_u32(raw) {
                None => Err(MapError::UnknownTile),
                Some(varient) => match TileRotation::from_raw_u32(raw) {
                    None => Err(MapError::BadRotation),
                    Some(rotation) => Ok(Some(Wall { varient, rotation })),
                },
            }
        },
    }
}

/// The fields of line `index` of the text, split at commas.
fn line_fields(lines: &Vec<Vec<u8>>, index: u64) -> (r: Vec<Vec<u8>>)
    ensures
        views(r@) == split(
            if index < lines@.len() {
                strip_cr(lines@[index as int]@)
            } else {
                Seq::<u8>::empty()
            },
            COMMA,
        ),
{
    if index < lines.len() as u64 {
        let line = &lines[index as usize];
        let n = line.len();
        let len = if n > 0 && line[n - 1] == CARRIAGE_RETURN {
            n - 1
        } else {
            n
        };
        let r = split_bytes(line.as_slice(), len, COMMA);
        assert(line@.take(len as int) =~= strip_cr(line@));
        r
    } else {
        let empty: Vec<u8> = Vec::new();
        let r = split_bytes(empty.as_slice(), 0, COMMA);
        assert(empty@.take(0) =~= Seq::<u8>::empty());
        r
    }
}

fn ground_row_of(fields: &Vec<Vec<u8>>) -> (r: Result<Vec<Ground>, MapError>)
    ensures
        match r {
            Ok(row) => ground_row(views(fields@)) == Ok::<Seq<Ground>, MapError>(row@),
            Err(e) => ground_row(views(fields@)) == Err::<Seq<Ground>, MapError>(e),
        },
{
    let mut row: Vec<Ground> = Vec::new();
    let mut i: usize = 0;
    while i < fields.len()
        invariant
            0 <= i <= fields.len(),
            ground_row(views(fields@).take(i as int)) == Ok::<Seq<Ground>, MapError>(row@),
        decreases fields.len() - i,
    {
        assert(views(fields@).take(i as int + 1).drop_last() =~= views(fields@).take(i as int));
        assert(views(fields@).take(i as int + 1).last() == fields@[i as int]@);
        let f = &fields[i];
        if f.len() > 0 {
            match ground_from_field(f) {
                Ok(g) => row.push(g),
                Err(e) => {
                    proof {
                        lemma_ground_row_err(views(fields@), i as int + 1, e);
                    }
                    return Err(e);
                },
            }
        }
        i += 1;
    }
    assert(views(fields@).take(i as int) =~= views(fields@));
    Ok(row)
}

proof fn lemma_ground_row_err(fields: Seq<Seq<u8>>, k: int, e: MapError)
    requires
        0 <= k <= fields.len(),
        ground_row(fields.take(k)) == Err::<Seq<Ground>, MapError>(e),
    ensures
        ground_row(fields) == Err::<Seq<Ground>, MapError>(e),
    decreases fields.len() - k,
{
    if k < fields.len() {
        assert(fields.take(k + 1).drop_last() =~= fields.take(k));
        lemma_ground_row_err(fields, k + 1, e);
    } else {
        assert(fields.take(k) =~= fields);
    }
}

fn wall_row_of(fields: &Vec<Vec<u8>>) -> (r: Result<Vec<Option<Wall>>, MapError>)
    ensures
        match r {
            Ok(row) => wall_row(views(fields@)) == Ok::<Seq<Option<Wall>>, MapError>(row@),
            Err(e) => wall_row(views(fields@)) == Err::<Seq<Option<Wall>>, MapError>(e),
        },
{
    let mut row: Vec<Option<Wall>> = Vec::new();
    let mut i: usize = 0;
    while i < fields.len()
        invariant
            0 <= i <= fields.len(),
            wall_row(views(fields@).take(i as int)) == Ok::<Seq<Option<Wall>>, MapError>(row@),
        decreases fields.len() - i,
    {
        assert(views(fields@).take(i as int + 1).drop_last() =~= views(fields@).take(i as int));
        assert(views(fields@).take(i as int + 1).last() == fields@[i as int]@);
        let f = &fields[i];
        if f.len() > 0 {
            match wall_from_field(f) {
                Ok(w) => row.push(w),
                Err(e) => {
                    proof {
                        lemma_wall_row_err(views(fields@), i as int + 1, e);
                    }
                    return Err(e);
                },
            }
        }
        i += 1;
    }
    assert(views(fields@).take(i as int) =~= views(fields@));
    Ok(row)
}

proof fn lemma_wall_row_err(fields: Seq<Seq<u8>>, k: int, e: MapError)
    requires
        0 <= k <= fields.len(),
        wall_row(fields.take(k)) == Err::<Seq<Option<Wall>>, MapError>(e),
    ensures
        wall_row(fields) == Err::<Seq<Option<Wall>>, MapError>(e),
    decreases fields.len() - k,
{
    if k < fields.len() {
        assert(fields.take(k + 1).drop_last() =~= fields.take(k));
        lemma_wall_row_err(fields, k + 1, e);
    } else {
        assert(fields.take(k) =~= fields);
    }
}

proof fn lemma_ground_rows_err(text: Seq<u8>, first: int, k: int, n: int, e: MapError)
    requires
        0 <= k <= n,
        ground_rows(text, first, k) == Err::<Seq<Seq<Ground>>, MapError>(e),
    ensures
        ground_rows(text, first, n) == Err::<Seq<Seq<Ground>>, MapError>(e),
    decreases n - k,
{
    if k < n {
        lemma_ground_rows_err(text, first, k + 1, n, e);
    }
}

proof fn lemma_wall_rows_err(text: Seq<u8>, first: int, k: int, n: int, e: MapError)
    requires
        0 <= k <= n,
        wall_rows(text, first, k) == Err::<Seq<Seq<Option<Wall>>>, MapError>(e),
    ensures
        wall_rows(text, first, n) == Err::<Seq<Seq<Option<Wall>>>, MapError>(e),
    decreases n - k,
{
    if k < n {
        lemma_wall_rows_err(text, first, k + 1, n, e);
    }
}

pub open spec fn ground_views(g: Seq<Vec<Ground>>) -> Seq<Seq<Ground>> {
    g.map_values(|row: Vec<Ground>| row@)
}

pub open spec fn wall_views(w: Seq<Vec<Option<Wall>>>) -> Seq<Seq<Option<Wall>>> {
    w.map_values(|row: Vec<Option<Wall>>| row@)
}

impl WorldMap {
    pub open spec fn ground_grid(&self) -> Seq<Seq<Ground>> {
        ground_views(self.ground@)
    }

    /// Reads a level from its text: header lines, `map_height` ground rows,
    /// separator lines, then `map_height` wall rows. A line break is `\n` or
    /// `\r\n`; lines past the end of the text read as empty.
    pub fn parse(text: &[u8], map_width: u32, map_height: u32) -> (r: Result<WorldMap, MapError>)
        ensures
            match r {
                Ok(m) => {
                    &&& parse_spec(text@, map_height as int) == Ok::<
                        (Seq<Seq<Ground>>, Seq<Seq<Option<Wall>>>),
                        MapError,
                    >((m.ground_grid(), m.wall_grid()))
                    &&& m.width == map_width
                    &&& m.height == map_height
                    &&& m.wf()
                },
                Err(e) => parse_spec(text@, map_height as int) == Err::<
                    (Seq<Seq<Ground>>, Seq<Seq<Option<Wall>>>),
                    MapError,
                >(e),
            },
    {
        let lines = split_bytes(text, text.len(), NEWLINE);
        assert(text@.take(text@.len() as int) =~= text@);
        let mut ground: Vec<Vec<Ground>> = Vec::new();
        assert(ground_views(ground@) =~= Seq::<Seq<Ground>>::empty());
        let mut i: u32 = 0;
        while i < map_height
            invariant
                views(lines@) == split(text@, NEWLINE),
                0 <= i <= map_height,
                ground_rows(text@, GROUND_SKIP as int, i as int) == Ok::<
                    Seq<Seq<Ground>>,
                    MapError,
                >(ground_views(ground@)),
            decreases map_height - i,
        {
            let fields = line_fields(&lines, GROUND_SKIP + i as u64);
            assert(views(fields@) == split(
                line_at(text@, GROUND_SKIP + i as int),
                COMMA,
            ));
            match ground_row_of(&fields) {
                Ok(row) => {
                    let ghost before = ground_views(ground@);
                    let ghost row_view = row@;
                    ground.push(row);
                    assert(ground_views(ground@) =~= before.push(row_view));
                },
                Err(e) => {
                    proof {
                        lemma_ground_rows_err(text@, GROUND_SKIP as int, i as int + 1, map_height as int, e);
                    }
                    return Err(e);
                },
            }
            i += 1;
        }
        let first_wall = GROUND_SKIP + map_height as u64 + WALL_SKIP;
        let mut walls: Vec<Vec<Option<Wall>>> = Vec::new();
        assert(wall_views(walls@) =~= Seq::<Seq<Option<Wall>>>::empty());
        let mut i: u32 = 0;
        while i < map_height
            invariant
                views(lines@) == split(text@, NEWLINE),
                first_wall == GROUND_SKIP + map_height + WALL_SKIP,
                ground_rows(text@, GROUND_SKIP as int, map_height as int) == Ok::<
                    Seq<Seq<Ground>>,
                    MapError,
                >(ground_views(ground@)),
                0 <= i <= map_height,
                wall_rows(text@, first_wall as int, i as int) == Ok::<
                    Seq<Seq<Option<Wall>>>,
                    MapError,
                >(wall_views(walls@)),
            decreases map_height - i,
        {
            let fields = line_fields(&lines, first_wall + i as u64);
            assert(views(fields@) == split(line_at(text@, first_wall + i as int), COMMA));
            match wall_row_of(&fields) {
                Ok(row) => {
                    let ghost before = wall_views(walls@);
                    let ghost row_view = row@;
                    walls.push(row);
                    assert(wall_views(walls@) =~= before.push(row_view));
                },
                Err(e) => {
                    proof {
                        lemma_wall_rows_err(text@, first_wall as int, i as int + 1, map_height as int, e);
                    }
                    return Err(e);
                },
            }
            i += 1;
        }
        if walls.len() > MAX_CELLS {
            assert(wall_views(walls@).len() > MAX_CELLS);
            return Err(MapError::TooLarge);
        }
        let mut y: usize = 0;
        while y < walls.len()
            invariant
                walls.len() <= MAX_CELLS,
                ground_rows(text@, GROUND_SKIP as int, map_height as int) == Ok::<
                    Seq<Seq<Ground>>,
                    MapError,
                >(ground_views(ground@)),
                wall_rows(text@, first_wall as int, map_height as int) == Ok::<
                    Seq<Seq<Option<Wall>>>,
                    MapError,
                >(wall_views(walls@)),
                first_wall == GROUND_SKIP + map_height + WALL_SKIP,
                0 <= y <= walls.len(),
                forall|k: int| 0 <= k < y ==> #[trigger] walls@[k].len() <= MAX_CELLS,
            decreases walls.len() - y,
        {
            if walls[y].len() > MAX_CELLS {
                assert(wall_views(walls@)[y as int].len() > MAX_CELLS);
                return Err(MapError::TooLarge);
            }
            y += 1;
        }
        let m = WorldMap { ground, walls, width: map_width, height: map_height };
        assert(m.wall_grid() =~= wall_views(m.walls@));
        assert forall|k: int| 0 <= k < wall_views(m.walls@).len() implies #[trigger] wall_views(
            m.walls@,
        )[k].len() <= MAX_CELLS by {
            assert(m.walls@[k].len() <= MAX_CELLS);
        }
        assert(grid_fits(wall_views(m.walls@)));
        Ok(m)
    }
}

} // verus!
