use vstd::prelude::*;
use crate::entity::{Entity, EntityKind};
use crate::events::Events;
use crate::level::{
    Level, LevelData, count_humans, lemma_count_humans_append, lemma_count_humans_le_len,
    lemma_count_humans_single,
};
use crate::tile::{Tile, WallKind};
use crate::tilemap::Tilemap;

verus! {

/// Whether `c` is white space in Unicode (the `White_Space` property).
pub open spec fn is_white(c: char) -> bool {
    let u = c as u32;
    ||| 0x09 <= u <= 0x0d
    ||| u == 0x20
    ||| u == 0x85
    ||| u == 0xa0
    ||| u == 0x1680
    ||| 0x2000 <= u <= 0x200a
    ||| u == 0x2028
    ||| u == 0x2029
    ||| u == 0x202f
    ||| u == 0x205f
    ||| u == 0x3000
}

pub fn white(c: char) -> (r: bool)
    ensures
        r == is_white(c),
{
    let u = c as u32;
    (0x09 <= u && u <= 0x0d) || u == 0x20 || u == 0x85 || u == 0xa0 || u == 0x1680 || (0x2000
        <= u && u <= 0x200a) || u == 0x2028 || u == 0x2029 || u == 0x202f || u == 0x205f || u
        == 0x3000
}

/// The pieces of `s` between occurrences of `sep`.
pub open spec fn pieces(s: Seq<char>, sep: char) -> Seq<Seq<char>>
    decreases s.len(),
{
    if s.len() == 0 {
        seq![Seq::<char>::empty()]
    } else {
        let p = pieces(s.drop_last(), sep);
        if s.last() == sep {
            p.push(Seq::<char>::empty())
        } else {
            p.update(p.len() - 1, p.last().push(s.last()))
        }
    }
}

/// The lines of `s`: the pieces between line feeds.
pub open spec fn lines(s: Seq<char>) -> Seq<Seq<char>> {
    pieces(s, '\n')
}

/// `l` without leading white space.
pub open spec fn trim_start(l: Seq<char>) -> Seq<char>
    decreases l.len(),
{
    if l.len() > 0 && is_white(l[0]) {
        trim_start(l.drop_first())
    } else {
        l
    }
}

/// `l` without trailing white space.
pub open spec fn trim_end(l: Seq<char>) -> Seq<char>
    decreases l.len(),
{
    if l.len() > 0 && is_white(l.last()) {
        trim_end(l.drop_last())
    } else {
        l
    }
}

/// `l` without white space at either end.
pub open spec fn trim(l: Seq<char>) -> Seq<char> {
    trim_end(trim_start(l))
}

/// The characters of `s`, in order.
pub fn chars_of(s: &str) -> (r: Vec<char>)
    ensures
        r@ == s@,
{
    let mut r: Vec<char> = Vec::new();
    for c in it: s.chars()
        invariant
            r@ == it.seq().subrange(0, it.index() as int),
    {
        r.push(c);
    }
    proof {
        broadcast use vstd::string::axiom_spec_iter;
    }
    r
}

/// `s[a..b]` with white space cut from both ends.
pub fn trimmed(s: &Vec<char>, a: usize, b: usize) -> (r: Vec<char>)
    requires
        a <= b <= s@.len(),
    ensures
        r@ == trim(s@.subrange(a as int, b as int)),
{
    let mut i = a;
    while i < b && white(s[i])
        invariant
            a <= i <= b,
            b <= s@.len(),
            trim_start(s@.subrange(a as int, b as int)) == trim_start(s@.subrange(i as int, b as int)),
        decreases b - i,
    {
        assert(s@.subrange(i as int, b as int).drop_first() =~= s@.subrange(i + 1, b as int));
        i += 1;
    }
    assert(trim_start(s@.subrange(i as int, b as int)) == s@.subrange(i as int, b as int));
    let mut j = b;
    while j > i && white(s[j - 1])
        invariant
            a <= i <= j <= b,
            b <= s@.len(),
            trim(s@.subrange(a as int, b as int)) == trim_end(s@.subrange(i as int, j as int)),
        decreases j - i,
    {
        assert(s@.subrange(i as int, j as int).drop_last() =~= s@.subrange(i as int, j - 1));
        j -= 1;
    }
    let mut r: Vec<char> = Vec::new();
    let mut k = i;
    while k < j
        invariant
            a <= i <= k <= j,
            j <= b <= s@.len(),
            r@ == s@.subrange(i as int, k as int),
        decreases j - k,
    {
        r.push(s[k]);
        k += 1;
        assert(r@ =~= s@.subrange(i as int, k as int));
    }
    assert(r@ =~= s@.subrange(i as int, j as int));
    r
}

/// The pieces of `s` between occurrences of `sep`, each trimmed of white
/// space.
pub fn split_trimmed(s: &Vec<char>, sep: char) -> (r: Vec<Vec<char>>)
    ensures
        r@.len() == pieces(s@, sep).len(),
        forall|k: int| 0 <= k < r@.len() ==> (#[trigger] r@[k])@ == trim(pieces(s@, sep)[k]),
{
    let mut r: Vec<Vec<char>> = Vec::new();
    let mut start: usize = 0;
    let mut i: usize = 0;
    assert(s@.subrange(0, 0) =~= Seq::<char>::empty());
    while i < s.len()
        invariant
            start <= i <= s@.len(),
            pieces(s@.subrange(0, i as int), sep).len() == r@.len() + 1,
            forall|k: int|
                0 <= k < r@.len() ==> (#[trigger] r@[k])@ == trim(pieces(s@.subrange(0, i as int), sep)[k]),
            pieces(s@.subrange(0, i as int), sep).last() == s@.subrange(start as int, i as int),
        decreases s@.len() - i,
    {
        let ghost pre = s@.subrange(0, i as int);
        let ghost pre1 = s@.subrange(0, i + 1);
        assert(pre1.drop_last() =~= pre);
        assert(pre1.last() == s@[i as int]);
        if s[i] == sep {
            let line = trimmed(s, start, i);
            r.push(line);
            start = i + 1;
            assert(s@.subrange(start as int, i + 1) =~= Seq::<char>::empty());
        } else {
            assert(s@.subrange(start as int, i + 1) =~= s@.subrange(start as int, i as int).push(s@[i as int]));
        }
        i += 1;
    }
    assert(s@.subrange(0, s@.len() as int) =~= s@);
    let line = trimmed(s, start, s.len());
    r.push(line);
    r
}

/// Whether a trimmed line separates levels: it is empty or a comment.
pub open spec fn separator(l: Seq<char>) -> bool {
    l.len() == 0 || (l.len() >= 2 && l[0] == '/' && l[1] == '/')
}

pub fn is_separator(l: &Vec<char>) -> (r: bool)
    ensures
        r == separator(l@),
{
    l.len() == 0 || (l.len() >= 2 && l[0] == '/' && l[1] == '/')
}

/// The blocks of `ls`: its maximal runs of lines that are not separators,
/// in order.
pub open spec fn blocks(ls: Seq<Seq<char>>) -> Seq<Seq<Seq<char>>>
    decreases ls.len(),
{
    if ls.len() == 0 {
        Seq::empty()
    } else {
        let b = blocks(ls.drop_last());
        if separator(ls.last()) {
            b
        } else if ls.len() >= 2 && !separator(ls[ls.len() - 2]) {
            b.update(b.len() - 1, b.last().push(ls.last()))
        } else {
            b.push(seq![ls.last()])
        }
    }
}

/// The view of a list of lines.
pub open spec fn lines_view(v: Seq<Vec<char>>) -> Seq<Seq<char>> {
    v.map_values(|l: Vec<char>| l@)
}

/// The blocks of `ls`, as ranges of line numbers.
pub fn block_ranges(ls: &Vec<Vec<char>>) -> (r: Vec<(usize, usize)>)
    ensures
        r@.len() == blocks(lines_view(ls@)).len(),
        forall|k: int|
            0 <= k < r@.len() ==> (#[trigger] r@[k]).0 < r@[k].1 <= ls@.len() && blocks(
                lines_view(ls@),
            )[k] == lines_view(ls@).subrange(r@[k].0 as int, r@[k].1 as int),
{
    let ghost v = lines_view(ls@);
    let mut r: Vec<(usize, usize)> = Vec::new();
    let mut i: usize = 0;
    while i < ls.len()
        invariant
            i <= ls@.len(),
            v == lines_view(ls@),
            r@.len() == blocks(v.subrange(0, i as int)).len(),
            forall|k: int|
                0 <= k < r@.len() ==> (#[trigger] r@[k]).0 < r@[k].1 <= i && blocks(
                    v.subrange(0, i as int),
                )[k] == v.subrange(r@[k].0 as int, r@[k].1 as int),
            i > 0 && !separator(v[i - 1]) ==> r@.len() > 0 && r@.last().1 == i,
        decreases ls@.len() - i,
    {
        let ghost pre = v.subrange(0, i as int);
        let ghost pre1 = v.subrange(0, i + 1);
        assert(pre1.drop_last() =~= pre);
        assert(pre1.last() == v[i as int]);
        if is_separator(&ls[i]) {
        } else if i > 0 && !is_separator(&ls[i - 1]) {
            let last = r.len() - 1;
            let (a, _) = r[last];
            r.set(last, (a, i + 1));
            assert(v.subrange(a as int, i + 1) =~= v.subrange(a as int, i as int).push(v[i as int]));
        } else {
            r.push((i, i + 1));
            assert(v.subrange(i as int, i + 1) =~= seq![v[i as int]]);
        }
        i += 1;
    }
    assert(v.subrange(0, ls@.len() as int) =~= v);
    r
}

/// Why level text was refused.
#[derive(Clone, Copy, Debug, PartialEq, Eq, Structural)]
pub enum ParseError {
    /// A level has no player.
    MissingPlayer,
    /// The rows of a level differ in width.
    InconsistentWidth,
    /// A level has more than one player.
    DuplicatePlayer,
    /// A glyph that stands for nothing.
    UnknownCharacter(char),
    /// A level too large for its coordinates or entity identifiers.
    TooLarge,
}

/// The tile under glyph `c`, or `None` for an unknown glyph. An upper-case
/// glyph of a player, human or cake puts its entity on ice, a lower-case
/// one on floor; a bucket of goop stands on ice for `g` and on floor for `G`.
pub open spec fn glyph_tile(c: char) -> Option<Tile> {
    match c {
        'p' | 'b' | 'c' | '.' => Some(Tile::Floor),
        'P' | 'B' | 'C' | '%' => Some(Tile::Ice),
        'g' => Some(Tile::Ice),
        'G' => Some(Tile::Floor),
        '#' => Some(Tile::Wall(WallKind::Void)),
        'H' => Some(Tile::Home),
        'S' => Some(Tile::SadHome),
        _ => None,
    }
}

/// The entity placed by glyph `c`, if any.
pub open spec fn glyph_kind(c: char) -> Option<EntityKind> {
    match c {
        'p' | 'P' => Some(EntityKind::Player),
        'g' | 'G' => Some(EntityKind::BucketOfGoop),
        'b' | 'B' => Some(EntityKind::Human),
        'c' | 'C' => Some(EntityKind::Cake),
        _ => None,
    }
}

pub open spec fn tile_of(c: char) -> Tile {
    match glyph_tile(c) {
        Some(t) => t,
        None => Tile::Floor,
    }
}

pub open spec fn is_player_glyph(c: char) -> bool {
    c == 'p' || c == 'P'
}

pub open spec fn is_entity_glyph(c: char) -> bool {
    glyph_kind(c) is Some
}

/// How many glyphs of row `r` satisfy `f`.
pub open spec fn row_count(r: Seq<char>, f: spec_fn(char) -> bool) -> nat
    decreases r.len(),
{
    if r.len() == 0 {
        0
    } else {
        row_count(r.drop_last(), f) + if f(r.last()) {
            1nat
        } else {
            0nat
        }
    }
}

/// How many glyphs of `rows` satisfy `f`.
pub open spec fn grid_count(rows: Seq<Seq<char>>, f: spec_fn(char) -> bool) -> nat
    decreases rows.len(),
{
    if rows.len() == 0 {
        0
    } else {
        grid_count(rows.drop_first(), f) + row_count(rows[0], f)
    }
}

pub open spec fn players(rows: Seq<Seq<char>>) -> nat {
    grid_count(rows, |c: char| is_player_glyph(c))
}

pub open spec fn entity_glyphs(rows: Seq<Seq<char>>) -> nat {
    grid_count(rows, |c: char| is_entity_glyph(c))
}

/// The tiles of one row.
pub open spec fn row_tiles(r: Seq<char>) -> Seq<Tile> {
    r.map_values(|c: char| tile_of(c))
}

/// The tiles of a block written top row first, laid out bottom row first.
pub open spec fn grid_tiles(rows: Seq<Seq<char>>) -> Seq<Tile>
    decreases rows.len(),
{
    if rows.len() == 0 {
        Seq::empty()
    } else {
        grid_tiles(rows.drop_first()) + row_tiles(rows[0])
    }
}

/// The glyph of cell `(x, y)` of a block written top row first: row 0 is
/// the bottom line.
pub open spec fn glyph_at(rows: Seq<Seq<char>>, x: int, y: int) -> char {
    rows[rows.len() - 1 - y][x]
}

/// A well-formed level block: rows of equal width, known glyphs only, and
/// exactly one player.
pub open spec fn block_ok(rows: Seq<Seq<char>>) -> bool {
    &&& forall|y: int| 0 <= y < rows.len() ==> (#[trigger] rows[y]).len() == rows.last().len()
    &&& forall|y: int, x: int|
        0 <= y < rows.len() && 0 <= x < rows[y].len() ==> (glyph_tile(#[trigger] rows[y][x]) is Some)
    &&& players(rows) == 1
}

/// A block beyond what coordinates and identifiers can number.
pub open spec fn too_large(rows: Seq<Seq<char>>) -> bool {
    ||| rows.len() > isize::MAX
    ||| exists|y: int| 0 <= y < rows.len() && (#[trigger] rows[y]).len() > isize::MAX
    ||| entity_glyphs(rows) >= u32::MAX
}

/// What each error says of the block it came from.
pub open spec fn error_cause(e: ParseError, rows: Seq<Seq<char>>) -> bool {
    match e {
        ParseError::MissingPlayer => players(rows) == 0,
        ParseError::DuplicatePlayer => players(rows) >= 2,
        ParseError::InconsistentWidth => exists|y: int|
            0 <= y < rows.len() && (#[trigger] rows[y]).len() != rows.last().len(),
        ParseError::UnknownCharacter(c) => glyph_tile(c) is None && exists|y: int, x: int|
            0 <= y < rows.len() && 0 <= x < rows[y].len() && #[trigger] rows[y][x] == c,
        ParseError::TooLarge => too_large(rows),
    }
}

/// Level `l` is the one that block `rows` describes: its grid, and one
/// resting entity on each entity glyph, numbered from zero in reading
/// order from the bottom row up.
pub open spec fn level_of_block(l: Level, rows: Seq<Seq<char>>) -> bool {
    let s = l.data.entities@;
    &&& l.data.tiles.width == rows.last().len()
    &&& l.data.tiles.height == rows.len()
    &&& l.data.tiles.buffer@ == grid_tiles(rows)
    &&& l.entity_id_ctr == s.len()
    &&& forall|j: int| 0 <= j < s.len() ==> (#[trigger] s[j]).0 == j
    &&& forall|j: int|
        0 <= j < s.len() ==> glyph_kind(glyph_at(rows, (#[trigger] s[j]).1.pos[0] as int, s[j].1.pos[1] as int))
            == Some(s[j].1.kind) && !s[j].1.is_sliding
    &&& forall|i: int, j: int|
        0 <= i < j < s.len() ==> reading_before((#[trigger] s[i]).1.pos, (#[trigger] s[j]).1.pos)
    &&& forall|x: int, y: int|
        0 <= x < l.data.tiles.width && 0 <= y < l.data.tiles.height && is_entity_glyph(
            #[trigger] glyph_at(rows, x, y),
        ) ==> exists|j: int| 0 <= j < s.len() && (#[trigger] s[j]).1.pos[0] == x && s[j].1.pos[1] == y
    &&& l.data.active_events.moves@.len() == 0
    &&& l.undo_stack@.len() == 0
    &&& l.n_tile_changes == 0
    &&& !l.has_won
    &&& !l.data.has_input
}

/// Whether cell `a` comes before cell `b` reading rows from the bottom up,
/// each from left to right.
pub open spec fn reading_before(a: [isize; 2], b: [isize; 2]) -> bool {
    a[1] < b[1] || (a[1] == b[1] && a[0] < b[0])
}

pub proof fn lemma_row_count_step(r: Seq<char>, x: int, f: spec_fn(char) -> bool)
    requires
        0 <= x < r.len(),
    ensures
        row_count(r.subrange(0, x + 1), f) == row_count(r.subrange(0, x), f) + if f(r[x]) {
            1nat
        } else {
            0nat
        },
{
    assert(r.subrange(0, x + 1).drop_last() =~= r.subrange(0, x));
}

pub proof fn lemma_row_count_prefix(r: Seq<char>, x: int, f: spec_fn(char) -> bool)
    requires
        0 <= x <= r.len(),
    ensures
        row_count(r.subrange(0, x), f) <= row_count(r, f),
    decreases r.len(),
{
    if x == r.len() {
        assert(r.subrange(0, x) =~= r);
    } else {
        assert(r.drop_last().subrange(0, x) =~= r.subrange(0, x));
        lemma_row_count_prefix(r.drop_last(), x, f);
    }
}

pub proof fn lemma_grid_count_split(rows: Seq<Seq<char>>, k: int, f: spec_fn(char) -> bool)
    requires
        0 <= k <= rows.len(),
    ensures
        grid_count(rows, f) == grid_count(rows.subrange(0, k), f) + grid_count(
            rows.subrange(k, rows.len() as int),
            f,
        ),
    decreases k,
{
    if k == 0 {
        assert(rows.subrange(0, 0) =~= Seq::<Seq<char>>::empty());
        assert(rows.subrange(0, rows.len() as int) =~= rows);
    } else {
        lemma_grid_count_split(rows.drop_first(), k - 1, f);
        assert(rows.drop_first().subrange(0, k - 1) =~= rows.subrange(0, k).drop_first());
        assert(rows.drop_first().subrange(k - 1, rows.len() - 1) =~= rows.subrange(
            k,
            rows.len() as int,
        ));
    }
}

/// Counting the rows from `k` on, adding one row at the top.
pub proof fn lemma_grid_step(rows: Seq<Seq<char>>, k: int, f: spec_fn(char) -> bool)
    requires
        0 <= k < rows.len(),
    ensures
        grid_count(rows.subrange(k, rows.len() as int), f) == grid_count(
            rows.subrange(k + 1, rows.len() as int),
            f,
        ) + row_count(rows[k], f),
        grid_tiles(rows.subrange(k, rows.len() as int)) == grid_tiles(
            rows.subrange(k + 1, rows.len() as int),
        ) + row_tiles(rows[k]),
{
    let d = rows.subrange(k, rows.len() as int);
    assert(d.drop_first() =~= rows.subrange(k + 1, rows.len() as int));
    assert(d[0] == rows[k]);
}

/// A glyph counted in row `k` up to column `x` is counted in the block.
pub proof fn lemma_count_bound(rows: Seq<Seq<char>>, k: int, x: int, f: spec_fn(char) -> bool)
    requires
        0 <= k < rows.len(),
        0 <= x < rows[k].len(),
    ensures
        grid_count(rows, f) >= grid_count(rows.subrange(k + 1, rows.len() as int), f) + row_count(
            rows[k].subrange(0, x + 1),
            f,
        ),
{
    lemma_grid_count_split(rows, k, f);
    lemma_grid_step(rows, k, f);
    lemma_row_count_prefix(rows[k], x + 1, f);
}

/// The tile and the entity of a glyph; `None` for an unknown glyph.
fn decode_glyph(c: char) -> (r: Option<(Tile, Option<EntityKind>)>)
    ensures
        match r {
            Some((t, k)) => glyph_tile(c) == Some(t) && glyph_kind(c) == k,
            None => glyph_tile(c) is None,
        },
{
    match c {
        'p' => Some((Tile::Floor, Some(EntityKind::Player))),
        'P' => Some((Tile::Ice, Some(EntityKind::Player))),
        'g' => Some((Tile::Ice, Some(EntityKind::BucketOfGoop))),
        'G' => Some((Tile::Floor, Some(EntityKind::BucketOfGoop))),
        'b' => Some((Tile::Floor, Some(EntityKind::Human))),
        'B' => Some((Tile::Ice, Some(EntityKind::Human))),
        'c' => Some((Tile::Floor, Some(EntityKind::Cake))),
        'C' => Some((Tile::Ice, Some(EntityKind::Cake))),
        '.' => Some((Tile::Floor, None)),
        '#' => Some((Tile::Wall(WallKind::Void), None)),
        'H' => Some((Tile::Home, None)),
        'S' => Some((Tile::SadHome, None)),
        '%' => Some((Tile::Ice, None)),
        _ => None,
    }
}

/// Everything known after reading the bottom `y` rows of `rows`, and `x`
/// glyphs of the row above them.
#[verifier::opaque]
pub open spec fn scanned(
    rows: Seq<Seq<char>>,
    y: int,
    x: int,
    w: int,
    buf: Seq<Tile>,
    s: Seq<(u32, Entity)>,
    has_player: bool,
    pid: u32,
    n_humans: usize,
) -> bool {
    let h = rows.len() as int;
    let done = rows.subrange(h - y, h);
    let part = rows[h - 1 - y].subrange(0, x);
    &&& 0 < h <= isize::MAX
    &&& 0 <= y <= h
    &&& 0 <= x <= w <= isize::MAX
    &&& x > 0 ==> y < h
    &&& w == rows.last().len()
    &&& forall|yy: int| 0 <= yy < y ==> (#[trigger] rows[h - 1 - yy]).len() == w
    &&& x > 0 ==> rows[h - 1 - y].len() == w
    &&& forall|yy: int, xx: int|
        0 <= yy < y && 0 <= xx < w ==> (glyph_tile(#[trigger] glyph_at(rows, xx, yy)) is Some)
    &&& forall|xx: int| 0 <= xx < x ==> (glyph_tile(#[trigger] glyph_at(rows, xx, y)) is Some)
    &&& players(done) + row_count(part, |c: char| is_player_glyph(c)) == if has_player {
        1nat
    } else {
        0nat
    }
    &&& entity_glyphs(done) + row_count(part, |c: char| is_entity_glyph(c)) == s.len()
    &&& s.len() < u32::MAX
    &&& buf == grid_tiles(done) + row_tiles(part)
    &&& buf.len() == y * w + x
    &&& forall|j: int| 0 <= j < s.len() ==> (#[trigger] s[j]).0 == j
    &&& forall|j: int|
        0 <= j < s.len() ==> 0 <= (#[trigger] s[j]).1.pos[0] < w && 0 <= s[j].1.pos[1] < h && (
        s[j].1.pos[1] < y || (s[j].1.pos[1] == y && s[j].1.pos[0] < x))
    &&& forall|j: int|
        0 <= j < s.len() ==> glyph_kind(glyph_at(rows, (#[trigger] s[j]).1.pos[0] as int, s[j].1.pos[1] as int))
            == Some(s[j].1.kind) && !s[j].1.is_sliding
    &&& forall|i: int, j: int|
        0 <= i < j < s.len() ==> reading_before((#[trigger] s[i]).1.pos, (#[trigger] s[j]).1.pos)
    &&& forall|xx: int, yy: int|
        0 <= xx < w && 0 <= yy < h && (yy < y || (yy == y && xx < x)) && is_entity_glyph(
            #[trigger] glyph_at(rows, xx, yy),
        ) ==> exists|j: int| 0 <= j < s.len() && (#[trigger] s[j]).1.pos[0] == xx && s[j].1.pos[1] == yy
    &&& has_player ==> pid < s.len() && s[pid as int].1.kind == EntityKind::Player
    &&& n_humans == count_humans(s)
}

proof fn lemma_scanned_bounds(
    rows: Seq<Seq<char>>,
    y: int,
    x: int,
    w: int,
    buf: Seq<Tile>,
    s: Seq<(u32, Entity)>,
    has_player: bool,
    pid: u32,
    n_humans: usize,
)
    requires
        scanned(rows, y, x, w, buf, s, has_player, pid, n_humans),
    ensures
        s.len() < u32::MAX,
        n_humans == count_humans(s),
        0 <= x <= w <= isize::MAX,
        0 <= y <= rows.len() <= isize::MAX,
{
    reveal(scanned);
}

/// Reading a glyph that places no entity.
proof fn lemma_cell_plain(
    rows: Seq<Seq<char>>,
    y: int,
    x: int,
    w: int,
    buf: Seq<Tile>,
    s: Seq<(u32, Entity)>,
    has_player: bool,
    pid: u32,
    n_humans: usize,
)
    requires
        y < rows.len(),
        x < w,
        rows[rows.len() - 1 - y].len() == w,
        scanned(rows, y, x, w, buf, s, has_player, pid, n_humans),
        glyph_tile(glyph_at(rows, x, y)) is Some,
        glyph_kind(glyph_at(rows, x, y)) is None,
    ensures
        scanned(rows, y, x + 1, w, buf.push(tile_of(glyph_at(rows, x, y))), s, has_player, pid, n_humans),
{
    reveal(scanned);
    let h = rows.len() as int;
    let row = rows[h - 1 - y];
    let c = row[x];
    let done = rows.subrange(h - y, h);
    lemma_row_count_step(row, x, |c: char| is_player_glyph(c));
    lemma_row_count_step(row, x, |c: char| is_entity_glyph(c));
    assert(row.subrange(0, x + 1) =~= row.subrange(0, x).push(c));
    assert(row_tiles(row.subrange(0, x + 1)) =~= row_tiles(row.subrange(0, x)).push(tile_of(c)));
    assert(buf.push(tile_of(c)) =~= grid_tiles(done) + row_tiles(row.subrange(0, x + 1)));
}

/// Reading a glyph that places entity `e`.
proof fn lemma_cell_entity(
    rows: Seq<Seq<char>>,
    y: int,
    x: int,
    w: int,
    buf: Seq<Tile>,
    s: Seq<(u32, Entity)>,
    has_player: bool,
    pid: u32,
    n_humans: usize,
    e: Entity,
    has_player2: bool,
    pid2: u32,
    n_humans2: usize,
)
    requires
        y < rows.len(),
        x < w,
        rows[rows.len() - 1 - y].len() == w,
        scanned(rows, y, x, w, buf, s, has_player, pid, n_humans),
        glyph_tile(glyph_at(rows, x, y)) is Some,
        glyph_kind(glyph_at(rows, x, y)) == Some(e.kind),
        e.pos[0] == x,
        e.pos[1] == y,
        !e.is_sliding,
        s.len() + 1 < u32::MAX,
        if e.kind == EntityKind::Player {
            !has_player && has_player2 && pid2 == s.len()
        } else {
            has_player2 == has_player && pid2 == pid
        },
        n_humans2 == n_humans + if e.kind == EntityKind::Human {
            1int
        } else {
            0int
        },
    ensures
        scanned(
            rows,
            y,
            x + 1,
            w,
            buf.push(tile_of(glyph_at(rows, x, y))),
            s.push((s.len() as u32, e)),
            has_player2,
            pid2,
            n_humans2,
        ),
{
    reveal(scanned);
    let h = rows.len() as int;
    let row = rows[h - 1 - y];
    let c = row[x];
    let done = rows.subrange(h - y, h);
    lemma_row_count_step(row, x, |c: char| is_player_glyph(c));
    lemma_row_count_step(row, x, |c: char| is_entity_glyph(c));
    assert(row.subrange(0, x + 1) =~= row.subrange(0, x).push(c));
    assert(row_tiles(row.subrange(0, x + 1)) =~= row_tiles(row.subrange(0, x)).push(tile_of(c)));
    assert(buf.push(tile_of(c)) =~= grid_tiles(done) + row_tiles(row.subrange(0, x + 1)));
    let en = (s.len() as u32, e);
    let s1 = s.push(en);
    lemma_count_humans_append(s, seq![en]);
    lemma_count_humans_single(en);
    assert(s1 == s + seq![en]);
    assert forall|xx: int, yy: int|
        0 <= xx < w && 0 <= yy < h && (yy < y || (yy == y && xx < x + 1)) && is_entity_glyph(
            #[trigger] glyph_at(rows, xx, yy),
        ) implies exists|j: int| 0 <= j < s1.len() && (#[trigger] s1[j]).1.pos[0] == xx && s1[j].1.pos[1] == yy by {
        if yy == y && xx == x {
            assert(s1[s.len() as int].1.pos[0] == xx);
        } else {
            let j = choose|j: int|
                0 <= j < s.len() && (#[trigger] s[j]).1.pos[0] == xx && s[j].1.pos[1] == yy;
            assert(s1[j] == s[j]);
        }
    }
}

/// Glyph `x` of row `y` breaks a rule: it is an unknown glyph, a second
/// player, or one entity too many.
proof fn lemma_cell_error(
    rows: Seq<Seq<char>>,
    y: int,
    x: int,
    w: int,
    buf: Seq<Tile>,
    s: Seq<(u32, Entity)>,
    has_player: bool,
    pid: u32,
    n_humans: usize,
)
    requires
        y < rows.len(),
        x < w,
        rows[rows.len() - 1 - y].len() == w,
        scanned(rows, y, x, w, buf, s, has_player, pid, n_humans),
    ensures
        glyph_tile(glyph_at(rows, x, y)) is None ==> error_cause(
            ParseError::UnknownCharacter(glyph_at(rows, x, y)),
            rows,
        ) && !block_ok(rows),
        has_player && is_player_glyph(glyph_at(rows, x, y)) ==> error_cause(
            ParseError::DuplicatePlayer,
            rows,
        ) && !block_ok(rows),
        is_entity_glyph(glyph_at(rows, x, y)) && s.len() + 1 >= u32::MAX ==> too_large(rows),
{
    reveal(scanned);
    let h = rows.len() as int;
    let k = h - 1 - y;
    let row = rows[k];
    lemma_row_count_step(row, x, |c: char| is_player_glyph(c));
    lemma_row_count_step(row, x, |c: char| is_entity_glyph(c));
    lemma_count_bound(rows, k, x, |c: char| is_player_glyph(c));
    lemma_count_bound(rows, k, x, |c: char| is_entity_glyph(c));
    assert(rows[k][x] == glyph_at(rows, x, y));
}

/// Reads glyph `x` of grid row `y` (the line `row`) into the level being
/// built.
fn scan_cell(
    row: &Vec<char>,
    x: usize,
    y: usize,
    width: usize,
    Ghost(rows): Ghost<Seq<Seq<char>>>,
    buffer: &mut Vec<Tile>,
    entities: &mut Vec<(u32, Entity)>,
    n_humans: &mut usize,
    has_player: &mut bool,
    player_id: &mut u32,
) -> (r: Result<(), ParseError>)
    requires
        y < rows.len(),
        x < width,
        rows[rows.len() - 1 - y] == row@,
        row@.len() == width,
        scanned(
            rows,
            y as int,
            x as int,
            width as int,
            old(buffer)@,
            old(entities)@,
            *old(has_player),
            *old(player_id),
            *old(n_humans),
        ),
    ensures
        match r {
            Ok(_) => scanned(
                rows,
                y as int,
                x + 1,
                width as int,
                final(buffer)@,
                final(entities)@,
                *final(has_player),
                *final(player_id),
                *final(n_humans),
            ),
            Err(e) => error_cause(e, rows) && !(block_ok(rows) && !too_large(rows)),
        },
{
    let c = row[x];
    proof {
        lemma_scanned_bounds(rows, y as int, x as int, width as int, buffer@, entities@, *has_player, *player_id, *n_humans);
        lemma_cell_error(rows, y as int, x as int, width as int, buffer@, entities@, *has_player, *player_id, *n_humans);
        assert(glyph_at(rows, x as int, y as int) == c);
    }
    let (tile, kind) = match decode_glyph(c) {
        Some(d) => d,
        None => {
            return Err(ParseError::UnknownCharacter(c));
        },
    };
    match kind {
        Some(kind) => {
            if kind == EntityKind::Player && *has_player {
                return Err(ParseError::DuplicatePlayer);
            }
            if entities.len() + 1 >= u32::MAX as usize {
                return Err(ParseError::TooLarge);
            }
            let e = Entity::new(x as isize, y as isize, kind);
            let ghost old_player = *has_player;
            let ghost old_pid = *player_id;
            let ghost old_n = *n_humans;
            if kind == EntityKind::Player {
                *has_player = true;
                *player_id = entities.len() as u32;
            }
            if kind == EntityKind::Human {
                proof {
                    lemma_count_humans_le_len(entities@);
                }
                *n_humans = *n_humans + 1;
            }
            proof {
                lemma_cell_entity(
                    rows,
                    y as int,
                    x as int,
                    width as int,
                    buffer@,
                    entities@,
                    old_player,
                    old_pid,
                    old_n,
                    e,
                    *has_player,
                    *player_id,
                    *n_humans,
                );
            }
            entities.push((entities.len() as u32, e));
        },
        None => {
            proof {
                lemma_cell_plain(rows, y as int, x as int, width as int, buffer@, entities@, *has_player, *player_id, *n_humans);
            }
        },
    }
    buffer.push(tile);
    Ok(())
}

/// A finished row joins the rows read.
#[verifier::rlimit(80)]
proof fn lemma_row_done(
    rows: Seq<Seq<char>>,
    y: int,
    w: int,
    buf: Seq<Tile>,
    s: Seq<(u32, Entity)>,
    has_player: bool,
    pid: u32,
    n_humans: usize,
)
    requires
        y < rows.len(),
        rows[rows.len() - 1 - y].len() == w,
        scanned(rows, y, w, w, buf, s, has_player, pid, n_humans),
    ensures
        scanned(rows, y + 1, 0, w, buf, s, has_player, pid, n_humans),
{
    reveal(scanned);
    let h = rows.len() as int;
    let k = h - 1 - y;
    let row = rows[k];
    lemma_grid_step(rows, k, |c: char| is_player_glyph(c));
    lemma_grid_step(rows, k, |c: char| is_entity_glyph(c));
    assert(row.subrange(0, w) =~= row);
    assert(rows[h - 1 - (y + 1)].subrange(0, 0) =~= Seq::<char>::empty());
    assert(row_tiles(Seq::<char>::empty()) =~= Seq::<Tile>::empty());
    assert(buf =~= grid_tiles(rows.subrange(h - (y + 1), h)) + row_tiles(
        rows[h - 1 - (y + 1)].subrange(0, 0),
    ));
    assert((y + 1) * w == y * w + w) by (nonlinear_arith);
    assert forall|yy: int| 0 <= yy < y + 1 implies (#[trigger] rows[h - 1 - yy]).len() == w by {}
    assert forall|yy: int, xx: int|
        0 <= yy < y + 1 && 0 <= xx < w implies (glyph_tile(#[trigger] glyph_at(rows, xx, yy)) is Some) by {}
}

/// Reads the level written in lines `a..b` of `ls`, top row first.
pub fn parse_block(ls: &Vec<Vec<char>>, a: usize, b: usize) -> (r: Result<Level, ParseError>)
    requires
        a < b <= ls@.len(),
    ensures
        ({
            let rows = lines_view(ls@).subrange(a as int, b as int);
            &&& (r is Ok) == (block_ok(rows) && !too_large(rows))
            &&& match r {
                Ok(l) => l.wf() && level_of_block(l, rows),
                Err(e) => error_cause(e, rows),
            }
        }),
{
    let ghost rows = lines_view(ls@).subrange(a as int, b as int);
    let h = b - a;
    if h > isize::MAX as usize {
        return Err(ParseError::TooLarge);
    }
    let width = ls[b - 1].len();
    if width > isize::MAX as usize {
        proof {
            assert(rows[h - 1] == ls@[b - 1]@);
        }
        return Err(ParseError::TooLarge);
    }
    let mut buffer: Vec<Tile> = Vec::new();
    let mut entities: Vec<(u32, Entity)> = Vec::new();
    let mut n_humans: usize = 0;
    let mut has_player = false;
    let mut player_id: u32 = 0;
    let mut y: usize = 0;
    proof {
        reveal(scanned);
        assert(rows.subrange(h as int, h as int) =~= Seq::<Seq<char>>::empty());
        assert(rows[h - 1].subrange(0, 0) =~= Seq::<char>::empty());
        assert(row_tiles(Seq::<char>::empty()) =~= Seq::<Tile>::empty());
        assert(buffer@ =~= grid_tiles(Seq::<Seq<char>>::empty()) + row_tiles(Seq::<char>::empty()));
        assert(rows.last() == ls@[b - 1]@);
    }
    while y < h
        invariant
            h == rows.len(),
            rows == lines_view(ls@).subrange(a as int, b as int),
            a < b <= ls@.len(),
            h == b - a,
            width == rows.last().len(),
            scanned(rows, y as int, 0, width as int, buffer@, entities@, has_player, player_id, n_humans),
        decreases h - y,
    {
        let row = &ls[b - 1 - y];
        proof {
            assert(rows[h - 1 - y] == row@);
        }
        if row.len() != width {
            proof {
                assert(rows[h - 1 - y].len() != rows.last().len());
            }
            return Err(ParseError::InconsistentWidth);
        }
        let mut x: usize = 0;
        while x < width
            invariant
                h == rows.len(),
                rows == lines_view(ls@).subrange(a as int, b as int),
                y < h,
                rows[h - 1 - y] == row@,
                row@.len() == width,
                x <= width,
                scanned(rows, y as int, x as int, width as int, buffer@, entities@, has_player, player_id, n_humans),
            decreases width - x,
        {
            match scan_cell(
                row,
                x,
                y,
                width,
                Ghost(rows),
                &mut buffer,
                &mut entities,
                &mut n_humans,
                &mut has_player,
                &mut player_id,
            ) {
                Ok(()) => {},
                Err(e) => {
                    return Err(e);
                },
            }
            x += 1;
        }
        proof {
            lemma_row_done(rows, y as int, width as int, buffer@, entities@, has_player, player_id, n_humans);
        }
        y += 1;
    }
    proof {
        reveal(scanned);
        assert(rows.subrange(0, h as int) =~= rows);
    }
    if !has_player {
        return Err(ParseError::MissingPlayer);
    }
    let ghost s = entities@;
    let level = Level {
        n_tile_changes: 0,
        entity_id_ctr: entities.len() as u32,
        has_won: false,
        data: LevelData {
            entities,
            active_events: Events::new(),
            tiles: Tilemap { width, height: h, buffer },
            n_humans,
            has_input: false,
        },
        undo_stack: Vec::new(),
        player_id,
    };
    proof {
        assert(h * width == width * h) by (nonlinear_arith);
        assert forall|i: int, j: int| 0 <= i < j < s.len() implies (#[trigger] s[i]).0 < (#[trigger] s[j]).0 by {}
        assert(s[player_id as int].0 == player_id);
        assert forall|yy: int| 0 <= yy < rows.len() implies (#[trigger] rows[yy]).len() == rows.last().len() by {
            assert(rows[h - 1 - (h - 1 - yy)].len() == width);
        }
        assert forall|yy: int, xx: int|
            0 <= yy < rows.len() && 0 <= xx < rows[yy].len() implies (glyph_tile(#[trigger] rows[yy][xx]) is Some) by {
            assert(rows[h - 1 - (h - 1 - yy)].len() == width);
            assert(glyph_at(rows, xx, h - 1 - yy) == rows[yy][xx]);
        }
        assert forall|yy: int| 0 <= yy < rows.len() implies !((#[trigger] rows[yy]).len() > isize::MAX) by {
            assert(rows[h - 1 - (h - 1 - yy)].len() == width);
        }
    }
    Ok(level)
}

/// The level blocks of text `s`: its lines, trimmed, grouped into maximal
/// runs between empty lines and comment lines.
pub open spec fn level_blocks(s: Seq<char>) -> Seq<Seq<Seq<char>>> {
    blocks(lines(s).map_values(|l: Seq<char>| trim(l)))
}

/// Whether every block of `bs` describes a level.
pub open spec fn all_blocks_ok(bs: Seq<Seq<Seq<char>>>) -> bool {
    forall|k: int| 0 <= k < bs.len() ==> block_ok(#[trigger] bs[k]) && !too_large(bs[k])
}

impl Level {
    /// Reads every level of `input`, in the order in which they are
    /// written. Levels are separated by empty lines and by lines starting
    /// with `//`; the last line of a level is its bottom row. A block with
    /// rows of different widths, an unknown glyph, or other than exactly one
    /// player is an error; blocks are checked from the end of the text.
    #[verifier::rlimit(40)]
    pub fn several_from_string(input: &str) -> (r: Result<Vec<Level>, ParseError>)
        ensures
            (r is Ok) == all_blocks_ok(level_blocks(input@)),
            match r {
                Ok(levels) => levels@.len() == level_blocks(input@).len() && forall|k: int|
                    0 <= k < levels@.len() ==> (#[trigger] levels@[k]).wf() && level_of_block(
                        levels@[k],
                        level_blocks(input@)[k],
                    ),
                Err(e) => exists|k: int|
                    0 <= k < level_blocks(input@).len() && error_cause(e, #[trigger] level_blocks(input@)[k]),
            },
    {
        let chars = chars_of(input);
        let ls = split_trimmed(&chars, '\n');
        let ghost bs = level_blocks(input@);
        proof {
            assert(lines_view(ls@) =~= lines(input@).map_values(|l: Seq<char>| trim(l)));
        }
        let ranges = block_ranges(&ls);
        let mut levels: Vec<Level> = Vec::new();
        let mut k: usize = ranges.len();
        while k > 0
            invariant
                k <= ranges@.len(),
                ranges@.len() == bs.len(),
                bs == blocks(lines_view(ls@)),
                bs == level_blocks(input@),
                forall|j: int|
                    0 <= j < ranges@.len() ==> (#[trigger] ranges@[j]).0 < ranges@[j].1 <= ls@.len() && bs[j]
                        == lines_view(ls@).subrange(ranges@[j].0 as int, ranges@[j].1 as int),
                levels@.len() == bs.len() - k,
                forall|j: int|
                    k <= j < bs.len() ==> block_ok(#[trigger] bs[j]) && !too_large(bs[j]),
                forall|j: int|
                    0 <= j < levels@.len() ==> (#[trigger] levels@[j]).wf() && level_of_block(
                        levels@[j],
                        bs[j + k],
                    ),
            decreases k,
        {
            k -= 1;
            let (a, b) = ranges[k];
            let level = match parse_block(&ls, a, b) {
                Ok(level) => level,
                Err(e) => {
                    proof {
                        assert(error_cause(e, bs[k as int]));
                        assert(!(block_ok(bs[k as int]) && !too_large(bs[k as int])));
                        assert(level_blocks(input@)[k as int] == bs[k as int]);
                        assert(!all_blocks_ok(level_blocks(input@)));
                    }
                    return Err(e);
                },
            };
            let ghost old_levels = levels@;
            levels.insert(0, level);
            proof {
                assert forall|j: int| 0 <= j < levels@.len() implies (#[trigger] levels@[j]).wf()
                    && level_of_block(levels@[j], bs[j + k]) by {
                    if j > 0 {
                        assert(levels@[j] == old_levels[j - 1]);
                    }
                }
            }
        }
        Ok(levels)
    }
}

} // verus!
