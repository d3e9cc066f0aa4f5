use vstd::prelude::*;
use crate::cell::{Cell, Dir};
use crate::level::{grid_from_vec, lemma_index_in_grid, Coord, Level};

verus! {

/// Why a level pack could not be read.
#[derive(Debug, Clone, Copy, PartialEq, Eq, Hash, Structural)]
pub enum LevelLoadError {
    BadFormat,
    BadChecksum,
    BadHeader,
    InvalidCharacter,
    /// A level has no start cell.
    NoStart,
    /// The pack holds fewer levels than a pack must.
    TooFewLevels,
}

/// Length of the line ending at `i`: 1 for "\n", 2 for "\r\n", else 0.
pub open spec fn eol_len(s: Seq<u8>, i: int) -> int {
    if 0 <= i < s.len() && s[i] == 10 {
        1
    } else if 0 <= i && i + 1 < s.len() && s[i] == 13 && s[i + 1] == 10 {
        2
    } else {
        0
    }
}

/// The first "\n" at or after `i`, or the length of `s` if there is none.
pub open spec fn nl_from(s: Seq<u8>, i: nat) -> nat
    decreases s.len() - i,
{
    if i >= s.len() {
        s.len()
    } else if s[i as int] == 10 {
        i
    } else {
        nl_from(s, i + 1)
    }
}

/// Where the text of the line starting at `i` ends: before "\n" or "\r\n".
pub open spec fn content_end(s: Seq<u8>, i: nat) -> nat {
    let j = nl_from(s, i);
    if j > i && j <= s.len() && s[j - 1] == 13 {
        (j - 1) as nat
    } else {
        j
    }
}

pub proof fn lemma_nl_from(s: Seq<u8>, i: nat)
    ensures
        i <= s.len() ==> i <= nl_from(s, i) <= s.len(),
        i > s.len() ==> nl_from(s, i) == s.len(),
        nl_from(s, i) < s.len() ==> s[nl_from(s, i) as int] == 10,
        forall|k: int| i <= k < nl_from(s, i) ==> s[k] != 10,
    decreases s.len() - i,
{
    if i < s.len() && s[i as int] != 10 {
        lemma_nl_from(s, i + 1);
    }
}

/// The cell written with the single byte `b`, if any.
pub open spec fn cell_code(b: u8) -> Option<Cell> {
    if b == 119 {
        Some(Cell::Wall)
    } else if b == 115 {
        Some(Cell::Start)
    } else if b == 101 {
        Some(Cell::Exit)
    } else if b == 98 {
        Some(Cell::Bomb)
    } else if b == 99 {
        Some(Cell::Cement)
    } else if b == 100 {
        Some(Cell::Barrel)
    } else if b == 102 {
        Some(Cell::Money)
    } else if b == 103 {
        Some(Cell::Guard)
    } else if b == 104 {
        Some(Cell::Hole)
    } else if b == 105 {
        Some(Cell::MetalWall)
    } else if b == 106 {
        Some(Cell::JellyBean)
    } else if b == 107 {
        Some(Cell::Key)
    } else if b == 108 {
        Some(Cell::Lock)
    } else if b == 110 {
        Some(Cell::Gun)
    } else if b == 111 {
        Some(Cell::Oxygen)
    } else if b == 32 {
        Some(Cell::Empty)
    } else if b == 126 {
        Some(Cell::Water)
    } else {
        None
    }
}

/// The teleporter facing written with the digit `b`, if any.
pub open spec fn dir_code(b: u8) -> Option<Dir> {
    if b == 49 {
        Some(Dir::Up)
    } else if b == 50 {
        Some(Dir::Down)
    } else if b == 51 {
        Some(Dir::Left)
    } else if b == 52 {
        Some(Dir::Right)
    } else {
        None
    }
}

/// The cell token at `i`, with its length: one byte, or "t" with a teleport
/// id from 1 to 5 and a facing digit.
pub open spec fn token_at(s: Seq<u8>, i: int) -> Option<(Cell, nat)> {
    if i < 0 || i >= s.len() {
        None
    } else if s[i] == 116 {
        if s.len() - i > 2 && 49 <= s[i + 1] <= 53 && dir_code(s[i + 2]) is Some {
            Some((Cell::Teleport((s[i + 1] - 48) as u8, dir_code(s[i + 2])->0), 3))
        } else {
            None
        }
    } else {
        match cell_code(s[i]) {
            Some(c) => Some((c, 1)),
            None => None,
        }
    }
}

/// The cells written in `s` from `i` up to `e`, if every token is valid.
pub open spec fn row_from(s: Seq<u8>, i: nat, e: nat) -> Option<Seq<Cell>>
    decreases e - i,
{
    if i >= e {
        Some(seq![])
    } else {
        match token_at(s, i as int) {
            None => None,
            Some((c, n)) => if i + n > e {
                None
            } else {
                match row_from(s, i + n, e) {
                    Some(r) => Some(seq![c] + r),
                    None => None,
                }
            },
        }
    }
}

/// `acc` put in front of a decoded rest, if there is one.
pub open spec fn prefixed(acc: Seq<Cell>, rest: Option<Seq<Cell>>) -> Option<Seq<Cell>> {
    match rest {
        Some(r) => Some(acc + r),
        None => None,
    }
}

fn single_cell(b: u8) -> (r: Option<Cell>)
    ensures
        r == cell_code(b),
{
    match b {
        119 => Some(Cell::Wall),  // 'w'
        115 => Some(Cell::Start),  // 's'
        101 => Some(Cell::Exit),  // 'e'
        98 => Some(Cell::Bomb),  // 'b'
        99 => Some(Cell::Cement),  // 'c'
        100 => Some(Cell::Barrel),  // 'd'
        102 => Some(Cell::Money),  // 'f'
        103 => Some(Cell::Guard),  // 'g'
        104 => Some(Cell::Hole),  // 'h'
        105 => Some(Cell::MetalWall),  // 'i'
        106 => Some(Cell::JellyBean),  // 'j'
        107 => Some(Cell::Key),  // 'k'
        108 => Some(Cell::Lock),  // 'l'
        110 => Some(Cell::Gun),  // 'n'
        111 => Some(Cell::Oxygen),  // 'o'
        32 => Some(Cell::Empty),  // ' '
        126 => Some(Cell::Water),  // '~'
        _ => None,
    }
}

fn teleport_dir(b: u8) -> (r: Option<Dir>)
    ensures
        r == dir_code(b),
{
    match b {
        49 => Some(Dir::Up),  // '1'
        50 => Some(Dir::Down),  // '2'
        51 => Some(Dir::Left),  // '3'
        52 => Some(Dir::Right),  // '4'
        _ => None,
    }
}

/// Decodes the cell token at `i`.
pub fn cell(s: &[u8], i: usize) -> (r: Option<(Cell, usize)>)
    ensures
        match token_at(s@, i as int) {
            Some((c, n)) => r == Some((c, n as usize)),
            None => r is None,
        },
{
    if i >= s.len() {
        return None;
    }
    if s[i] == 116 {
        teleport(s, i)
    } else {
        match single_cell(s[i]) {
            Some(c) => Some((c, 1)),
            None => None,
        }
    }
}

/// Decodes a teleporter token "t", id, facing at `i`.
pub fn teleport(s: &[u8], i: usize) -> (r: Option<(Cell, usize)>)
    requires
        i < s@.len(),
        s@[i as int] == 116,
    ensures
        match token_at(s@, i as int) {
            Some((c, n)) => r == Some((c, n as usize)),
            None => r is None,
        },
{
    if s.len() - i > 2 && 49 <= s[i + 1] && s[i + 1] <= 53 {
        match teleport_dir(s[i + 2]) {
            Some(d) => Some((Cell::Teleport(s[i + 1] - 48, d), 3)),
            None => None,
        }
    } else {
        None
    }
}

/// Decodes the cells written in `s` from `start` up to `end`.
pub fn row(s: &[u8], start: usize, end: usize) -> (r: Option<Vec<Cell>>)
    requires
        start <= end <= s@.len(),
    ensures
        match row_from(s@, start as nat, end as nat) {
            Some(cells) => r is Some && r->0@ == cells,
            None => r is None,
        },
{
    let mut acc: Vec<Cell> = Vec::new();
    let mut i = start;
    while i < end
        invariant
            start <= i <= end <= s@.len(),
            row_from(s@, start as nat, end as nat) == prefixed(acc@, row_from(s@, i as nat, end as nat)),
        decreases end - i,
    {
        match cell(s, i) {
            None => {
                return None;
            },
            Some((c, n)) => {
                if n > end - i {
                    return None;
                }
                proof {
                    match row_from(s@, (i + n) as nat, end as nat) {
                        Some(rest) => {
                            assert(acc@ + (seq![c] + rest) =~= acc@.push(c) + rest);
                        },
                        None => {},
                    }
                }
                acc.push(c);
                i = i + n;
            },
        }
    }
    proof {
        assert(acc@ + seq![] =~= acc@);
    }
    Some(acc)
}

/// The rows of a level block starting at `i`, up to and past the blank line
/// that ends them, with the position after that line.
pub open spec fn rows_from(s: Seq<u8>, i: nat) -> Result<(Seq<Seq<Cell>>, nat), LevelLoadError>
    decreases s.len() - i,
    via rows_from_decreases
{
    let j = nl_from(s, i);
    if j >= s.len() {
        Err(LevelLoadError::BadFormat)
    } else {
        let e = content_end(s, i);
        if e == i {
            Ok((seq![], j + 1))
        } else {
            match row_from(s, i, e) {
                None => Err(LevelLoadError::InvalidCharacter),
                Some(r) => match rows_from(s, j + 1) {
                    Ok((rs, k)) => Ok((seq![r] + rs, k)),
                    Err(x) => Err(x),
                },
            }
        }
    }
}

#[via_fn]
proof fn rows_from_decreases(s: Seq<u8>, i: nat) {
    lemma_nl_from(s, i);
}

/// `acc` put in front of the rows read from some position on.
pub open spec fn rows_prefixed(acc: Seq<Seq<Cell>>, rest: Result<(Seq<Seq<Cell>>, nat), LevelLoadError>) -> Result<
    (Seq<Seq<Cell>>, nat),
    LevelLoadError,
> {
    match rest {
        Ok((rs, k)) => Ok((acc + rs, k)),
        Err(e) => Err(e),
    }
}

pub proof fn lemma_rows_from_advances(s: Seq<u8>, i: nat)
    ensures
        rows_from(s, i) matches Ok((_, k)) ==> i < k <= s.len(),
    decreases s.len() - i,
{
    lemma_nl_from(s, i);
    let j = nl_from(s, i);
    if j < s.len() && content_end(s, i) != i {
        lemma_rows_from_advances(s, j + 1);
    }
}

/// A row padded with empty cells up to width `w`.
pub open spec fn pad_row(r: Seq<Cell>, w: nat) -> Seq<Cell> {
    r + Seq::new((w - r.len()) as nat, |_k: int| Cell::Empty)
}

/// No row is wider than `w`.
pub open spec fn fits(rows: Seq<Seq<Cell>>, w: nat) -> bool {
    forall|i: int| 0 <= i < rows.len() ==> #[trigger] rows[i].len() <= w
}

/// The first `k` rows, each padded to width `w`, one after another.
pub open spec fn grid_upto(rows: Seq<Seq<Cell>>, w: nat, k: nat) -> Seq<Cell>
    decreases k,
{
    if k == 0 {
        seq![]
    } else {
        grid_upto(rows, w, (k - 1) as nat) + pad_row(rows[k - 1], w)
    }
}

/// The first start cell at or after `k`.
pub open spec fn find_start(cells: Seq<Cell>, k: nat) -> Option<nat>
    decreases cells.len() - k,
{
    if k >= cells.len() {
        None
    } else if cells[k as int] == Cell::Start {
        Some(k)
    } else {
        find_start(cells, k + 1)
    }
}

/// A decoded level block: name, author, rows, columns, cells in row-major
/// order, and the index of its first start cell.
pub type BlockModel = (Seq<u8>, Seq<u8>, nat, nat, Seq<Cell>, nat);

/// The grid of the level block starting at `i`: name, author, rows,
/// columns, cells in row-major order, and the position after the block.
pub open spec fn block_grid(s: Seq<u8>, i: nat) -> Result<
    (Seq<u8>, Seq<u8>, nat, nat, Seq<Cell>, nat),
    LevelLoadError,
> {
    let j1 = nl_from(s, i);
    if j1 >= s.len() {
        Err(LevelLoadError::BadFormat)
    } else {
        let a = j1 + 1;
        let j2 = nl_from(s, a);
        if j2 >= s.len() {
            Err(LevelLoadError::BadFormat)
        } else {
            match rows_from(s, j2 + 1) {
                Err(e) => Err(e),
                Ok((rows, k)) => if rows.len() == 0 || !fits(rows, rows[0].len()) {
                    Err(LevelLoadError::BadFormat)
                } else {
                    Ok(
                        (
                            s.subrange(i as int, content_end(s, i) as int),
                            s.subrange(a as int, content_end(s, a) as int),
                            rows.len(),
                            rows[0].len(),
                            grid_upto(rows, rows[0].len(), rows.len()),
                            k,
                        ),
                    )
                },
            }
        }
    }
}

/// The level block starting at `i`, with the position after it.
pub open spec fn block_at(s: Seq<u8>, i: nat) -> Result<(BlockModel, nat), LevelLoadError> {
    match block_grid(s, i) {
        Err(e) => Err(e),
        Ok((name, author, h, w, cells, k)) => match find_start(cells, 0) {
            None => Err(LevelLoadError::NoStart),
            Some(p) => Ok(((name, author, h, w, cells, p), k)),
        },
    }
}

/// The text of a byte string read as UTF-8, invalid sequences replaced.
pub uninterp spec fn utf8_lossy(b: Seq<u8>) -> Seq<char>;

/// Relies on `String::from_utf8_lossy`: the text depends on the bytes alone.
#[verifier::external_body]
fn lossy_string(s: &[u8], start: usize, end: usize) -> (r: String)
    requires
        start <= end <= s@.len(),
    ensures
        r@ == utf8_lossy(s@.subrange(start as int, end as int)),
{
    String::from_utf8_lossy(&s[start..end]).into_owned()
}

/// The level `lv` is the block `b`, numbered `number`, with the player on
/// its start cell.
pub open spec fn level_matches(lv: Level, b: BlockModel, number: nat) -> bool {
    &&& lv.wf()
    &&& lv.name@ == utf8_lossy(b.0)
    &&& lv.author@ == utf8_lossy(b.1)
    &&& lv.rows() == b.2
    &&& lv.cols() == b.3
    &&& lv.cells() == b.4
    &&& lv.start_pos.row() == b.5 / b.3
    &&& lv.start_pos.col() == b.5 % b.3
    &&& lv.player_pos == lv.start_pos
    &&& lv.number == number
}

/// The first "\n" at or after `i`.
fn find_newline(s: &[u8], i: usize) -> (r: usize)
    requires
        i <= s@.len(),
    ensures
        r == nl_from(s@, i as nat),
{
    let mut j = i;
    while j < s.len() && s[j] != 10
        invariant
            i <= j <= s@.len(),
            nl_from(s@, i as nat) == nl_from(s@, j as nat),
        decreases s@.len() - j,
    {
        j = j + 1;
    }
    j
}

/// Where the text of the line from `i` to its "\n" at `j` ends.
fn text_end(s: &[u8], i: usize, j: usize) -> (r: usize)
    requires
        i <= j < s@.len(),
        j == nl_from(s@, i as nat),
    ensures
        r == content_end(s@, i as nat),
        i <= r <= j,
{
    if j > i && s[j - 1] == 13 {
        j - 1
    } else {
        j
    }
}

/// Reads the rows of a level block from `i` through the blank line after them.
fn rows(s: &[u8], i: usize) -> (r: Result<(Vec<Vec<Cell>>, usize), LevelLoadError>)
    requires
        i <= s@.len(),
    ensures
        match (rows_from(s@, i as nat), r) {
            (Ok((rs, k)), Ok((v, k2))) => k2 == k && v@.len() == rs.len() && (forall|t: int|
                0 <= t < rs.len() ==> (#[trigger] v@[t])@ == rs[t]),
            (Err(e), Err(e2)) => e == e2,
            _ => false,
        },
{
    let mut acc: Vec<Vec<Cell>> = Vec::new();
    let ghost mut gacc: Seq<Seq<Cell>> = seq![];
    let mut pos = i;
    loop
        invariant
            i <= pos <= s@.len(),
            acc@.len() == gacc.len(),
            forall|t: int| 0 <= t < gacc.len() ==> (#[trigger] acc@[t])@ == gacc[t],
            rows_from(s@, i as nat) == rows_prefixed(gacc, rows_from(s@, pos as nat)),
        decreases s@.len() - pos,
    {
        let j = find_newline(s, pos);
        proof {
            lemma_nl_from(s@, pos as nat);
        }
        if j >= s.len() {
            return Err(LevelLoadError::BadFormat);
        }
        let e = text_end(s, pos, j);
        if e == pos {
            proof {
                assert(gacc + seq![] =~= gacc);
            }
            return Ok((acc, j + 1));
        }
        match row(s, pos, e) {
            None => {
                return Err(LevelLoadError::InvalidCharacter);
            },
            Some(cells) => {
                proof {
                    match rows_from(s@, (j + 1) as nat) {
                        Ok((rs, k)) => {
                            assert(gacc + (seq![cells@] + rs) =~= gacc.push(cells@) + rs);
                        },
                        Err(_) => {},
                    }
                    gacc = gacc.push(cells@);
                }
                acc.push(cells);
                pos = j + 1;
            },
        }
    }
}

/// The rows held in a vector of vectors.
pub open spec fn rows_view(rows: Seq<Vec<Cell>>) -> Seq<Seq<Cell>> {
    rows.map_values(|v: Vec<Cell>| v@)
}

pub proof fn lemma_grid_len(rows: Seq<Seq<Cell>>, w: nat, k: nat)
    requires
        k <= rows.len(),
        fits(rows, w),
    ensures
        grid_upto(rows, w, k).len() == k * w,
    decreases k,
{
    if k > 0 {
        lemma_grid_len(rows, w, (k - 1) as nat);
        assert(rows[k - 1].len() <= w);
        assert(pad_row(rows[k - 1], w).len() == w);
        assert(grid_upto(rows, w, k) == grid_upto(rows, w, (k - 1) as nat) + pad_row(rows[k - 1], w));
        let len = grid_upto(rows, w, k).len();
        assert(len == k * w) by (nonlinear_arith)
            requires
                len == (k - 1) * w + w,
                k > 0,
        ;
    } else {
        assert(k * w == 0) by (nonlinear_arith)
            requires
                k == 0,
        ;
    }
}

/// Pads each row with empty cells to width `w` and joins the rows, or gives
/// `None` if a row is wider than `w`.
pub fn pad_rows(rows: &Vec<Vec<Cell>>, w: usize) -> (r: Option<Vec<Cell>>)
    ensures
        r is Some <==> fits(rows_view(rows@), w as nat),
        r matches Some(cells) ==> cells@ == grid_upto(rows_view(rows@), w as nat, rows@.len()),
{
    let ghost g = rows_view(rows@);
    let mut flat: Vec<Cell> = Vec::new();
    let mut k: usize = 0;
    while k < rows.len()
        invariant
            k <= rows@.len(),
            g == rows_view(rows@),
            forall|t: int| 0 <= t < k ==> #[trigger] g[t].len() <= w,
            flat@ == grid_upto(g, w as nat, k as nat),
        decreases rows@.len() - k,
    {
        let row = &rows[k];
        if row.len() > w {
            proof {
                assert(g[k as int].len() > w);
            }
            return None;
        }
        let ghost before = flat@;
        let mut m: usize = 0;
        while m < row.len()
            invariant
                m <= row@.len(),
                flat@ == before + row@.subrange(0, m as int),
            decreases row@.len() - m,
        {
            flat.push(row[m]);
            proof {
                assert(before + row@.subrange(0, m + 1) =~= (before + row@.subrange(0, m as int)).push(
                    row@[m as int],
                ));
            }
            m = m + 1;
        }
        let mut q: usize = 0;
        let fill = w - row.len();
        while q < fill
            invariant
                q <= fill,
                fill == w - row@.len(),
                flat@ == before + row@ + Seq::new(q as nat, |_k: int| Cell::Empty),
            decreases fill - q,
        {
            flat.push(Cell::Empty);
            proof {
                assert(before + row@ + Seq::new((q + 1) as nat, |_k: int| Cell::Empty) =~= (before
                    + row@ + Seq::new(q as nat, |_k: int| Cell::Empty)).push(Cell::Empty));
            }
            q = q + 1;
        }
        proof {
            assert(row@.subrange(0, row@.len() as int) =~= row@);
            assert(g[k as int] == row@);
            assert(flat@ =~= grid_upto(g, w as nat, (k + 1) as nat));
        }
        k = k + 1;
    }
    Some(flat)
}

/// The index of the first start cell.
pub fn first_start(cells: &Vec<Cell>) -> (r: Option<usize>)
    ensures
        match find_start(cells@, 0) {
            Some(p) => r is Some && r->0 == p,
            None => r is None,
        },
{
    let mut j: usize = 0;
    while j < cells.len()
        invariant
            j <= cells@.len(),
            find_start(cells@, 0) == find_start(cells@, j as nat),
        decreases cells@.len() - j,
    {
        if cells[j] == Cell::Start {
            return Some(j);
        }
        j = j + 1;
    }
    None
}

pub proof fn lemma_find_start(cells: Seq<Cell>, k: nat)
    ensures
        find_start(cells, k) matches Some(p) ==> k <= p < cells.len() && cells[p as int] == Cell::Start
            && forall|q: int| k <= q < p ==> cells[q] != Cell::Start,
        find_start(cells, k) is None ==> forall|q: int| k <= q < cells.len() ==> cells[q] != Cell::Start,
    decreases cells.len() - k,
{
    if k < cells.len() && cells[k as int] != Cell::Start {
        lemma_find_start(cells, k + 1);
    }
}

/// Reads the level block at `i` and numbers it `number`.
pub fn level(s: &[u8], i: usize, number: usize) -> (r: Result<(Level, usize), LevelLoadError>)
    requires
        i <= s@.len(),
    ensures
        match (block_at(s@, i as nat), r) {
            (Ok((b, k)), Ok((lv, k2))) => k2 == k && level_matches(lv, b, number as nat),
            (Err(e), Err(e2)) => e == e2,
            _ => false,
        },
{
    let j1 = find_newline(s, i);
    proof {
        lemma_nl_from(s@, i as nat);
    }
    if j1 >= s.len() {
        return Err(LevelLoadError::BadFormat);
    }
    let a = j1 + 1;
    let j2 = find_newline(s, a);
    proof {
        lemma_nl_from(s@, a as nat);
    }
    if j2 >= s.len() {
        return Err(LevelLoadError::BadFormat);
    }
    let (rs, k) = match rows(s, j2 + 1) {
        Ok(x) => x,
        Err(e) => {
            return Err(e);
        },
    };
    let ghost g = rows_view(rs@);
    proof {
        if let Ok((grs, _)) = rows_from(s@, (j2 + 1) as nat) {
            assert(g =~= grs);
        }
    }
    if rs.len() == 0 {
        return Err(LevelLoadError::BadFormat);
    }
    let w = rs[0].len();
    let cells = match pad_rows(&rs, w) {
        Some(c) => c,
        None => {
            return Err(LevelLoadError::BadFormat);
        },
    };
    let p = match first_start(&cells) {
        Some(p) => p,
        None => {
            return Err(LevelLoadError::NoStart);
        },
    };
    let h = rs.len();
    proof {
        lemma_grid_len(g, w as nat, h as nat);
        lemma_find_start(cells@, 0);
        assert(p < h * w);
        assert(w > 0);
        assert(p / w < h) by (nonlinear_arith)
            requires
                p < h * w,
                w > 0,
        ;
    }
    let map = match grid_from_vec(h, w, cells) {
        Some(m) => m,
        None => {
            return Err(LevelLoadError::BadFormat);
        },
    };
    let start = Coord::new((p / w, p % w));
    let name_end = text_end(s, i, j1);
    let author_end = text_end(s, a, j2);
    let name = lossy_string(s, i, name_end);
    let author = lossy_string(s, a, author_end);
    Ok((Level { name, author, number, map, start_pos: start, player_pos: start }, k))
}

pub proof fn lemma_block_advances(s: Seq<u8>, i: nat)
    ensures
        block_at(s, i) matches Ok((_, k)) ==> i + 3 <= k <= s.len(),
{
    lemma_nl_from(s, i);
    let j1 = nl_from(s, i);
    if j1 < s.len() {
        lemma_nl_from(s, j1 + 1);
        let j2 = nl_from(s, j1 + 1);
        if j2 < s.len() {
            lemma_rows_from_advances(s, j2 + 1);
        }
    }
}

/// The level blocks from `i` to the end of `s`.
pub open spec fn blocks_from(s: Seq<u8>, i: nat) -> Result<Seq<BlockModel>, LevelLoadError>
    decreases s.len() - i,
    via blocks_from_decreases
{
    if i >= s.len() {
        Ok(seq![])
    } else {
        match block_at(s, i) {
            Err(e) => Err(e),
            Ok((b, k)) => match blocks_from(s, k) {
                Ok(bs) => Ok(seq![b] + bs),
                Err(e) => Err(e),
            },
        }
    }
}

#[via_fn]
proof fn blocks_from_decreases(s: Seq<u8>, i: nat) {
    lemma_block_advances(s, i);
}

/// `acc` put in front of the blocks read from some position on.
pub open spec fn blocks_prefixed(acc: Seq<BlockModel>, rest: Result<Seq<BlockModel>, LevelLoadError>) -> Result<
    Seq<BlockModel>,
    LevelLoadError,
> {
    match rest {
        Ok(bs) => Ok(acc + bs),
        Err(e) => Err(e),
    }
}

/// The signature line that opens every level pack.
pub open spec fn signature() -> Seq<u8> {
    seq![77u8, 117, 115, 104, 114, 111, 111, 109, 32, 77, 97, 110, 32, 51, 46, 48]
}

/// The fewest levels a pack may hold.
pub const MIN_LEVELS: usize = 100;

pub open spec fn is_digit(b: u8) -> bool {
    48 <= b <= 57
}

/// The first byte at or after `i` that is not a decimal digit.
pub open spec fn digits_end(s: Seq<u8>, i: nat) -> nat
    decreases s.len() - i,
{
    if i >= s.len() || !is_digit(s[i as int]) {
        i
    } else {
        digits_end(s, i + 1)
    }
}

pub proof fn lemma_digits_end(s: Seq<u8>, i: nat)
    ensures
        i <= s.len() ==> i <= digits_end(s, i) <= s.len(),
    decreases s.len() - i,
{
    if i < s.len() && is_digit(s[i as int]) {
        lemma_digits_end(s, i + 1);
    }
}

/// The number written in decimal by the bytes from `i` up to `j`.
pub open spec fn digits_value(s: Seq<u8>, i: int, j: int) -> nat
    decreases j - i,
{
    if j <= i {
        0
    } else {
        digits_value(s, i, j - 1) * 10 + (s[j - 1] - 48) as nat
    }
}

/// A pack with checksum `sum` made of the blocks read, if there are enough.
pub open spec fn pack_of(sum: u32, blocks: Result<Seq<BlockModel>, LevelLoadError>) -> Result<
    (u32, Seq<BlockModel>),
    LevelLoadError,
> {
    match blocks {
        Err(e) => Err(e),
        Ok(bs) => if bs.len() < MIN_LEVELS {
            Err(LevelLoadError::TooFewLevels)
        } else {
            Ok((sum, bs))
        },
    }
}

/// The signature line, checksum line and blank line that open a pack: the
/// checksum, and where the first level block starts.
pub open spec fn pack_head(s: Seq<u8>) -> Result<(u32, nat), LevelLoadError> {
    if !(s.len() >= 16 && s.subrange(0, 16) == signature() && eol_len(s, 16) > 0) {
        Err(LevelLoadError::BadHeader)
    } else {
        let i = 16 + eol_len(s, 16);
        let d = digits_end(s, i as nat);
        if d == i || digits_value(s, i, d as int) > u32::MAX || eol_len(s, d as int) == 0 {
            Err(LevelLoadError::BadFormat)
        } else {
            let b = d + eol_len(s, d as int);
            if eol_len(s, b) == 0 {
                Err(LevelLoadError::BadFormat)
            } else {
                Ok((digits_value(s, i, d as int) as u32, (b + eol_len(s, b)) as nat))
            }
        }
    }
}

/// A whole level pack: its checksum and its level blocks.
pub open spec fn pack_from(s: Seq<u8>) -> Result<(u32, Seq<BlockModel>), LevelLoadError> {
    match pack_head(s) {
        Err(e) => Err(e),
        Ok((sum, start)) => pack_of(sum, blocks_from(s, start)),
    }
}

/// A pack whose head reads well and whose blocks are all well formed is
/// refused for want of levels exactly when it has fewer than `MIN_LEVELS`
/// of them; otherwise it is read with all of them.
pub proof fn lemma_pack_size(s: Seq<u8>, sum: u32, start: nat, bs: Seq<BlockModel>)
    requires
        pack_head(s) == Ok::<(u32, nat), LevelLoadError>((sum, start)),
        blocks_from(s, start) == Ok::<Seq<BlockModel>, LevelLoadError>(bs),
    ensures
        (pack_from(s) == Err::<(u32, Seq<BlockModel>), LevelLoadError>(LevelLoadError::TooFewLevels))
            <==> bs.len() < MIN_LEVELS,
        bs.len() >= MIN_LEVELS ==> pack_from(s) == Ok::<(u32, Seq<BlockModel>), LevelLoadError>((sum, bs)),
{
}

/// The levels `lv` are the blocks `bs`, numbered from 1 in order.
pub open spec fn levels_match(lv: Seq<Level>, bs: Seq<BlockModel>) -> bool {
    &&& lv.len() == bs.len()
    &&& forall|t: int| 0 <= t < bs.len() ==> level_matches(#[trigger] lv[t], bs[t], (t + 1) as nat)
}

/// The levels of a pack in file order, with the checksum from its header.
pub struct Levels {
    pub checksum: u32,
    pub levels: Vec<Level>,
}

impl Levels {
    /// Checks the header's checksum against the levels. No checksum rule is
    /// defined for the format yet, so every pack passes; a rule added here
    /// would report `BadChecksum`.
    pub fn check_checksum(&self) -> (r: Result<(), LevelLoadError>)
        ensures
            r is Ok,
    {
        Ok(())
    }
}

/// Length of the line ending at `i`.
fn eol(s: &[u8], i: usize) -> (r: usize)
    ensures
        r == eol_len(s@, i as int),
        r == 0 || i + r <= s@.len(),
{
    if i < s.len() && s[i] == 10 {
        1
    } else if i < s.len() && s.len() - i > 1 && s[i] == 13 && s[i + 1] == 10 {
        2
    } else {
        0
    }
}

fn signature_byte(k: usize) -> (r: u8)
    requires
        k < 16,
    ensures
        r == signature()[k as int],
{
    match k {
        0 => 77,
        1 => 117,
        2 => 115,
        3 => 104,
        4 => 114,
        5 => 111,
        6 => 111,
        7 => 109,
        8 => 32,
        9 => 77,
        10 => 97,
        11 => 110,
        12 => 32,
        13 => 51,
        14 => 46,
        _ => 48,
    }
}

/// Whether `s` opens with the signature line's text.
fn has_signature(s: &[u8]) -> (r: bool)
    ensures
        r == (s@.len() >= 16 && s@.subrange(0, 16) == signature()),
{
    if s.len() < 16 {
        return false;
    }
    let mut k: usize = 0;
    while k < 16
        invariant
            k <= 16 <= s@.len(),
            forall|t: int| 0 <= t < k ==> s@[t] == signature()[t],
        decreases 16 - k,
    {
        if s[k] != signature_byte(k) {
            proof {
                assert(s@.subrange(0, 16)[k as int] != signature()[k as int]);
            }
            return false;
        }
        k = k + 1;
    }
    proof {
        assert(s@.subrange(0, 16) =~= signature());
    }
    true
}

/// Reads the decimal number at `i`: where its digits end, and its value,
/// or `None` if it does not fit in a `u32`.
fn number(s: &[u8], i: usize) -> (r: (usize, Option<u32>))
    requires
        i <= s@.len(),
    ensures
        r.0 == digits_end(s@, i as nat),
        i <= r.0 <= s@.len(),
        r.1 == (if digits_value(s@, i as int, r.0 as int) > u32::MAX {
            None::<u32>
        } else {
            Some(digits_value(s@, i as int, r.0 as int) as u32)
        }),
{
    proof {
        lemma_digits_end(s@, i as nat);
    }
    let mut j = i;
    let mut v: u64 = 0;
    while j < s.len() && 48 <= s[j] && s[j] <= 57
        invariant
            i <= j <= s@.len(),
            digits_end(s@, j as nat) <= s@.len(),
            digits_end(s@, i as nat) == digits_end(s@, j as nat),
            v == (if digits_value(s@, i as int, j as int) > u32::MAX {
                u32::MAX as nat + 1
            } else {
                digits_value(s@, i as int, j as int)
            }),
        decreases s@.len() - j,
    {
        let d = (s[j] - 48) as u64;
        if v <= u32::MAX as u64 {
            v = v * 10 + d;
            if v > u32::MAX as u64 {
                v = u32::MAX as u64 + 1;
            }
        }
        j = j + 1;
    }
    if v > u32::MAX as u64 {
        (j, None)
    } else {
        (j, Some(v as u32))
    }
}

/// Reads a level pack, numbering its levels from 1 in file order.
pub fn parse_levels(input: &[u8]) -> (r: Result<Levels, LevelLoadError>)
    ensures
        match (pack_from(input@), r) {
            (Ok((sum, bs)), Ok(p)) => p.checksum == sum && levels_match(p.levels@, bs) && p.wf(),
            (Err(e), Err(e2)) => e == e2,
            _ => false,
        },
{
    let s = input;
    let total = s.len();
    if !has_signature(s) {
        return Err(LevelLoadError::BadHeader);
    }
    let e0 = eol(s, 16);
    if e0 == 0 {
        return Err(LevelLoadError::BadHeader);
    }
    let i = 16 + e0;
    let (d, value) = number(s, i);
    if d == i {
        return Err(LevelLoadError::BadFormat);
    }
    let checksum = match value {
        Some(v) => v,
        None => {
            return Err(LevelLoadError::BadFormat);
        },
    };
    let e1 = eol(s, d);
    if e1 == 0 {
        return Err(LevelLoadError::BadFormat);
    }
    let b = d + e1;
    let e2 = eol(s, b);
    if e2 == 0 {
        return Err(LevelLoadError::BadFormat);
    }
    let start = b + e2;
    let mut levels: Vec<Level> = Vec::new();
    let ghost mut gbs: Seq<BlockModel> = seq![];
    let mut pos = start;
    while pos < s.len()
        invariant
            s@ == input@,
            start <= pos <= s@.len(),
            3 * levels@.len() <= pos,
            forall|t: int| 0 <= t < levels@.len() ==> (#[trigger] levels@[t]).number < usize::MAX,
            pack_from(s@) == pack_of(checksum, blocks_from(s@, start as nat)),
            blocks_from(s@, start as nat) == blocks_prefixed(gbs, blocks_from(s@, pos as nat)),
            levels_match(levels@, gbs),
        decreases s@.len() - pos,
    {
        let n = levels.len() + 1;
        match level(s, pos, n) {
            Err(e) => {
                proof {
                    assert(blocks_from(s@, pos as nat) == Err::<Seq<BlockModel>, LevelLoadError>(e));
                }
                return Err(e);
            },
            Ok((lv, k)) => {
                proof {
                    lemma_block_advances(s@, pos as nat);
                    let b = block_at(s@, pos as nat)->Ok_0.0;
                    match blocks_from(s@, k as nat) {
                        Ok(bs) => {
                            assert(gbs + (seq![b] + bs) =~= gbs.push(b) + bs);
                        },
                        Err(_) => {},
                    }
                    gbs = gbs.push(b);
                }
                levels.push(lv);
                pos = k;
            },
        }
    }
    proof {
        assert(gbs + seq![] =~= gbs);
    }
    if levels.len() < MIN_LEVELS {
        return Err(LevelLoadError::TooFewLevels);
    }
    Ok(Levels { checksum, levels })
}

/// A cell of a padded grid holds the cell of its row at that column, or
/// `Empty` past the row's end.
pub proof fn lemma_padded_cell(rows: Seq<Seq<Cell>>, w: nat, k: nat, r: int, c: int)
    requires
        k <= rows.len(),
        fits(rows, w),
        0 <= r < k,
        0 <= c < w,
    ensures
        grid_upto(rows, w, k).len() == k * w,
        0 <= r * w + c < k * w,
        grid_upto(rows, w, k)[r * w + c] == if c < rows[r].len() {
            rows[r][c]
        } else {
            Cell::Empty
        },
    decreases k,
{
    lemma_grid_len(rows, w, k);
    lemma_index_in_grid(r, c, k as int, w as int);
    lemma_grid_len(rows, w, (k - 1) as nat);
    let prev = grid_upto(rows, w, (k - 1) as nat);
    assert(grid_upto(rows, w, k) == prev + pad_row(rows[k - 1], w));
    if r < k - 1 {
        lemma_padded_cell(rows, w, (k - 1) as nat, r, c);
    } else {
        assert(r * w == (k - 1) * w);
    }
}

/// Rows of lengths 5, 3 and 5 make a grid five cells wide whose middle row
/// ends in two empty cells.
pub proof fn lemma_short_row_padded(rows: Seq<Seq<Cell>>)
    requires
        rows.len() == 3,
        rows[0].len() == 5,
        rows[1].len() == 3,
        rows[2].len() == 5,
    ensures
        fits(rows, rows[0].len()),
        grid_upto(rows, rows[0].len(), 3).len() == 15,
        forall|c: int| 0 <= c < 3 ==> grid_upto(rows, 5, 3)[5 + c] == rows[1][c],
        grid_upto(rows, 5, 3)[8] == Cell::Empty,
        grid_upto(rows, 5, 3)[9] == Cell::Empty,
        forall|r: int, c: int|
            0 <= r < 3 && 0 <= c < 5 && r != 1 ==> grid_upto(rows, 5, 3)[r * 5 + c] == rows[r][c],
{
    assert(fits(rows, 5));
    lemma_grid_len(rows, 5, 3);
    assert forall|c: int| 0 <= c < 3 implies grid_upto(rows, 5, 3)[5 + c] == rows[1][c] by {
        lemma_padded_cell(rows, 5, 3, 1, c);
    }
    lemma_padded_cell(rows, 5, 3, 1, 3);
    lemma_padded_cell(rows, 5, 3, 1, 4);
    assert forall|r: int, c: int| 0 <= r < 3 && 0 <= c < 5 && r != 1 implies grid_upto(rows, 5, 3)[r
        * 5 + c] == rows[r][c] by {
        lemma_padded_cell(rows, 5, 3, r, c);
    }
}

/// A level read from a block without a start cell is refused; a level read
/// from any block has the player on its start position, which holds the
/// block's first start cell.
pub proof fn lemma_start_cell(s: Seq<u8>, i: nat, lv: Level, n: nat)
    ensures
        block_at(s, i) matches Ok((b, _)) ==> b.4[b.5 as int] == Cell::Start && forall|q: int|
            0 <= q < b.5 ==> b.4[q] != Cell::Start,
        block_at(s, i) matches Ok((b, _)) && level_matches(lv, b, n) ==> lv.player_pos
            == lv.start_pos && lv.at(lv.start_pos) == Cell::Start,
        block_grid(s, i) matches Ok(g) ==> (block_at(s, i) == Err::<(BlockModel, nat), LevelLoadError>(
            LevelLoadError::NoStart) <==> forall|q: int| 0 <= q < g.4.len() ==> g.4[q] != Cell::Start),
{
    if let Ok(g) = block_grid(s, i) {
        lemma_find_start(g.4, 0);
    }
    if let Ok((b, _)) = block_at(s, i) {
        lemma_find_start(b.4, 0);
        if level_matches(lv, b, n) {
            let p = b.5 as int;
            let w = b.3 as int;
            assert(p < b.4.len());
            assert(w > 0) by {
                if w == 0 {
                    assert(b.4.len() == b.2 * b.3);
                    assert(b.2 * 0 == 0) by (nonlinear_arith);
                }
            }
            vstd::arithmetic::div_mod::lemma_fundamental_div_mod(p, w);
            assert(lv.index_of(lv.start_pos) == p);
        }
    }
}

} // verus!
