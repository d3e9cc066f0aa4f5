use vstd::prelude::*;
use crate::cell::{Branch, Cell, CellAction, DeathCause, Item};
use crate::level::{Coord, Level, lemma_blast_members, lemma_index_in_grid, lemma_index_injective};
use crate::parse::Levels;

verus! {

/// How many of each item the player carries.
#[derive(Debug, Clone, Copy, PartialEq, Eq, Structural)]
pub struct Inventory {
    pub key: usize,
    pub oxygen: usize,
    pub cement: usize,
    pub money: usize,
}

/// The largest amount a single cell adds to the inventory.
pub const MAX_ADD: usize = 3;

impl Inventory {
    pub open spec fn count(self, item: Item) -> nat {
        match item {
            Item::Key => self.key as nat,
            Item::Oxygen => self.oxygen as nat,
            Item::Cement => self.cement as nat,
            Item::Money => self.money as nat,
        }
    }

    /// The inventory with the count of `item` set to `v`.
    pub open spec fn with_count(self, item: Item, v: nat) -> Inventory {
        match item {
            Item::Key => Inventory { key: v as usize, ..self },
            Item::Oxygen => Inventory { oxygen: v as usize, ..self },
            Item::Cement => Inventory { cement: v as usize, ..self },
            Item::Money => Inventory { money: v as usize, ..self },
        }
    }

    /// Every count can still grow by what one cell adds.
    pub open spec fn has_room(self) -> bool {
        &&& self.key + MAX_ADD <= usize::MAX
        &&& self.oxygen + MAX_ADD <= usize::MAX
        &&& self.cement + MAX_ADD <= usize::MAX
        &&& self.money + MAX_ADD <= usize::MAX
    }

    /// An empty inventory.
    pub fn new() -> (r: Inventory)
        ensures
            forall|i: Item| r.count(i) == 0,
            r.has_room(),
    {
        Inventory { key: 0, oxygen: 0, cement: 0, money: 0 }
    }

    /// How many of `item` are carried.
    pub fn get(&self, item: Item) -> (r: usize)
        ensures
            r == self.count(item),
    {
        match item {
            Item::Key => self.key,
            Item::Oxygen => self.oxygen,
            Item::Cement => self.cement,
            Item::Money => self.money,
        }
    }

    /// Whether every count can still grow by what one cell adds.
    pub fn room_left(&self) -> (r: bool)
        ensures
            r == self.has_room(),
    {
        let limit = usize::MAX - MAX_ADD;
        self.key <= limit && self.oxygen <= limit && self.cement <= limit && self.money <= limit
    }

    /// Sets the count of `item`.
    pub fn set(&mut self, item: Item, v: usize)
        ensures
            *final(self) == old(self).with_count(item, v as nat),
    {
        match item {
            Item::Key => self.key = v,
            Item::Oxygen => self.oxygen = v,
            Item::Cement => self.cement = v,
            Item::Money => self.money = v,
        }
    }
}

/// What the engine tells the presentation about a move.
#[derive(Debug, Clone, Copy, PartialEq, Eq, Structural)]
pub enum Signal {
    PositionChanged(Coord),
    CellChanged(Coord, Cell),
    PlayerDied(DeathCause),
    LevelAdvanceRequested(usize),
}

/// A move the engine cannot resolve.
#[derive(Debug, Clone, Copy, PartialEq, Eq, Structural)]
pub enum MoveError {
    /// The effect, or a branch of it, has no defined behaviour yet.
    UnsupportedEffect(CellAction),
}

/// The active level with the player's inventory.
pub struct PlayState {
    pub level: Level,
    pub inventory: Inventory,
}

/// The state after a resolved move: cells, player position, inventory, signals.
pub type Outcome = (Seq<Cell>, Coord, Inventory, Seq<Signal>);

/// Effect of an explosion over the first `k` cells of `hits`: each cell is
/// cleared, until a barrel or the exit is hit, which kills the player and
/// stops the explosion. The flag tells whether the player died.
pub open spec fn explode_upto(cells: Seq<Cell>, cols: nat, hits: Seq<Coord>, k: nat) -> (
    Seq<Cell>,
    Seq<Signal>,
    bool,
)
    decreases k,
{
    if k == 0 {
        (cells, seq![], false)
    } else {
        let (c, sig, died) = explode_upto(cells, cols, hits, (k - 1) as nat);
        if died {
            (c, sig, died)
        } else {
            let n = hits[k - 1];
            let idx = flat_index(n, cols);
            if c[idx] == Cell::Barrel {
                (c, sig.push(Signal::PlayerDied(DeathCause::Explosion)), true)
            } else if c[idx] == Cell::Exit {
                (c, sig.push(Signal::PlayerDied(DeathCause::BlewUpExit)), true)
            } else {
                (c.update(idx, Cell::Empty), sig.push(Signal::CellChanged(n, Cell::Empty)), false)
            }
        }
    }
}

impl PlayState {
    pub open spec fn wf(&self) -> bool {
        &&& self.level.wf()
        &&& self.inventory.has_room()
        &&& self.level.number < usize::MAX
    }

    /// The step from the player to `dest`.
    pub open spec fn delta(&self, dest: Coord) -> (int, int) {
        (dest.row() - self.level.player_pos.row(), dest.col() - self.level.player_pos.col())
    }

    /// The result of the player trying to enter `dest`.
    pub open spec fn outcome(&self, dest: Coord) -> Result<Outcome, MoveError> {
        let lv = self.level;
        let cells = lv.cells();
        let p = lv.player_pos;
        let inv = self.inventory;
        let i = lv.index_of(dest);
        let action = lv.at(dest).effect();
        match action {
            CellAction::Nothing => Ok((cells, dest, inv, seq![Signal::PositionChanged(dest)])),
            CellAction::Block => Ok((cells, p, inv, seq![])),
            CellAction::Add(item, n) => Ok(
                (
                    cells.update(i, Cell::Empty),
                    dest,
                    inv.with_count(item, (inv.count(item) + n) as nat),
                    seq![Signal::CellChanged(dest, Cell::Empty), Signal::PositionChanged(dest)],
                ),
            ),
            CellAction::Consume { item, fail, success } => {
                if inv.count(item) == 0 {
                    match fail {
                        Branch::Block => Ok((cells, p, inv, seq![])),
                        Branch::Die(m) => Ok((cells, p, inv, seq![Signal::PlayerDied(m)])),
                        Branch::Nothing => Err(MoveError::UnsupportedEffect(action)),
                    }
                } else {
                    let inv2 = inv.with_count(item, (inv.count(item) - 1) as nat);
                    let cells2 = cells.update(i, Cell::Empty);
                    match success {
                        Branch::Nothing => Ok(
                            (
                                cells2,
                                dest,
                                inv2,
                                seq![
                                    Signal::CellChanged(dest, Cell::Empty),
                                    Signal::PositionChanged(dest),
                                ],
                            ),
                        ),
                        Branch::Block => Ok(
                            (cells2, p, inv2, seq![Signal::CellChanged(dest, Cell::Empty)]),
                        ),
                        Branch::Die(_) => Err(MoveError::UnsupportedEffect(action)),
                    }
                }
            },
            CellAction::Explode => {
                let hits = lv.blast(dest);
                let (c, sig, died) = explode_upto(cells, lv.cols(), hits, hits.len());
                if died {
                    Ok((c, p, inv, sig))
                } else {
                    Ok((c, dest, inv, sig.push(Signal::PositionChanged(dest))))
                }
            },
            CellAction::Shoot => {
                // A gun cell is never a barrel or the exit, but the rule holds for any target.
                if cells[i] == Cell::Barrel {
                    Ok((cells, p, inv, seq![Signal::PlayerDied(DeathCause::Explosion)]))
                } else if cells[i] == Cell::Exit {
                    Ok((cells, p, inv, seq![Signal::PlayerDied(DeathCause::BlewUpExit)]))
                } else {
                    let c1 = cells.update(i, Cell::Empty);
                    let s1 = seq![Signal::CellChanged(dest, Cell::Empty)];
                    match lv.neighbor_of(dest, self.delta(dest)) {
                        Some(n) => Ok(
                            (
                                c1.update(lv.index_of(n), Cell::Empty),
                                dest,
                                inv,
                                s1.push(Signal::CellChanged(n, Cell::Empty)).push(
                                    Signal::PositionChanged(dest),
                                ),
                            ),
                        ),
                        None => Ok((c1, dest, inv, s1.push(Signal::PositionChanged(dest)))),
                    }
                }
            },
            CellAction::Push => match lv.neighbor_of(dest, self.delta(dest)) {
                Some(n) => if lv.at(n) == Cell::Empty || lv.at(n) == Cell::Start {
                    Ok(
                        (
                            cells.update(i, Cell::Empty).update(lv.index_of(n), Cell::JellyBean),
                            dest,
                            inv,
                            seq![
                                Signal::CellChanged(dest, Cell::Empty),
                                Signal::CellChanged(n, Cell::JellyBean),
                                Signal::PositionChanged(dest),
                            ],
                        ),
                    )
                } else {
                    Ok((cells, p, inv, seq![]))
                },
                None => Ok((cells, p, inv, seq![])),
            },
            CellAction::Teleport(_, _) => Err(MoveError::UnsupportedEffect(action)),
            CellAction::Die(m) => Ok((cells, p, inv, seq![Signal::PlayerDied(m)])),
            CellAction::NextLevel => Ok(
                (cells, p, inv, seq![Signal::LevelAdvanceRequested((lv.number + 1) as usize)]),
            ),
        }
    }

    /// Resolves the player's attempt to enter `dest`: the grid, the player's
    /// position and the inventory become those of `outcome`, and the signals
    /// of the move are returned. An unsupported effect changes nothing.
    pub fn resolve_move(&mut self, dest: Coord) -> (r: Result<Vec<Signal>, MoveError>)
        requires
            old(self).wf(),
            old(self).level.in_bounds(dest),
        ensures
            match old(self).outcome(dest) {
                Ok((cells, p, inv, sig)) => {
                    &&& r is Ok
                    &&& r.unwrap()@ == sig
                    &&& final(self).level.cells() == cells
                    &&& final(self).level.player_pos == p
                    &&& final(self).inventory == inv
                    &&& final(self).level.rows() == old(self).level.rows()
                    &&& final(self).level.cols() == old(self).level.cols()
                    &&& final(self).level.number == old(self).level.number
                    &&& final(self).level.start_pos == old(self).level.start_pos
                    &&& final(self).level.name == old(self).level.name
                    &&& final(self).level.author == old(self).level.author
                },
                Err(e) => r == Err::<Vec<Signal>, MoveError>(e) && *final(self) == *old(self),
            },
            final(self).level.wf(),
    {
        proof {
            lemma_index_in_grid(dest.row(), dest.col(), self.level.rows() as int, self.level.cols() as int);
        }
        let cell = self.level.cell(dest);
        let action = cell.action();
        let p = self.level.player_pos;
        let dr: i128 = dest.0 as i128 - p.0 as i128;
        let dc: i128 = dest.1 as i128 - p.1 as i128;
        match action {
            CellAction::Nothing => {
                self.level.player_pos = dest;
                Ok(vec![Signal::PositionChanged(dest)])
            },
            CellAction::Block => Ok(Vec::new()),
            CellAction::Add(item, n) => {
                self.level.set_cell(dest, Cell::Empty);
                let c = self.inventory.get(item);
                self.inventory.set(item, c + n);
                self.level.player_pos = dest;
                Ok(vec![Signal::CellChanged(dest, Cell::Empty), Signal::PositionChanged(dest)])
            },
            CellAction::Consume { item, fail, success } => {
                let c = self.inventory.get(item);
                if c == 0 {
                    match fail {
                        Branch::Block => Ok(Vec::new()),
                        Branch::Die(m) => Ok(vec![Signal::PlayerDied(m)]),
                        Branch::Nothing => Err(MoveError::UnsupportedEffect(action)),
                    }
                } else {
                    if let Branch::Die(_) = success {
                        return Err(MoveError::UnsupportedEffect(action));
                    }
                    self.inventory.set(item, c - 1);
                    self.level.set_cell(dest, Cell::Empty);
                    match success {
                        Branch::Nothing => {
                            self.level.player_pos = dest;
                            Ok(
                                vec![
                                    Signal::CellChanged(dest, Cell::Empty),
                                    Signal::PositionChanged(dest),
                                ],
                            )
                        },
                        _ => Ok(vec![Signal::CellChanged(dest, Cell::Empty)]),
                    }
                }
            },
            CellAction::Explode => {
                let (mut sig, died) = self.explode(dest);
                if !died {
                    self.level.player_pos = dest;
                    sig.push(Signal::PositionChanged(dest));
                }
                Ok(sig)
            },
            CellAction::Shoot => {
                if cell == Cell::Barrel {
                    return Ok(vec![Signal::PlayerDied(DeathCause::Explosion)]);
                }
                if cell == Cell::Exit {
                    return Ok(vec![Signal::PlayerDied(DeathCause::BlewUpExit)]);
                }
                self.level.set_cell(dest, Cell::Empty);
                let mut sig = vec![Signal::CellChanged(dest, Cell::Empty)];
                if let Some(n) = self.level.offset(dest, dr, dc) {
                    self.level.set_cell(n, Cell::Empty);
                    sig.push(Signal::CellChanged(n, Cell::Empty));
                }
                self.level.player_pos = dest;
                sig.push(Signal::PositionChanged(dest));
                Ok(sig)
            },
            CellAction::Push => {
                match self.level.offset(dest, dr, dc) {
                    Some(n) => {
                        proof {
                            lemma_index_in_grid(n.row(), n.col(), self.level.rows() as int, self.level.cols() as int);
                        }
                        let target = self.level.cell(n);
                        if target != Cell::Empty && target != Cell::Start {
                            return Ok(Vec::new());
                        }
                        self.level.set_cell(dest, Cell::Empty);
                        self.level.set_cell(n, Cell::JellyBean);
                        self.level.player_pos = dest;
                        Ok(
                            vec![
                                Signal::CellChanged(dest, Cell::Empty),
                                Signal::CellChanged(n, Cell::JellyBean),
                                Signal::PositionChanged(dest),
                            ],
                        )
                    },
                    None => Ok(Vec::new()),
                }
            },
            CellAction::Teleport(_, _) => Err(MoveError::UnsupportedEffect(action)),
            CellAction::Die(m) => Ok(vec![Signal::PlayerDied(m)]),
            CellAction::NextLevel => Ok(vec![Signal::LevelAdvanceRequested(self.level.number + 1)]),
        }
    }

    /// Runs an explosion centred on `dest`, returning its signals and whether
    /// the player died.
    fn explode(&mut self, dest: Coord) -> (r: (Vec<Signal>, bool))
        requires
            old(self).wf(),
        ensures
            ({
                let hits = old(self).level.blast(dest);
                let (c, sig, died) = explode_upto(
                    old(self).level.cells(),
                    old(self).level.cols(),
                    hits,
                    hits.len(),
                );
                &&& final(self).level.cells() == c
                &&& r.0@ == sig
                &&& r.1 == died
            }),
            final(self).wf(),
            final(self).inventory == old(self).inventory,
            final(self).level.player_pos == old(self).level.player_pos,
            final(self).level.start_pos == old(self).level.start_pos,
            final(self).level.number == old(self).level.number,
            final(self).level.name == old(self).level.name,
            final(self).level.author == old(self).level.author,
            final(self).level.rows() == old(self).level.rows(),
            final(self).level.cols() == old(self).level.cols(),
    {
        let hits = self.level.explode_cells(dest);
        let ghost cells0 = self.level.cells();
        let ghost cols = self.level.cols();
        let ghost lv0 = self.level;
        let mut sig: Vec<Signal> = Vec::new();
        let mut died = false;
        let mut k: usize = 0;
        while k < hits.len()
            invariant
                k <= hits.len(),
                hits@ == lv0.blast(dest),
                self.wf(),
                cols == self.level.cols(),
                self.level.rows() == lv0.rows(),
                self.inventory == old(self).inventory,
                self.level.player_pos == lv0.player_pos,
                self.level.start_pos == lv0.start_pos,
                self.level.number == lv0.number,
                self.level.name == lv0.name,
                self.level.author == lv0.author,
                lv0 == old(self).level,
                cells0 == lv0.cells(),
                cols == lv0.cols(),
                (self.level.cells(), sig@, died) == explode_upto(cells0, cols, hits@, k as nat),
            decreases hits.len() - k,
        {
            if !died {
                let n = hits[k];
                proof {
                    lemma_blast_in_bounds(lv0, dest, 9, k as int);
                    lemma_index_in_grid(n.row(), n.col(), self.level.rows() as int, self.level.cols() as int);
                }
                let x = self.level.cell(n);
                if x == Cell::Barrel {
                    sig.push(Signal::PlayerDied(DeathCause::Explosion));
                    died = true;
                } else if x == Cell::Exit {
                    sig.push(Signal::PlayerDied(DeathCause::BlewUpExit));
                    died = true;
                } else {
                    self.level.set_cell(n, Cell::Empty);
                    sig.push(Signal::CellChanged(n, Cell::Empty));
                }
            }
            k = k + 1;
        }
        (sig, died)
    }
}

/// Every cell an explosion reaches lies on the grid.
pub proof fn lemma_blast_in_bounds(lv: Level, c: Coord, k: nat, j: int)
    requires
        0 <= j < lv.blast_upto(c, k).len(),
    ensures
        lv.in_bounds(lv.blast_upto(c, k)[j]),
    decreases k,
{
    if k > 0 {
        let prev = lv.blast_upto(c, (k - 1) as nat);
        if j < prev.len() {
            lemma_blast_in_bounds(lv, c, (k - 1) as nat, j);
        }
    }
}

impl Levels {
    /// Every level is well formed and can still name the level after it.
    pub open spec fn wf(&self) -> bool {
        forall|t: int|
            0 <= t < self.levels@.len() ==> (#[trigger] self.levels@[t]).wf() && self.levels@[t].number
                < usize::MAX
    }

    /// Starts play on the level at `index`: a fresh copy of its grid, the
    /// player on its start cell and an empty inventory.
    pub fn enter_level(&self, index: usize) -> (r: Option<PlayState>)
        requires
            self.wf(),
        ensures
            r is Some <==> index < self.levels@.len(),
            r matches Some(ps) ==> {
                let lv = self.levels@[index as int];
                &&& ps.wf()
                &&& ps.level.cells() == lv.cells()
                &&& ps.level.rows() == lv.rows()
                &&& ps.level.cols() == lv.cols()
                &&& ps.level.name == lv.name
                &&& ps.level.author == lv.author
                &&& ps.level.number == lv.number
                &&& ps.level.start_pos == lv.start_pos
                &&& ps.level.player_pos == lv.start_pos
                &&& forall|i: Item| ps.inventory.count(i) == 0
            },
    {
        if index >= self.levels.len() {
            return None;
        }
        let mut level = self.levels[index].clone_level();
        level.player_pos = level.start_pos;
        Some(PlayState { level, inventory: Inventory::new() })
    }

    /// Starts play on the level numbered `number`; levels are numbered from 1
    /// in pack order, so this is the level at index `number - 1`.
    pub fn enter_level_number(&self, number: usize) -> (r: Option<PlayState>)
        requires
            self.wf(),
        ensures
            r is Some <==> 1 <= number <= self.levels@.len(),
            r matches Some(ps) ==> {
                let lv = self.levels@[number - 1];
                &&& ps.wf()
                &&& ps.level.cells() == lv.cells()
                &&& ps.level.rows() == lv.rows()
                &&& ps.level.cols() == lv.cols()
                &&& ps.level.name == lv.name
                &&& ps.level.author == lv.author
                &&& ps.level.number == lv.number
                &&& ps.level.start_pos == lv.start_pos
                &&& ps.level.player_pos == lv.start_pos
                &&& forall|i: Item| ps.inventory.count(i) == 0
            },
    {
        if number == 0 {
            return None;
        }
        self.enter_level(number - 1)
    }
}

/// Every cell but a teleporter has a defined outcome.
pub proof fn lemma_only_teleport_unsupported(ps: PlayState, dest: Coord)
    ensures
        ps.outcome(dest) is Err ==> ps.level.at(dest) is Teleport,
{
}

/// Walls, metal walls, barrels, and guards met without money turn the player
/// back: the grid, the position and the inventory stay as they were, and
/// nothing is signalled.
pub proof fn lemma_blocked(ps: PlayState, dest: Coord)
    requires
        ps.level.at(dest) == Cell::Wall || ps.level.at(dest) == Cell::MetalWall || ps.level.at(dest)
            == Cell::Barrel || (ps.level.at(dest) == Cell::Guard && ps.inventory.count(Item::Money)
            == 0),
    ensures
        ps.outcome(dest) == Ok::<Outcome, MoveError>(
            (ps.level.cells(), ps.level.player_pos, ps.inventory, seq![]),
        ),
{
}

/// Entering money adds one to the money carried, empties the cell and moves
/// the player; entering the same cell again, now empty, only moves the player.
pub proof fn lemma_money_then_empty(ps: PlayState, again: PlayState, dest: Coord)
    requires
        ps.level.wf(),
        ps.level.in_bounds(dest),
        ps.inventory.has_room(),
        ps.level.at(dest) == Cell::Money,
        ps.outcome(dest) matches Ok(o) && again.level.cells() == o.0 && again.inventory == o.2,
        again.level.cols() == ps.level.cols(),
    ensures
        ps.outcome(dest) == Ok::<Outcome, MoveError>(
            (
                ps.level.cells().update(ps.level.index_of(dest), Cell::Empty),
                dest,
                ps.inventory.with_count(Item::Money, ps.inventory.count(Item::Money) + 1),
                seq![Signal::CellChanged(dest, Cell::Empty), Signal::PositionChanged(dest)],
            ),
        ),
        again.outcome(dest) == Ok::<Outcome, MoveError>(
            (again.level.cells(), dest, again.inventory, seq![Signal::PositionChanged(dest)]),
        ),
        again.inventory.count(Item::Money) == ps.inventory.count(Item::Money) + 1,
{
    lemma_index_in_grid(dest.row(), dest.col(), ps.level.rows() as int, ps.level.cols() as int);
    assert(again.level.at(dest) == Cell::Empty);
}

/// A jelly bean pushed off the grid or into a wall does not move, nor does
/// the player; pushed onto an empty cell, it moves there and the player takes
/// its place.
pub proof fn lemma_push(ps: PlayState, dest: Coord)
    requires
        ps.level.at(dest) == Cell::JellyBean,
    ensures
        ps.level.neighbor_of(dest, ps.delta(dest)) is None ==> ps.outcome(dest) == Ok::<
            Outcome,
            MoveError,
        >((ps.level.cells(), ps.level.player_pos, ps.inventory, seq![])),
        forall|n: Coord|
            ps.level.neighbor_of(dest, ps.delta(dest)) == Some(n) && ps.level.at(n) == Cell::Wall
                ==> ps.outcome(dest) == Ok::<Outcome, MoveError>(
            (ps.level.cells(), ps.level.player_pos, ps.inventory, seq![]),
        ),
        forall|n: Coord|
            ps.level.neighbor_of(dest, ps.delta(dest)) == Some(n) && ps.level.at(n) == Cell::Empty
                ==> ps.outcome(dest) == Ok::<Outcome, MoveError>(
            (
                ps.level.cells().update(ps.level.index_of(dest), Cell::Empty).update(
                    ps.level.index_of(n),
                    Cell::JellyBean,
                ),
                dest,
                ps.inventory,
                seq![
                    Signal::CellChanged(dest, Cell::Empty),
                    Signal::CellChanged(n, Cell::JellyBean),
                    Signal::PositionChanged(dest),
                ],
            ),
        ),
{
}

/// The index of a position in a grid `cols` wide.
pub open spec fn flat_index(n: Coord, cols: nat) -> int {
    n.row() * cols + n.col()
}

/// An explosion only ever empties cells, and never a barrel or the exit.
pub proof fn lemma_explode_keeps(cells: Seq<Cell>, cols: nat, hits: Seq<Coord>, k: nat)
    requires
        k <= hits.len(),
        forall|t: int| 0 <= t < k ==> 0 <= #[trigger] flat_index(hits[t], cols) < cells.len(),
    ensures
        explode_upto(cells, cols, hits, k).0.len() == cells.len(),
        forall|j: int|
            0 <= j < cells.len() ==> #[trigger] explode_upto(cells, cols, hits, k).0[j] == cells[j]
                || explode_upto(cells, cols, hits, k).0[j] == Cell::Empty,
        forall|j: int|
            0 <= j < cells.len() && (cells[j] == Cell::Exit || cells[j] == Cell::Barrel) ==> #[trigger] explode_upto(
                cells,
                cols,
                hits,
                k,
            ).0[j] == cells[j],
    decreases k,
{
    if k > 0 {
        lemma_explode_keeps(cells, cols, hits, (k - 1) as nat);
    }
}

/// An explosion signals only emptied cells, except for a death, which comes
/// once and last; it leaves every cell it does not reach as it was.
pub proof fn lemma_explode_signals(cells: Seq<Cell>, cols: nat, hits: Seq<Coord>, k: nat)
    requires
        k <= hits.len(),
        forall|t: int| 0 <= t < k ==> 0 <= #[trigger] flat_index(hits[t], cols) < cells.len(),
    ensures
        ({
            let (c, sig, died) = explode_upto(cells, cols, hits, k);
            &&& forall|i: int|
                0 <= i < sig.len() && (i < sig.len() - 1 || !died) ==> #[trigger] sig[i] is CellChanged
            &&& died ==> sig.len() > 0 && sig.last() is PlayerDied
            &&& forall|j: int|
                0 <= j < cells.len() && (forall|t: int| 0 <= t < k ==> flat_index(hits[t], cols) != j)
                    ==> #[trigger] c[j] == cells[j]
        }),
    decreases k,
{
    if k > 0 {
        lemma_explode_signals(cells, cols, hits, (k - 1) as nat);
        lemma_explode_keeps(cells, cols, hits, (k - 1) as nat);
        let (c, sig, died) = explode_upto(cells, cols, hits, (k - 1) as nat);
        let (c2, sig2, died2) = explode_upto(cells, cols, hits, k);
        if !died {
            assert forall|i: int|
                0 <= i < sig2.len() && (i < sig2.len() - 1 || !died2) implies #[trigger] sig2[i] is CellChanged by {
                if i < sig.len() {
                    assert(sig2[i] == sig[i]);
                }
            }
        }
        assert forall|j: int|
            0 <= j < cells.len() && (forall|t: int| 0 <= t < k ==> flat_index(hits[t], cols) != j)
                implies #[trigger] c2[j] == cells[j] by {
            assert(flat_index(hits[k - 1], cols) != j);
            assert(forall|t: int| 0 <= t < k - 1 ==> flat_index(hits[t], cols) != j);
            assert(c[j] == cells[j]);
        }
    }
}

/// An explosion that reaches the exit and no barrel kills the player, and
/// its last signal says the exit was blown up.
pub proof fn lemma_explode_exit(cells: Seq<Cell>, cols: nat, hits: Seq<Coord>, k: nat)
    requires
        k <= hits.len(),
        forall|t: int| 0 <= t < k ==> 0 <= #[trigger] flat_index(hits[t], cols) < cells.len(),
        forall|t: int| 0 <= t < k ==> cells[#[trigger] flat_index(hits[t], cols)] != Cell::Barrel,
    ensures
        explode_upto(cells, cols, hits, k).2 ==> explode_upto(cells, cols, hits, k).1.len() > 0
            && explode_upto(cells, cols, hits, k).1.last() == Signal::PlayerDied(DeathCause::BlewUpExit),
        (exists|t: int| 0 <= t < k && cells[#[trigger] flat_index(hits[t], cols)] == Cell::Exit)
            ==> explode_upto(cells, cols, hits, k).2,
    decreases k,
{
    if k > 0 {
        lemma_explode_exit(cells, cols, hits, (k - 1) as nat);
        lemma_explode_keeps(cells, cols, hits, (k - 1) as nat);
        let idx = flat_index(hits[k - 1], cols);
        assert(0 <= idx < cells.len());
        if exists|t: int| 0 <= t < k && cells[#[trigger] flat_index(hits[t], cols)] == Cell::Exit {
            let t = choose|t: int| 0 <= t < k && cells[#[trigger] flat_index(hits[t], cols)] == Cell::Exit;
            if t < k - 1 {
                assert(explode_upto(cells, cols, hits, (k - 1) as nat).2);
            }
        }
    }
}

/// A bomb next to the exit, with no barrel around it, kills the player with
/// the message that the exit was blown up, once; the player stays put, the
/// exit is still there, and no cell outside the blast changes.
pub proof fn lemma_bomb_near_exit(ps: PlayState, dest: Coord, e: Coord)
    requires
        ps.level.wf(),
        ps.level.at(dest) == Cell::Bomb,
        ps.level.in_bounds(e),
        -1 <= e.row() - dest.row() <= 1,
        -1 <= e.col() - dest.col() <= 1,
        ps.level.at(e) == Cell::Exit,
        forall|n: Coord|
            ps.level.in_bounds(n) && -1 <= n.row() - dest.row() <= 1 && -1 <= n.col() - dest.col()
                <= 1 ==> ps.level.at(n) != Cell::Barrel,
    ensures
        ps.outcome(dest) matches Ok(o) && o.1 == ps.level.player_pos && o.3.len() > 0 && o.3.last()
            == Signal::PlayerDied(DeathCause::BlewUpExit) && o.0[ps.level.index_of(e)] == Cell::Exit
            && o.2 == ps.inventory && (forall|i: int| 0 <= i < o.3.len() - 1 ==> #[trigger] o.3[i] is CellChanged)
            && (forall|n: Coord|
            ps.level.in_bounds(n) && !ps.level.blast(dest).contains(n) ==> o.0[ps.level.index_of(n)]
                == ps.level.at(n)),
{
    lemma_blast_members(ps.level, dest, e);
    let lv = ps.level;
    let hits = lv.blast(dest);
    let cols = lv.cols();
    assert forall|t: int| 0 <= t < hits.len() implies 0 <= #[trigger] flat_index(hits[t], cols)
        < lv.cells().len() by {
        lemma_blast_in_bounds(lv, dest, 9, t);
        lemma_index_in_grid(hits[t].row(), hits[t].col(), lv.rows() as int, cols as int);
    }
    assert forall|t: int| 0 <= t < hits.len() implies lv.cells()[#[trigger] flat_index(hits[t], cols)]
        != Cell::Barrel by {
        assert(hits.contains(hits[t]));
        lemma_blast_members(lv, dest, hits[t]);
        assert(lv.at(hits[t]) != Cell::Barrel);
    }
    let t = choose|t: int| 0 <= t < hits.len() && hits[t] == e;
    lemma_blast_in_bounds(lv, dest, 9, t);
    assert(lv.cells()[flat_index(hits[t], cols)] == Cell::Exit);
    lemma_explode_exit(lv.cells(), cols, hits, hits.len());
    lemma_explode_keeps(lv.cells(), cols, hits, hits.len());
    lemma_explode_signals(lv.cells(), cols, hits, hits.len());
    lemma_index_in_grid(e.row(), e.col(), lv.rows() as int, cols as int);
    assert forall|n: Coord| lv.in_bounds(n) && !hits.contains(n) implies (forall|t: int|
        0 <= t < hits.len() ==> flat_index(hits[t], cols) != lv.index_of(n)) by {
        lemma_index_in_grid(n.row(), n.col(), lv.rows() as int, cols as int);
        assert forall|t: int| 0 <= t < hits.len() implies flat_index(hits[t], cols) != lv.index_of(n) by {
            lemma_blast_in_bounds(lv, dest, 9, t);
            if flat_index(hits[t], cols) == lv.index_of(n) {
                lemma_index_injective(hits[t].row(), hits[t].col(), n.row(), n.col(), cols as int);
                assert(hits[t] == n);
            }
        }
    }
    let (c, sig, died) = explode_upto(lv.cells(), cols, hits, hits.len());
    assert forall|n: Coord| lv.in_bounds(n) && !hits.contains(n) implies c[lv.index_of(n)] == lv.at(n) by {
        lemma_index_in_grid(n.row(), n.col(), lv.rows() as int, cols as int);
        assert(forall|t: int| 0 <= t < hits.len() ==> flat_index(hits[t], cols) != lv.index_of(n));
    }
    assert forall|i: int| 0 <= i < sig.len() - 1 implies #[trigger] sig[i] is CellChanged by {}
}

} // verus!
