use vstd::prelude::*;

verus! {

/// Facing of a teleporter.
#[derive(Debug, Clone, Copy, PartialEq, Eq, Hash, Structural)]
pub enum Dir {
    Up,
    Down,
    Left,
    Right,
}

/// What occupies one tile of a level.
#[derive(Debug, Clone, Copy, PartialEq, Eq, Hash, Structural)]
pub enum Cell {
    Empty,
    Wall,
    Start,
    Exit,
    Bomb,
    Cement,
    Barrel,
    Money,
    Guard,
    Hole,
    MetalWall,
    JellyBean,
    Key,
    Lock,
    Gun,
    Oxygen,
    Teleport(u8, Dir),
    Water,
}

/// Things the player can carry.
#[derive(Debug, Clone, Copy, PartialEq, Eq, Hash, Structural)]
pub enum Item {
    Key,
    Oxygen,
    Cement,
    Money,
}

/// Why the player died.
#[derive(Debug, Clone, Copy, PartialEq, Eq, Hash, Structural)]
pub enum DeathCause {
    FellInHole,
    Drowned,
    Explosion,
    BlewUpExit,
}

/// The effects allowed inside the branches of a `Consume`.
#[derive(Debug, Clone, Copy, PartialEq, Eq, Hash, Structural)]
pub enum Branch {
    Nothing,
    Block,
    Die(DeathCause),
}

/// The rule triggered when the player tries to enter a cell.
#[derive(Debug, Clone, Copy, PartialEq, Eq, Hash, Structural)]
pub enum CellAction {
    Nothing,
    Consume { item: Item, fail: Branch, success: Branch },
    Add(Item, usize),
    Block,
    Push,
    Explode,
    Shoot,
    Teleport(u8, Dir),
    Die(DeathCause),
    NextLevel,
}

impl DeathCause {
    pub open spec fn text(self) -> Seq<char> {
        match self {
            DeathCause::FellInHole => "You fell in a hole!"@,
            DeathCause::Drowned => "You drowned!"@,
            DeathCause::Explosion => "You died in an explosion"@,
            DeathCause::BlewUpExit => "You blew up the exit"@,
        }
    }

    /// The message shown to the player.
    pub fn message(&self) -> (r: String)
        ensures
            r@ == self.text(),
    {
        match self {
            DeathCause::FellInHole => String::from_str("You fell in a hole!"),
            DeathCause::Drowned => String::from_str("You drowned!"),
            DeathCause::Explosion => String::from_str("You died in an explosion"),
            DeathCause::BlewUpExit => String::from_str("You blew up the exit"),
        }
    }
}

/// Teleport ids run from 1 to 5.
pub open spec fn valid_teleport(c: Cell) -> bool {
    match c {
        Cell::Teleport(n, _) => 1 <= n <= 5,
        _ => true,
    }
}

impl Cell {
    /// The effect of entering a cell of this kind.
    pub open spec fn effect(self) -> CellAction {
        match self {
            Cell::Empty => CellAction::Nothing,
            Cell::Wall => CellAction::Block,
            Cell::Start => CellAction::Nothing,
            Cell::Exit => CellAction::NextLevel,
            Cell::Bomb => CellAction::Explode,
            Cell::Cement => CellAction::Add(Item::Cement, 1),
            Cell::Barrel => CellAction::Block,
            Cell::Money => CellAction::Add(Item::Money, 1),
            Cell::Guard => CellAction::Consume {
                item: Item::Money,
                fail: Branch::Block,
                success: Branch::Nothing,
            },
            Cell::Hole => CellAction::Consume {
                item: Item::Cement,
                fail: Branch::Die(DeathCause::FellInHole),
                success: Branch::Nothing,
            },
            Cell::MetalWall => CellAction::Block,
            Cell::JellyBean => CellAction::Push,
            Cell::Key => CellAction::Add(Item::Key, 1),
            Cell::Lock => CellAction::Consume {
                item: Item::Key,
                fail: Branch::Block,
                success: Branch::Nothing,
            },
            Cell::Gun => CellAction::Shoot,
            Cell::Oxygen => CellAction::Add(Item::Oxygen, 3),
            Cell::Teleport(n, d) => CellAction::Teleport(n, d),
            Cell::Water => CellAction::Consume {
                item: Item::Oxygen,
                fail: Branch::Die(DeathCause::Drowned),
                success: Branch::Nothing,
            },
        }
    }

    /// Sprite frames of the cell in the texture atlas.
    pub open spec fn sprite_frames(self) -> Seq<usize> {
        match self {
            Cell::Empty => seq![26],
            Cell::Wall => seq![6],
            Cell::Start => seq![26],
            Cell::Exit => seq![5],
            Cell::Bomb => seq![1],
            Cell::Cement => seq![20],
            Cell::Barrel => seq![10],
            Cell::Money => seq![13],
            Cell::Guard => seq![14],
            Cell::Hole => seq![4],
            Cell::MetalWall => seq![7],
            Cell::JellyBean => seq![11],
            Cell::Key => seq![2],
            Cell::Lock => seq![3],
            Cell::Gun => seq![9],
            Cell::Oxygen => seq![19],
            Cell::Teleport(n, _) => {
                let b: usize = if n == 1 {
                    15
                } else if n == 2 {
                    21
                } else if n == 3 {
                    27
                } else if n == 4 {
                    33
                } else {
                    39
                };
                seq![b, (b + 1) as usize, (b + 2) as usize]
            },
            Cell::Water => seq![8],
        }
    }

    /// Sprite frames of this cell; one frame, or three for an animated teleporter.
    pub fn indices(&self) -> (r: Vec<usize>)
        requires
            valid_teleport(*self),
        ensures
            r@ == self.sprite_frames(),
    {
        match self {
            Cell::Empty => vec![26],
            Cell::Wall => vec![6],
            Cell::Start => vec![26],
            Cell::Exit => vec![5],
            Cell::Bomb => vec![1],
            Cell::Cement => vec![20],
            Cell::Barrel => vec![10],
            Cell::Money => vec![13],
            Cell::Guard => vec![14],
            Cell::Hole => vec![4],
            Cell::MetalWall => vec![7],
            Cell::JellyBean => vec![11],
            Cell::Key => vec![2],
            Cell::Lock => vec![3],
            Cell::Gun => vec![9],
            Cell::Oxygen => vec![19],
            Cell::Teleport(n, _) => {
                if *n == 1 {
                    vec![15, 16, 17]
                } else if *n == 2 {
                    vec![21, 22, 23]
                } else if *n == 3 {
                    vec![27, 28, 29]
                } else if *n == 4 {
                    vec![33, 34, 35]
                } else {
                    vec![39, 40, 41]
                }
            },
            Cell::Water => vec![8],
        }
    }

    /// The effect of entering this cell.
    pub fn action(&self) -> (r: CellAction)
        ensures
            r == self.effect(),
    {
        match self {
            Cell::Empty => CellAction::Nothing,
            Cell::Wall => CellAction::Block,
            Cell::Start => CellAction::Nothing,
            Cell::Exit => CellAction::NextLevel,
            Cell::Bomb => CellAction::Explode,
            Cell::Cement => CellAction::Add(Item::Cement, 1),
            Cell::Barrel => CellAction::Block,
            Cell::Money => CellAction::Add(Item::Money, 1),
            Cell::Guard => CellAction::Consume {
                item: Item::Money,
                fail: Branch::Block,
                success: Branch::Nothing,
            },
            Cell::Hole => CellAction::Consume {
                item: Item::Cement,
                fail: Branch::Die(DeathCause::FellInHole),
                success: Branch::Nothing,
            },
            Cell::MetalWall => CellAction::Block,
            Cell::JellyBean => CellAction::Push,
            Cell::Key => CellAction::Add(Item::Key, 1),
            Cell::Lock => CellAction::Consume {
                item: Item::Key,
                fail: Branch::Block,
                success: Branch::Nothing,
            },
            Cell::Gun => CellAction::Shoot,
            Cell::Oxygen => CellAction::Add(Item::Oxygen, 3),
            Cell::Teleport(n, d) => CellAction::Teleport(*n, *d),
            Cell::Water => CellAction::Consume {
                item: Item::Oxygen,
                fail: Branch::Die(DeathCause::Drowned),
                success: Branch::Nothing,
            },
        }
    }
}

} // verus!
