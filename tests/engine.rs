use mushroom_man::cell::{Branch, Cell, CellAction, DeathCause, Dir, Item};
use mushroom_man::engine::{Inventory, MoveError, PlayState, Signal};
use mushroom_man::events::{explosion_frame, select_level, MovementEvent};
use mushroom_man::level::Coord;
use mushroom_man::parse::{parse_levels, Levels};

fn pack_with(rows: &[&str]) -> Levels {
    let mut s = String::from("Mushroom Man 3.0\n0\n\nFirst\nme\n");
    for r in rows {
        s.push_str(r);
        s.push('\n');
    }
    s.push('\n');
    for i in 0..99 {
        s.push_str(&format!("L{}\nme\ns e\n\n", i));
    }
    match parse_levels(s.as_bytes()) {
        Ok(p) => p,
        Err(e) => panic!("pack did not parse: {:?}", e),
    }
}

fn play(rows: &[&str]) -> PlayState {
    pack_with(rows).enter_level(0).expect("level 0 exists")
}

fn step(ps: &mut PlayState, r: usize, c: usize) -> Vec<Signal> {
    ps.resolve_move(Coord(r, c)).expect("supported move")
}

#[test]
fn end_to_end_walk_to_the_exit() {
    let mut ps = play(&["sw ", " f ", "  e"]);
    assert_eq!(ps.level.player_pos, Coord(0, 0));
    assert_eq!(step(&mut ps, 0, 1), vec![]);
    assert_eq!(ps.level.player_pos, Coord(0, 0));
    assert_eq!(step(&mut ps, 1, 0), vec![Signal::PositionChanged(Coord(1, 0))]);
    let sig = step(&mut ps, 1, 1);
    assert_eq!(
        sig,
        vec![Signal::CellChanged(Coord(1, 1), Cell::Empty), Signal::PositionChanged(Coord(1, 1))]
    );
    assert_eq!(ps.inventory.get(Item::Money), 1);
    step(&mut ps, 1, 2);
    assert_eq!(ps.level.player_pos, Coord(1, 2));
    let sig = step(&mut ps, 2, 2);
    assert_eq!(sig, vec![Signal::LevelAdvanceRequested(ps.level.number + 1)]);
    assert_eq!(sig, vec![Signal::LevelAdvanceRequested(2)]);
}

#[test]
fn walls_and_guards_block() {
    let mut ps = play(&["sig", "wd "]);
    let before = ps.inventory;
    assert_eq!(step(&mut ps, 0, 1), vec![]);
    assert_eq!(step(&mut ps, 1, 0), vec![]);
    assert_eq!(ps.level.player_pos, Coord(0, 0));
    assert_eq!(ps.inventory, before);
    let mut ps = play(&["s g", "   "]);
    ps.level.player_pos = Coord(0, 1);
    assert_eq!(step(&mut ps, 0, 2), vec![]);
    assert_eq!(ps.level.player_pos, Coord(0, 1));
    assert_eq!(ps.level.cell(Coord(0, 2)), Cell::Guard);
}

#[test]
fn barrel_blocks() {
    let mut ps = play(&["sd"]);
    assert_eq!(step(&mut ps, 0, 1), vec![]);
    assert_eq!(ps.level.player_pos, Coord(0, 0));
    assert_eq!(ps.level.cell(Coord(0, 1)), Cell::Barrel);
}

#[test]
fn money_is_collected_once() {
    let mut ps = play(&["sf"]);
    step(&mut ps, 0, 1);
    assert_eq!(ps.inventory.get(Item::Money), 1);
    assert_eq!(ps.level.cell(Coord(0, 1)), Cell::Empty);
    assert_eq!(ps.level.player_pos, Coord(0, 1));
    assert_eq!(step(&mut ps, 0, 1), vec![Signal::PositionChanged(Coord(0, 1))]);
    assert_eq!(ps.inventory.get(Item::Money), 1);
}

#[test]
fn guard_takes_money() {
    let mut ps = play(&["sfg "]);
    step(&mut ps, 0, 1);
    let sig = step(&mut ps, 0, 2);
    assert_eq!(
        sig,
        vec![Signal::CellChanged(Coord(0, 2), Cell::Empty), Signal::PositionChanged(Coord(0, 2))]
    );
    assert_eq!(ps.inventory.get(Item::Money), 0);
    assert_eq!(ps.level.cell(Coord(0, 2)), Cell::Empty);
}

#[test]
fn oxygen_adds_three_and_water_uses_one() {
    let mut ps = play(&["so~"]);
    step(&mut ps, 0, 1);
    assert_eq!(ps.inventory.get(Item::Oxygen), 3);
    step(&mut ps, 0, 2);
    assert_eq!(ps.inventory.get(Item::Oxygen), 2);
    assert_eq!(ps.level.player_pos, Coord(0, 2));
}

#[test]
fn water_without_oxygen_drowns() {
    let mut ps = play(&["s~"]);
    assert_eq!(step(&mut ps, 0, 1), vec![Signal::PlayerDied(DeathCause::Drowned)]);
    assert_eq!(ps.level.player_pos, Coord(0, 0));
    assert_eq!(DeathCause::Drowned.message(), "You drowned!");
}

#[test]
fn hole_without_cement_kills_and_cement_fills_it() {
    let mut ps = play(&["sh"]);
    assert_eq!(step(&mut ps, 0, 1), vec![Signal::PlayerDied(DeathCause::FellInHole)]);
    let mut ps = play(&["sch"]);
    step(&mut ps, 0, 1);
    assert_eq!(ps.inventory.get(Item::Cement), 1);
    step(&mut ps, 0, 2);
    assert_eq!(ps.inventory.get(Item::Cement), 0);
    assert_eq!(ps.level.player_pos, Coord(0, 2));
}

#[test]
fn key_opens_lock() {
    let mut ps = play(&["slk"]);
    assert_eq!(step(&mut ps, 0, 1), vec![]);
    ps.level.player_pos = Coord(0, 2);
    step(&mut ps, 0, 2);
    assert_eq!(ps.inventory.get(Item::Key), 1);
    ps.level.player_pos = Coord(0, 0);
    step(&mut ps, 0, 1);
    assert_eq!(ps.inventory.get(Item::Key), 0);
    assert_eq!(ps.level.cell(Coord(0, 1)), Cell::Empty);
}

#[test]
fn bomb_next_to_exit_blows_it_up() {
    let mut ps = play(&["sbe", "w  "]);
    let sig = step(&mut ps, 0, 1);
    assert_eq!(sig.last(), Some(&Signal::PlayerDied(DeathCause::BlewUpExit)));
    assert_eq!(ps.level.cell(Coord(0, 2)), Cell::Exit);
    assert_eq!(ps.level.cell(Coord(0, 1)), Cell::Empty);
    assert_eq!(ps.level.cell(Coord(1, 0)), Cell::Empty);
    assert_eq!(ps.level.player_pos, Coord(0, 0));
}

#[test]
fn bomb_clears_its_block_and_spares_metal_and_water() {
    let mut ps = play(&["swww", "wbi ", "w~w "]);
    let sig = step(&mut ps, 1, 1);
    assert_eq!(ps.level.player_pos, Coord(1, 1));
    assert_eq!(sig.last(), Some(&Signal::PositionChanged(Coord(1, 1))));
    assert_eq!(ps.level.cell(Coord(0, 0)), Cell::Empty);
    assert_eq!(ps.level.cell(Coord(0, 2)), Cell::Empty);
    assert_eq!(ps.level.cell(Coord(1, 2)), Cell::MetalWall);
    assert_eq!(ps.level.cell(Coord(2, 1)), Cell::Water);
    assert_eq!(ps.level.cell(Coord(2, 2)), Cell::Empty);
    assert_eq!(ps.level.cell(Coord(0, 3)), Cell::Wall);
}

#[test]
fn bomb_next_to_barrel_kills() {
    let mut ps = play(&["sb", "d "]);
    let sig = step(&mut ps, 0, 1);
    assert_eq!(sig.last(), Some(&Signal::PlayerDied(DeathCause::Explosion)));
    assert_eq!(ps.level.cell(Coord(1, 0)), Cell::Barrel);
    assert_eq!(ps.level.player_pos, Coord(0, 0));
}

#[test]
fn explode_cells_walks_the_block_by_columns() {
    let pack = pack_with(&["s  ", " i ", "   "]);
    let lv = &pack.levels[0];
    let cells = lv.explode_cells(Coord(1, 1));
    assert_eq!(
        cells,
        vec![
            Coord(0, 0),
            Coord(1, 0),
            Coord(2, 0),
            Coord(0, 1),
            Coord(2, 1),
            Coord(0, 2),
            Coord(1, 2),
            Coord(2, 2)
        ]
    );
    assert_eq!(lv.explode_cells(Coord(0, 0)), vec![Coord(0, 0), Coord(1, 0), Coord(0, 1)]);
}

#[test]
fn gun_clears_itself_and_the_next_cell() {
    let mut ps = play(&["snwd"]);
    let sig = step(&mut ps, 0, 1);
    assert_eq!(
        sig,
        vec![
            Signal::CellChanged(Coord(0, 1), Cell::Empty),
            Signal::CellChanged(Coord(0, 2), Cell::Empty),
            Signal::PositionChanged(Coord(0, 1))
        ]
    );
    assert_eq!(ps.level.cell(Coord(0, 3)), Cell::Barrel);
    let mut ps = play(&["sn"]);
    let sig = step(&mut ps, 0, 1);
    assert_eq!(
        sig,
        vec![Signal::CellChanged(Coord(0, 1), Cell::Empty), Signal::PositionChanged(Coord(0, 1))]
    );
}

#[test]
fn gun_clears_a_barrel_behind_it_unchecked() {
    let mut ps = play(&["snd"]);
    step(&mut ps, 0, 1);
    assert_eq!(ps.level.cell(Coord(0, 2)), Cell::Empty);
    assert_eq!(ps.level.player_pos, Coord(0, 1));
}

#[test]
fn push_onto_empty_moves_the_bean() {
    let mut ps = play(&["sj "]);
    let sig = step(&mut ps, 0, 1);
    assert_eq!(
        sig,
        vec![
            Signal::CellChanged(Coord(0, 1), Cell::Empty),
            Signal::CellChanged(Coord(0, 2), Cell::JellyBean),
            Signal::PositionChanged(Coord(0, 1))
        ]
    );
    assert_eq!(ps.level.cell(Coord(0, 1)), Cell::Empty);
    assert_eq!(ps.level.cell(Coord(0, 2)), Cell::JellyBean);
    assert_eq!(ps.level.player_pos, Coord(0, 1));
}

#[test]
fn push_into_wall_or_edge_is_refused() {
    let mut ps = play(&["sjw"]);
    assert_eq!(step(&mut ps, 0, 1), vec![]);
    assert_eq!(ps.level.cell(Coord(0, 1)), Cell::JellyBean);
    assert_eq!(ps.level.cell(Coord(0, 2)), Cell::Wall);
    assert_eq!(ps.level.player_pos, Coord(0, 0));
    let mut ps = play(&["sj"]);
    assert_eq!(step(&mut ps, 0, 1), vec![]);
    assert_eq!(ps.level.cell(Coord(0, 1)), Cell::JellyBean);
    assert_eq!(ps.level.player_pos, Coord(0, 0));
}

#[test]
fn teleport_is_unsupported() {
    let mut ps = play(&["st11"]);
    let r = ps.resolve_move(Coord(0, 1));
    assert_eq!(r, Err(MoveError::UnsupportedEffect(CellAction::Teleport(1, Dir::Up))));
    assert_eq!(ps.level.player_pos, Coord(0, 0));
}

#[test]
fn enter_level_resets_player_and_inventory() {
    let pack = pack_with(&["f s"]);
    let mut ps = pack.enter_level(0).unwrap();
    assert_eq!(ps.level.player_pos, Coord(0, 2));
    ps.level.player_pos = Coord(0, 1);
    step(&mut ps, 0, 0);
    assert_eq!(ps.inventory.get(Item::Money), 1);
    let fresh = pack.enter_level(0).unwrap();
    assert_eq!(fresh.inventory, Inventory::new());
    assert_eq!(fresh.level.cell(Coord(0, 0)), Cell::Money);
    assert!(pack.enter_level(100).is_none());
    assert_eq!(pack.enter_level(5).unwrap().level.number, 6);
}

#[test]
fn every_cell_has_an_action() {
    assert_eq!(Cell::Empty.action(), CellAction::Nothing);
    assert_eq!(Cell::Start.action(), CellAction::Nothing);
    assert_eq!(Cell::Wall.action(), CellAction::Block);
    assert_eq!(Cell::MetalWall.action(), CellAction::Block);
    assert_eq!(Cell::Barrel.action(), CellAction::Block);
    assert_eq!(Cell::Exit.action(), CellAction::NextLevel);
    assert_eq!(Cell::Bomb.action(), CellAction::Explode);
    assert_eq!(Cell::Gun.action(), CellAction::Shoot);
    assert_eq!(Cell::JellyBean.action(), CellAction::Push);
    assert_eq!(Cell::Cement.action(), CellAction::Add(Item::Cement, 1));
    assert_eq!(Cell::Money.action(), CellAction::Add(Item::Money, 1));
    assert_eq!(Cell::Key.action(), CellAction::Add(Item::Key, 1));
    assert_eq!(Cell::Oxygen.action(), CellAction::Add(Item::Oxygen, 3));
    assert_eq!(
        Cell::Guard.action(),
        CellAction::Consume { item: Item::Money, fail: Branch::Block, success: Branch::Nothing }
    );
    assert_eq!(
        Cell::Hole.action(),
        CellAction::Consume {
            item: Item::Cement,
            fail: Branch::Die(DeathCause::FellInHole),
            success: Branch::Nothing
        }
    );
    assert_eq!(
        Cell::Lock.action(),
        CellAction::Consume { item: Item::Key, fail: Branch::Block, success: Branch::Nothing }
    );
    assert_eq!(
        Cell::Water.action(),
        CellAction::Consume {
            item: Item::Oxygen,
            fail: Branch::Die(DeathCause::Drowned),
            success: Branch::Nothing
        }
    );
    assert_eq!(Cell::Teleport(3, Dir::Down).action(), CellAction::Teleport(3, Dir::Down));
}

#[test]
fn sprite_indices() {
    assert_eq!(Cell::Wall.indices(), vec![6]);
    assert_eq!(Cell::Empty.indices(), vec![26]);
    assert_eq!(Cell::Teleport(1, Dir::Up).indices(), vec![15, 16, 17]);
    assert_eq!(Cell::Teleport(5, Dir::Left).indices(), vec![39, 40, 41]);
}

#[test]
fn neighbor_stays_on_the_grid() {
    let pack = pack_with(&["s  ", "   "]);
    let lv = &pack.levels[0];
    assert_eq!(lv.neighbor(Coord(0, 0), (-1, 0)), None);
    assert_eq!(lv.neighbor(Coord(0, 0), (0, -1)), None);
    assert_eq!(lv.neighbor(Coord(0, 2), (0, 1)), None);
    assert_eq!(lv.neighbor(Coord(1, 1), (1, 0)), None);
    assert_eq!(lv.neighbor(Coord(0, 1), (1, 1)), Some(Coord(1, 2)));
}

#[test]
fn input_target_is_clamped() {
    let pack = pack_with(&["s  ", "   "]);
    let lv = &pack.levels[0];
    assert_eq!(lv.input_target(-1, 0), None);
    assert_eq!(lv.input_target(0, -1), None);
    assert_eq!(lv.input_target(1, 0), Some(MovementEvent { pos: Coord(0, 1) }));
    assert_eq!(lv.input_target(0, 1), Some(MovementEvent { pos: Coord(1, 0) }));
    assert_eq!(lv.input_target(5, 5), Some(MovementEvent { pos: Coord(1, 2) }));
}

#[test]
fn level_keys_and_explosion_frames() {
    assert_eq!(select_level(3, true, false), 4);
    assert_eq!(select_level(3, false, true), 2);
    assert_eq!(select_level(0, false, true), 0);
    assert_eq!(select_level(3, false, false), 3);
    assert_eq!(explosion_frame(0), Some(24));
    assert_eq!(explosion_frame(3), Some(31));
    assert_eq!(explosion_frame(4), None);
}

#[test]
fn enter_level_by_number() {
    let pack = pack_with(&["f s"]);
    assert!(pack.enter_level_number(0).is_none());
    assert!(pack.enter_level_number(101).is_none());
    let first = pack.enter_level_number(1).unwrap();
    assert_eq!(first.level.number, 1);
    assert_eq!(first.level.player_pos, Coord(0, 2));
    assert_eq!(pack.enter_level_number(100).unwrap().level.number, 100);
}

#[test]
fn inventory_room_is_checked() {
    let mut inv = Inventory::new();
    assert!(inv.room_left());
    inv.set(Item::Oxygen, usize::MAX - 3);
    assert!(inv.room_left());
    inv.set(Item::Oxygen, usize::MAX - 2);
    assert!(!inv.room_left());
}
