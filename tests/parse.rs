use mushroom_man::cell::{Cell, Dir};
use mushroom_man::level::Coord;
use mushroom_man::parse::{parse_levels, LevelLoadError, Levels};

const HEADER: &str = "Mushroom Man 3.0\n12345\n\n";

fn block(name: &str, rows: &[&str]) -> String {
    let mut s = format!("{}\nsomeone\n", name);
    for r in rows {
        s.push_str(r);
        s.push('\n');
    }
    s.push('\n');
    s
}

fn pack_of(blocks: &[String]) -> Vec<u8> {
    let mut s = String::from(HEADER);
    for b in blocks {
        s.push_str(b);
    }
    s.into_bytes()
}

fn filler(n: usize) -> Vec<String> {
    (0..n).map(|i| block(&format!("Level {}", i), &["s e"])).collect()
}

fn parse_ok(bytes: &[u8]) -> Levels {
    match parse_levels(bytes) {
        Ok(p) => p,
        Err(e) => panic!("unexpected error {:?}", e),
    }
}

fn parse_err(bytes: &[u8]) -> LevelLoadError {
    match parse_levels(bytes) {
        Ok(_) => panic!("expected an error"),
        Err(e) => e,
    }
}

#[test]
fn ninety_nine_levels_are_too_few() {
    assert_eq!(parse_err(&pack_of(&filler(99))), LevelLoadError::TooFewLevels);
    assert_eq!(parse_err(&pack_of(&filler(1))), LevelLoadError::TooFewLevels);
    assert_eq!(parse_err(&pack_of(&[])), LevelLoadError::TooFewLevels);
}

#[test]
fn hundred_levels_are_enough() {
    let p = parse_ok(&pack_of(&filler(100)));
    assert_eq!(p.levels.len(), 100);
    assert_eq!(p.checksum, 12345);
    let p = parse_ok(&pack_of(&filler(101)));
    assert_eq!(p.levels.len(), 101);
}

#[test]
fn short_row_is_padded_with_empty_cells() {
    let mut blocks = vec![block("Padded", &["s   w", "w w", "wwwww"])];
    blocks.extend(filler(99));
    let p = parse_ok(&pack_of(&blocks));
    let lv = &p.levels[0];
    assert_eq!(lv.dim(), (3, 5));
    assert_eq!(lv.cell(Coord(1, 0)), Cell::Wall);
    assert_eq!(lv.cell(Coord(1, 1)), Cell::Empty);
    assert_eq!(lv.cell(Coord(1, 2)), Cell::Wall);
    assert_eq!(lv.cell(Coord(1, 3)), Cell::Empty);
    assert_eq!(lv.cell(Coord(1, 4)), Cell::Empty);
    assert_eq!(lv.cell(Coord(0, 4)), Cell::Wall);
    assert_eq!(lv.cell(Coord(2, 4)), Cell::Wall);
}

#[test]
fn row_wider_than_the_first_is_refused() {
    let mut blocks = vec![block("Wide", &["s e", "wwww"])];
    blocks.extend(filler(99));
    assert_eq!(parse_err(&pack_of(&blocks)), LevelLoadError::BadFormat);
}

#[test]
fn level_without_start_is_refused() {
    let mut blocks = filler(99);
    blocks.push(block("No start", &["w e", "   "]));
    assert_eq!(parse_err(&pack_of(&blocks)), LevelLoadError::NoStart);
}

#[test]
fn start_cell_gives_both_positions() {
    let mut blocks = vec![block("Start", &["www", "w s", "e w"])];
    blocks.extend(filler(99));
    let p = parse_ok(&pack_of(&blocks));
    let lv = &p.levels[0];
    assert_eq!(lv.start_pos, Coord(1, 2));
    assert_eq!(lv.player_pos, Coord(1, 2));
    assert_eq!(lv.cell(Coord(1, 2)), Cell::Start);
}

#[test]
fn first_start_cell_wins() {
    let mut blocks = vec![block("Two starts", &["w s", "s e"])];
    blocks.extend(filler(99));
    let p = parse_ok(&pack_of(&blocks));
    assert_eq!(p.levels[0].start_pos, Coord(0, 2));
}

#[test]
fn levels_are_numbered_from_one() {
    let p = parse_ok(&pack_of(&filler(120)));
    for (i, lv) in p.levels.iter().enumerate() {
        assert_eq!(lv.number, i + 1);
    }
    let again = parse_ok(&pack_of(&filler(100)));
    assert_eq!(again.levels[0].number, 1);
}

#[test]
fn names_and_authors_are_kept() {
    let mut blocks = vec![block("First one", &["s"])];
    blocks.extend(filler(99));
    let p = parse_ok(&pack_of(&blocks));
    assert_eq!(p.levels[0].name, "First one");
    assert_eq!(p.levels[0].author, "someone");
    assert_eq!(p.levels[1].name, "Level 0");
}

#[test]
fn invalid_utf8_in_a_name_is_replaced() {
    let mut bytes = String::from(HEADER).into_bytes();
    bytes.extend_from_slice(b"A\xffB\nme\ns\n\n");
    for b in filler(99) {
        bytes.extend_from_slice(b.as_bytes());
    }
    let p = parse_ok(&bytes);
    assert_eq!(p.levels[0].name, "A\u{FFFD}B");
}

#[test]
fn crlf_line_endings_are_accepted() {
    let mut s = String::from("Mushroom Man 3.0\r\n7\r\n\r\n");
    for i in 0..100 {
        s.push_str(&format!("L{}\r\nme\r\ns e\r\n\r\n", i));
    }
    let p = parse_ok(s.as_bytes());
    assert_eq!(p.levels.len(), 100);
    assert_eq!(p.checksum, 7);
    assert_eq!(p.levels[3].name, "L3");
    assert_eq!(p.levels[0].dim(), (1, 3));
}

#[test]
fn bad_signature_is_refused() {
    let mut bytes = b"Mushroom Man 2.0\n1\n\n".to_vec();
    for b in filler(100) {
        bytes.extend_from_slice(b.as_bytes());
    }
    assert_eq!(parse_err(&bytes), LevelLoadError::BadHeader);
    assert_eq!(parse_err(b""), LevelLoadError::BadHeader);
    assert_eq!(parse_err(b"Mushroom Man 3.0"), LevelLoadError::BadHeader);
}

#[test]
fn bad_checksum_line_is_refused() {
    let mut bytes = b"Mushroom Man 3.0\nabc\n\n".to_vec();
    for b in filler(100) {
        bytes.extend_from_slice(b.as_bytes());
    }
    assert_eq!(parse_err(&bytes), LevelLoadError::BadFormat);
    let mut bytes = b"Mushroom Man 3.0\n4294967296\n\n".to_vec();
    for b in filler(100) {
        bytes.extend_from_slice(b.as_bytes());
    }
    assert_eq!(parse_err(&bytes), LevelLoadError::BadFormat);
}

#[test]
fn largest_checksum_is_read() {
    let mut bytes = b"Mushroom Man 3.0\n4294967295\n\n".to_vec();
    for b in filler(100) {
        bytes.extend_from_slice(b.as_bytes());
    }
    assert_eq!(parse_ok(&bytes).checksum, u32::MAX);
}

#[test]
fn missing_blank_line_after_checksum_is_refused() {
    let mut bytes = b"Mushroom Man 3.0\n1\n".to_vec();
    for b in filler(100) {
        bytes.extend_from_slice(b.as_bytes());
    }
    assert_eq!(parse_err(&bytes), LevelLoadError::BadFormat);
}

#[test]
fn unknown_cell_code_is_refused() {
    let mut blocks = filler(99);
    blocks.push(block("Odd", &["s x"]));
    assert_eq!(parse_err(&pack_of(&blocks)), LevelLoadError::InvalidCharacter);
}

#[test]
fn malformed_teleport_is_refused() {
    let mut blocks = filler(99);
    blocks.push(block("Tele", &["st65"]));
    assert_eq!(parse_err(&pack_of(&blocks)), LevelLoadError::InvalidCharacter);
    let mut blocks = filler(99);
    blocks.push(block("Tele", &["st15"]));
    assert_eq!(parse_err(&pack_of(&blocks)), LevelLoadError::InvalidCharacter);
}

#[test]
fn teleport_tokens_are_decoded() {
    let mut blocks = vec![block("Tele", &["st11t24t53", "e"])];
    blocks.extend(filler(99));
    let p = parse_ok(&pack_of(&blocks));
    let lv = &p.levels[0];
    assert_eq!(lv.dim(), (2, 4));
    assert_eq!(lv.cell(Coord(0, 1)), Cell::Teleport(1, Dir::Up));
    assert_eq!(lv.cell(Coord(0, 2)), Cell::Teleport(2, Dir::Right));
    assert_eq!(lv.cell(Coord(0, 3)), Cell::Teleport(5, Dir::Left));
    assert_eq!(lv.cell(Coord(1, 1)), Cell::Empty);
}

#[test]
fn every_single_cell_code_is_decoded() {
    let mut blocks = vec![block("All", &["wsebcdfghijklno ~"])];
    blocks.extend(filler(99));
    let p = parse_ok(&pack_of(&blocks));
    let lv = &p.levels[0];
    let expected = [
        Cell::Wall,
        Cell::Start,
        Cell::Exit,
        Cell::Bomb,
        Cell::Cement,
        Cell::Barrel,
        Cell::Money,
        Cell::Guard,
        Cell::Hole,
        Cell::MetalWall,
        Cell::JellyBean,
        Cell::Key,
        Cell::Lock,
        Cell::Gun,
        Cell::Oxygen,
        Cell::Empty,
        Cell::Water,
    ];
    assert_eq!(lv.dim(), (1, expected.len()));
    for (i, c) in expected.iter().enumerate() {
        assert_eq!(lv.cell(Coord(0, i)), *c);
    }
}

#[test]
fn unterminated_block_is_refused() {
    let mut bytes = pack_of(&filler(100));
    bytes.extend_from_slice(b"Last\nme\ns e\n");
    assert_eq!(parse_err(&bytes), LevelLoadError::BadFormat);
}

#[test]
fn block_without_rows_is_refused() {
    let mut blocks = filler(100);
    blocks.push(String::from("Empty\nme\n\n"));
    assert_eq!(parse_err(&pack_of(&blocks)), LevelLoadError::BadFormat);
}

#[test]
fn checksum_is_kept_and_accepted() {
    let p = parse_ok(&pack_of(&filler(100)));
    assert_eq!(p.checksum, 12345);
    assert_eq!(p.check_checksum(), Ok(()));
}
