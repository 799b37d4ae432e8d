use rsokoban::board::{Board, Cell};
use rsokoban::document::{str_equal, Attribute, Node};
use rsokoban::level::LevelError;
use rsokoban::pack::{decode_level, decode_pack, load_level_pack};
use rsokoban::xml::parse_document;

fn attribute(name: &str, value: &str) -> Attribute {
    Attribute { name: name.to_string(), value: value.to_string() }
}

fn element(name: &str, attributes: Vec<Attribute>, children: Vec<Node>) -> Node {
    Node { name: name.to_string(), attributes, children, text: None }
}

fn row(text: &str) -> Node {
    Node {
        name: "L".to_string(),
        attributes: Vec::new(),
        children: Vec::new(),
        text: Some(text.to_string()),
    }
}

fn level(width: &str, height: &str, lines: &[&str]) -> Node {
    element(
        "Level",
        vec![attribute("Width", width), attribute("Height", height)],
        lines.iter().map(|line| row(line)).collect(),
    )
}

fn pack(levels: Vec<Node>) -> Node {
    element("SokobanLevels", Vec::new(), vec![element("LevelCollection", Vec::new(), levels)])
}

fn level_fault(level: &Node) -> LevelError {
    match decode_level(level) {
        Ok(_) => panic!("the level was decoded"),
        Err(fault) => fault,
    }
}

fn pack_fault(result: Result<Vec<Board<Cell>>, LevelError>) -> LevelError {
    match result {
        Ok(_) => panic!("the pack was decoded"),
        Err(fault) => fault,
    }
}

const PACK: &str = r#"<?xml version="1.0" encoding="utf-8"?>
<!-- two small levels -->
<SokobanLevels>
  <Title>Two levels</Title>
  <LevelCollection Copyright="nobody" MaxWidth="5" MaxHeight="3">
    <Level Id="first" Width="4" Height="3">
      <L>##  </L>
      <L>@ $.</L>
    </Level>
    <Level Height="2" Id="second" Width="5">
      <L>#+*.#</L>
      <L>#&#x24;</L>
    </Level>
  </LevelCollection>
</SokobanLevels>
"#;

#[test]
fn strings_are_compared_by_their_characters() {
    assert!(str_equal("", ""));
    assert!(str_equal("Level", "Level"));
    assert!(!str_equal("Level", "level"));
    assert!(!str_equal("Level", "Levels"));
    assert!(!str_equal("L", ""));
    assert!(str_equal("größe", "größe"));
    assert!(!str_equal("große", "größe"));
}

#[test]
fn attribute_is_found_by_its_name() {
    let node = element(
        "Level",
        vec![attribute("Id", "one"), attribute("Width", "4"), attribute("Width", "5")],
        Vec::new(),
    );
    assert_eq!(node.attribute("Width").map(|value| value.as_str()), Some("4"));
    assert_eq!(node.attribute("Id").map(|value| value.as_str()), Some("one"));
    assert_eq!(node.attribute("Height"), None);
    assert_eq!(node.attribute("width"), None);
}

#[test]
fn child_is_the_first_of_its_name() {
    let node = element(
        "Root",
        Vec::new(),
        vec![
            element("A", vec![attribute("n", "1")], Vec::new()),
            element("B", vec![attribute("n", "2")], Vec::new()),
            element("A", vec![attribute("n", "3")], Vec::new()),
        ],
    );
    let a = node.child("A").unwrap();
    assert_eq!(a.attribute("n").map(|value| value.as_str()), Some("1"));
    let b = node.child("B").unwrap();
    assert_eq!(b.attribute("n").map(|value| value.as_str()), Some("2"));
    assert!(node.child("C").is_none());
    assert!(a.child("A").is_none());
}

#[test]
fn level_element_with_a_missing_row_is_padded_with_floor() {
    let board = decode_level(&level("4", "3", &["##  ", "@ $."])).unwrap();
    assert_eq!(board.width(), 4);
    assert_eq!(board.height(), 3);
    assert_eq!(board.row(0), &[Cell::Wall, Cell::Wall, Cell::Floor, Cell::Floor]);
    assert_eq!(board.row(1), &[Cell::Player, Cell::Floor, Cell::Box, Cell::Goal]);
    assert_eq!(board.row(2), &[Cell::Floor, Cell::Floor, Cell::Floor, Cell::Floor]);
}

#[test]
fn level_element_with_too_many_rows_is_refused() {
    assert_eq!(level_fault(&level("4", "2", &["#", "#", "#"])), LevelError::TooManyRows);
}

#[test]
fn level_element_with_a_row_too_wide_is_refused() {
    assert_eq!(level_fault(&level("4", "2", &["#####"])), LevelError::RowTooWide);
    assert_eq!(level_fault(&level("1", "1", &["é"])), LevelError::RowTooWide);
}

#[test]
fn level_element_with_an_unknown_character_is_refused() {
    assert_eq!(level_fault(&level("4", "2", &["#", "#?"])), LevelError::UnexpectedCharacter(b'?'));
    assert_eq!(level_fault(&level("4", "1", &["é"])), LevelError::UnexpectedCharacter(0xc3));
}

#[test]
fn level_element_of_another_name_is_refused() {
    let mut other = level("4", "2", &["#"]);
    other.name = "Lavel".to_string();
    assert_eq!(level_fault(&other), LevelError::UnexpectedElement);
}

#[test]
fn level_element_without_a_dimension_is_refused() {
    let no_width = element("Level", vec![attribute("Height", "2")], Vec::new());
    assert_eq!(level_fault(&no_width), LevelError::MissingAttribute);
    let no_height = element("Level", vec![attribute("Width", "2")], Vec::new());
    assert_eq!(level_fault(&no_height), LevelError::MissingAttribute);
}

#[test]
fn level_element_with_a_dimension_that_is_no_number_is_refused() {
    assert_eq!(level_fault(&level("four", "2", &[])), LevelError::InvalidDimension);
    assert_eq!(level_fault(&level("4", "-2", &[])), LevelError::InvalidDimension);
    assert_eq!(level_fault(&level("4", "", &[])), LevelError::InvalidDimension);
    assert_eq!(level_fault(&level("4.0", "2", &[])), LevelError::InvalidDimension);
    assert_eq!(
        level_fault(&level("4", "340282366920938463463374607431768211456", &[])),
        LevelError::InvalidDimension
    );
}

#[test]
fn level_element_too_large_for_the_machine_is_refused() {
    let largest = usize::MAX.to_string();
    assert_eq!(level_fault(&level(&largest, "2", &[])), LevelError::BoardTooLarge);
}

#[test]
fn row_element_of_another_name_is_refused() {
    let mut bad = level("4", "2", &["#", "#"]);
    bad.children[1].name = "M".to_string();
    assert_eq!(level_fault(&bad), LevelError::UnexpectedElement);
}

#[test]
fn row_element_without_text_is_refused() {
    let mut bad = level("4", "2", &["#", "#"]);
    bad.children[0].text = None;
    assert_eq!(level_fault(&bad), LevelError::MissingText);
}

#[test]
fn first_fault_of_a_level_element_is_the_one_reported() {
    let mut bad = level("x", "y", &["#####", "?"]);
    bad.attributes.remove(1);
    bad.name = "Other".to_string();
    assert_eq!(level_fault(&bad), LevelError::UnexpectedElement);
    bad.name = "Level".to_string();
    assert_eq!(level_fault(&bad), LevelError::InvalidDimension);
    bad.attributes[0].value = "4".to_string();
    assert_eq!(level_fault(&bad), LevelError::MissingAttribute);
    bad.attributes.push(attribute("Height", "1"));
    assert_eq!(level_fault(&bad), LevelError::TooManyRows);
    bad.attributes[1].value = "2".to_string();
    assert_eq!(level_fault(&bad), LevelError::RowTooWide);
    bad.children[0].text = Some("# ".to_string());
    assert_eq!(level_fault(&bad), LevelError::UnexpectedCharacter(b'?'));
    bad.children[0].name = "Row".to_string();
    assert_eq!(level_fault(&bad), LevelError::UnexpectedElement);
    bad.children[0].name = "L".to_string();
    bad.children[1].text = None;
    assert_eq!(level_fault(&bad), LevelError::MissingText);
    bad.children[1].text = Some(".".to_string());
    let board = decode_level(&bad).unwrap();
    assert_eq!(board.row(0), &[Cell::Wall, Cell::Floor, Cell::Floor, Cell::Floor]);
    assert_eq!(board.row(1), &[Cell::Goal, Cell::Floor, Cell::Floor, Cell::Floor]);
}

#[test]
fn pack_gives_its_levels_in_order() {
    let root = pack(vec![level("2", "1", &["#@"]), level("1", "2", &["$", "."]), level("0", "0", &[])]);
    let boards = decode_pack(&root).unwrap();
    assert_eq!(boards.len(), 3);
    assert_eq!(boards[0].cells(), &[Cell::Wall, Cell::Player]);
    assert_eq!((boards[0].width(), boards[0].height()), (2, 1));
    assert_eq!(boards[1].cells(), &[Cell::Box, Cell::Goal]);
    assert_eq!((boards[1].width(), boards[1].height()), (1, 2));
    assert_eq!(boards[2].cells().len(), 0);
    let none = decode_pack(&pack(Vec::new())).unwrap();
    assert_eq!(none.len(), 0);
}

#[test]
fn pack_without_a_collection_is_refused() {
    let root = element("SokobanLevels", Vec::new(), vec![element("Title", Vec::new(), Vec::new())]);
    assert_eq!(pack_fault(decode_pack(&root)), LevelError::MissingCollection);
    let nested = element("Outer", Vec::new(), vec![pack(Vec::new())]);
    assert_eq!(pack_fault(decode_pack(&nested)), LevelError::MissingCollection);
}

#[test]
fn pack_reports_the_fault_of_its_first_bad_level() {
    let root = pack(vec![level("2", "1", &["#@"]), level("1", "1", &["$$"]), level("1", "1", &["?"])]);
    assert_eq!(pack_fault(decode_pack(&root)), LevelError::RowTooWide);
    let other = pack(vec![level("1", "1", &["?"]), element("Title", Vec::new(), Vec::new())]);
    assert_eq!(pack_fault(decode_pack(&other)), LevelError::UnexpectedCharacter(b'?'));
    let stray = pack(vec![element("Title", Vec::new(), Vec::new()), level("1", "1", &["?"])]);
    assert_eq!(pack_fault(decode_pack(&stray)), LevelError::UnexpectedElement);
}

#[test]
fn document_is_read_into_a_tree() {
    let root = parse_document(PACK.as_bytes()).unwrap();
    assert_eq!(root.name, "SokobanLevels");
    assert_eq!(root.attributes.len(), 0);
    assert_eq!(root.children.len(), 2);
    assert_eq!(root.text, None);
    let title = &root.children[0];
    assert_eq!(title.name, "Title");
    assert_eq!(title.text.as_deref(), Some("Two levels"));
    assert_eq!(title.children.len(), 0);
    let collection = root.child("LevelCollection").unwrap();
    assert_eq!(collection.attributes.len(), 3);
    assert_eq!(collection.attribute("MaxWidth").map(|value| value.as_str()), Some("5"));
    assert_eq!(collection.children.len(), 2);
    let second = &collection.children[1];
    assert_eq!(second.name, "Level");
    assert_eq!(second.attribute("Id").map(|value| value.as_str()), Some("second"));
    assert_eq!(second.attribute("Width").map(|value| value.as_str()), Some("5"));
    assert_eq!(second.attribute("Height").map(|value| value.as_str()), Some("2"));
    assert_eq!(second.children.len(), 2);
    assert_eq!(second.children[0].name, "L");
    assert_eq!(second.children[0].text.as_deref(), Some("#+*.#"));
    assert_eq!(second.children[1].text.as_deref(), Some("#$"));
}

#[test]
fn document_that_is_not_well_formed_is_not_read() {
    assert!(parse_document(b"").is_none());
    assert!(parse_document(b"no markup at all").is_none());
    assert!(parse_document(b"<a><b></a>").is_none());
    assert!(parse_document(b"<a>").is_none());
    assert!(parse_document(&[0xff, 0xfe, 0x00]).is_none());
    assert!(parse_document(b"<a/>").is_some());
}

#[test]
fn level_pack_is_loaded_from_a_file() {
    let boards = load_level_pack(PACK.as_bytes()).unwrap();
    assert_eq!(boards.len(), 2);
    assert_eq!((boards[0].width(), boards[0].height()), (4, 3));
    assert_eq!(boards[0].row(0), &[Cell::Wall, Cell::Wall, Cell::Floor, Cell::Floor]);
    assert_eq!(boards[0].row(1), &[Cell::Player, Cell::Floor, Cell::Box, Cell::Goal]);
    assert_eq!(boards[0].row(2), &[Cell::Floor, Cell::Floor, Cell::Floor, Cell::Floor]);
    assert_eq!((boards[1].width(), boards[1].height()), (5, 2));
    assert_eq!(
        boards[1].row(0),
        &[Cell::Wall, Cell::PlayerOnGoal, Cell::BoxOnGoal, Cell::Goal, Cell::Wall]
    );
    assert_eq!(
        boards[1].row(1),
        &[Cell::Wall, Cell::Box, Cell::Floor, Cell::Floor, Cell::Floor]
    );
    assert_eq!(boards[0].dump_ascii(), b"##  \n@ $.\n    \n".to_vec());
}

#[test]
fn level_pack_that_is_not_well_formed_is_refused() {
    assert_eq!(pack_fault(load_level_pack(b"<SokobanLevels>")), LevelError::MalformedDocument);
    assert_eq!(pack_fault(load_level_pack(b"")), LevelError::MalformedDocument);
}

#[test]
fn level_pack_file_with_a_fault_is_refused() {
    let no_collection = b"<SokobanLevels><Title>none</Title></SokobanLevels>";
    assert_eq!(pack_fault(load_level_pack(no_collection)), LevelError::MissingCollection);
    let too_many = b"<P><LevelCollection><Level Width='1' Height='2'><L>#</L><L>#</L><L>#</L></Level></LevelCollection></P>";
    assert_eq!(pack_fault(load_level_pack(too_many)), LevelError::TooManyRows);
    let too_wide = b"<P><LevelCollection><Level Width='1' Height='2'><L>##</L></Level></LevelCollection></P>";
    assert_eq!(pack_fault(load_level_pack(too_wide)), LevelError::RowTooWide);
    let blank = b"<P><LevelCollection><Level Width='1' Height='2'><L>#</L><L> </L></Level></LevelCollection></P>";
    assert_eq!(pack_fault(load_level_pack(blank)), LevelError::MissingText);
    let unknown = b"<P><LevelCollection><Level Width='3' Height='2'><L>#a#</L></Level></LevelCollection></P>";
    assert_eq!(pack_fault(load_level_pack(unknown)), LevelError::UnexpectedCharacter(b'a'));
    let stray = b"<P><LevelCollection><Lovel Width='3' Height='2'/></LevelCollection></P>";
    assert_eq!(pack_fault(load_level_pack(stray)), LevelError::UnexpectedElement);
    let unsized_level = b"<P><LevelCollection><Level Width='3'/></LevelCollection></P>";
    assert_eq!(pack_fault(load_level_pack(unsized_level)), LevelError::MissingAttribute);
    let wordy = b"<P><LevelCollection><Level Width='3' Height='three'/></LevelCollection></P>";
    assert_eq!(pack_fault(load_level_pack(wordy)), LevelError::InvalidDimension);
}
