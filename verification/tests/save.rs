use winesmeeper::board::Board;
use winesmeeper::field::Field;
use winesmeeper::xml::{Attribute, LoadError, XmlElement, XmlNode};

fn element(name: &str, attributes: &[(&str, &str)], children: Vec<XmlNode>) -> XmlElement {
    XmlElement {
        name: name.to_string(),
        attributes: attributes.iter().map(|(k, v)| (k.to_string(), v.to_string())).collect(),
        children,
    }
}

fn field_node(bomb: &str, opened: &str, flag: &str) -> XmlNode {
    XmlNode::Element(element("field", &[("is_bomb", bomb), ("is_opened", opened), ("is_flag", flag)], vec![]))
}

fn saved(board_attrs: &[(&str, &str)], rows: Vec<XmlNode>) -> XmlElement {
    element("game", &[], vec![XmlNode::Text("x".to_string()), XmlNode::Element(element("board", board_attrs, rows))])
}

const ATTRS: [(&str, &str); 3] = [("start_x", "1"), ("start_y", "+2"), ("bomb_count", "3")];

#[test]
fn field_xml_round_trip() {
    for bits in 0..8u8 {
        let f = Field { is_bomb: bits & 1 != 0, is_opened: bits & 2 != 0, is_flag: bits & 4 != 0 };
        let e = f.to_xml();
        assert_eq!(e.name, "field");
        assert_eq!(Field::from_xml(&e), Ok(f));
    }
}

#[test]
fn field_from_xml_errors() {
    let e = element("field", &[("is_bomb", "true"), ("is_opened", "yes"), ("is_flag", "false")], vec![]);
    assert_eq!(Field::from_xml(&e), Err(LoadError::InvalidAttribute(Attribute::IsOpened)));
    let e = element("field", &[("is_bomb", "true"), ("is_opened", "false")], vec![]);
    assert_eq!(Field::from_xml(&e), Err(LoadError::MissingAttribute(Attribute::IsFlag)));
}

#[test]
fn to_xml_writes_rows_of_fields() {
    let f = Field { is_bomb: true, is_opened: false, is_flag: false };
    let b = Board { board: vec![vec![f; 3]; 2], width: 2, height: 3, start_x: 0, start_y: 0, bomb_count: 6 };
    let e = b.to_xml();
    assert_eq!(e.name, "board");
    assert!(e.attributes.is_empty());
    assert_eq!(e.children.len(), 2);
    for row in &e.children {
        match row {
            XmlNode::Element(r) => {
                assert_eq!(r.name, "row");
                assert_eq!(r.children.len(), 3);
            }
            _ => panic!("row is not an element"),
        }
    }
    let wrapped = element("game", &ATTRS, vec![XmlNode::Element(XmlElement { attributes: ATTRS.iter().map(|(k, v)| (k.to_string(), v.to_string())).collect(), ..e })]);
    let back = Board::from_xml(&wrapped).unwrap();
    assert_eq!(back.board, b.board);
}

#[test]
fn from_xml_reads_rows_and_attributes() {
    let rows = vec![
        XmlNode::Element(element("row", &[], vec![field_node("true", "false", "false"), XmlNode::Comment("c".to_string()), field_node("false", "true", "false")])),
        XmlNode::Element(element("other", &[], vec![])),
        XmlNode::Element(element("row", &[], vec![field_node("false", "false", "true")])),
    ];
    let b = Board::from_xml(&saved(&ATTRS, rows)).unwrap();
    assert_eq!(b.height, 2);
    assert_eq!(b.width, 2);
    assert_eq!((b.start_x, b.start_y, b.bomb_count), (1, 2, 3));
    assert_eq!(b.board[0], vec![
        Field { is_bomb: true, is_opened: false, is_flag: false },
        Field { is_bomb: false, is_opened: true, is_flag: false },
    ]);
    assert_eq!(b.board[1], vec![Field { is_bomb: false, is_opened: false, is_flag: true }]);
}

#[test]
fn from_xml_errors() {
    let e = element("game", &[], vec![]);
    assert_eq!(Board::from_xml(&e).unwrap_err(), LoadError::MissingBoard);
    let e = saved(&[("start_y", "1"), ("bomb_count", "3")], vec![]);
    assert_eq!(Board::from_xml(&e).unwrap_err(), LoadError::MissingAttribute(Attribute::StartX));
    let e = saved(&[("start_x", "1"), ("start_y", "-1"), ("bomb_count", "3")], vec![]);
    assert_eq!(Board::from_xml(&e).unwrap_err(), LoadError::InvalidAttribute(Attribute::StartY));
    let e = saved(&[("start_x", "1"), ("start_y", "1"), ("bomb_count", "99999999999999999999999")], vec![]);
    assert_eq!(Board::from_xml(&e).unwrap_err(), LoadError::InvalidAttribute(Attribute::BombCount));
    let rows = vec![XmlNode::Element(element("row", &[], vec![field_node("maybe", "false", "false")]))];
    assert_eq!(Board::from_xml(&saved(&[], rows)).unwrap_err(), LoadError::InvalidAttribute(Attribute::IsBomb));
}

#[test]
fn get_child_and_get_attribute_find_the_first_match() {
    let e = element("a", &[("k", "1"), ("k", "2")], vec![
        XmlNode::Text("t".to_string()),
        XmlNode::Element(element("b", &[("n", "first")], vec![])),
        XmlNode::Element(element("b", &[("n", "second")], vec![])),
    ]);
    assert_eq!(e.get_attribute("k").unwrap(), "1");
    assert!(e.get_attribute("z").is_none());
    assert_eq!(e.get_child("b").unwrap().get_attribute("n").unwrap(), "first");
    assert!(e.get_child("c").is_none());
}

#[test]
fn save_load_round_trip_swaps_sides() {
    let b = Board::new(10, 12, 3, 4, 20).unwrap();
    let mut saved = b.to_xml();
    assert_eq!(Board::from_xml(&saved).unwrap_err(), LoadError::MissingBoard);
    saved.attributes = vec![
        ("start_x".to_string(), "3".to_string()),
        ("start_y".to_string(), "4".to_string()),
        ("bomb_count".to_string(), "20".to_string()),
    ];
    let parent = element("game", &[], vec![XmlNode::Element(saved)]);
    let back = Board::from_xml(&parent).unwrap();
    assert_eq!(back.board, b.board);
    assert_eq!((back.start_x, back.start_y, back.bomb_count), (3, 4, 20));
    assert_eq!((back.height, back.width), (10, 12));
}
