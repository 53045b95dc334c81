//! The saved form of a board: a `board` element with one `row` element per
//! entry of `board`, each holding one `field` element per square.

use vstd::prelude::*;

use crate::board::Board;
use crate::field::{field_from_element, is_field_element, Field};
use crate::text::{decimal, parse_usize, parsed_usize, str_eq};
use crate::xml::{
    attribute_name,
    attribute_value,
    first_child_named,
    Attribute,
    LoadError,
    XmlElement,
    XmlNode,
};

verus! {

/// The fields read from the `field` elements among `nodes`, in order; other
/// nodes are skipped. The first field that does not read is the error.
pub open spec fn parse_row(nodes: Seq<XmlNode>) -> Result<Seq<Field>, LoadError>
    decreases nodes.len(),
{
    if nodes.len() == 0 {
        Ok(seq![])
    } else {
        match parse_row(nodes.drop_last()) {
            Err(err) => Err(err),
            Ok(fields) => match nodes.last() {
                XmlNode::Element(e) => if e.name@ == "field"@ {
                    match field_from_element(e) {
                        Ok(f) => Ok(fields.push(f)),
                        Err(err) => Err(err),
                    }
                } else {
                    Ok(fields)
                },
                _ => Ok(fields),
            },
        }
    }
}

/// The rows read from the `row` elements among `nodes`, in order; other
/// nodes are skipped. The first row that does not read gives the error.
pub open spec fn parse_rows(nodes: Seq<XmlNode>) -> Result<Seq<Seq<Field>>, LoadError>
    decreases nodes.len(),
{
    if nodes.len() == 0 {
        Ok(seq![])
    } else {
        match parse_rows(nodes.drop_last()) {
            Err(err) => Err(err),
            Ok(rows) => match nodes.last() {
                XmlNode::Element(e) => if e.name@ == "row"@ {
                    match parse_row(e.children@) {
                        Ok(r) => Ok(rows.push(r)),
                        Err(err) => Err(err),
                    }
                } else {
                    Ok(rows)
                },
                _ => Ok(rows),
            },
        }
    }
}

/// Reading a number from attribute `a` of `e`.
pub open spec fn usize_attribute(e: XmlElement, a: Attribute) -> Result<usize, LoadError> {
    match attribute_value(e.attributes@, attribute_name(a)) {
        None => Err(LoadError::MissingAttribute(a)),
        Some(v) => match parsed_usize(v) {
            None => Err(LoadError::InvalidAttribute(a)),
            Some(n) => Ok(n),
        },
    }
}

/// Reading a saved board from the element that holds it: the first `board`
/// child, its rows, then its `start_x`, `start_y` and `bomb_count`
/// attributes, in this order.
pub open spec fn board_from_element(elem: XmlElement) -> Result<
    (Seq<Seq<Field>>, usize, usize, usize),
    LoadError,
> {
    match first_child_named(elem.children@, "board"@) {
        None => Err(LoadError::MissingBoard),
        Some(b) => match parse_rows(b.children@) {
            Err(err) => Err(err),
            Ok(rows) => match usize_attribute(b, Attribute::StartX) {
                Err(err) => Err(err),
                Ok(start_x) => match usize_attribute(b, Attribute::StartY) {
                    Err(err) => Err(err),
                    Ok(start_y) => match usize_attribute(b, Attribute::BombCount) {
                        Err(err) => Err(err),
                        Ok(bomb_count) => Ok((rows, start_x, start_y, bomb_count)),
                    },
                },
            },
        },
    }
}

/// `b` is the board read as `(rows, start_x, start_y, bomb_count)`: its
/// `height` is the number of rows and its `width` the length of the first.
pub open spec fn is_loaded_board(b: Board, read: (Seq<Seq<Field>>, usize, usize, usize)) -> bool {
    let rows = read.0;
    &&& b.board@.len() == rows.len()
    &&& forall|i: int| 0 <= i < rows.len() ==> (#[trigger] b.board@[i])@ == rows[i]
    &&& b.height == rows.len()
    &&& b.width == if rows.len() == 0 {
        0
    } else {
        rows[0].len()
    }
    &&& b.start_x == read.1
    &&& b.start_y == read.2
    &&& b.bomb_count == read.3
}

/// `e` is the saved form of `rows`: a `board` element without attributes
/// whose children are one `row` element per row, each holding the saved form
/// of its fields.
pub open spec fn is_board_element(e: XmlElement, rows: Seq<Vec<Field>>) -> bool {
    &&& e.name@ == "board"@
    &&& e.attributes@.len() == 0
    &&& e.children@.len() == rows.len()
    &&& forall|i: int| 0 <= i < rows.len() ==> is_row_node(#[trigger] e.children@[i], rows[i]@)
}

/// `n` is the saved form of one row.
pub open spec fn is_row_node(n: XmlNode, row: Seq<Field>) -> bool {
    match n {
        XmlNode::Element(r) => {
            &&& r.name@ == "row"@
            &&& r.attributes@.len() == 0
            &&& r.children@.len() == row.len()
            &&& forall|j: int| 0 <= j < row.len() ==> is_field_node(#[trigger] r.children@[j], row[j])
        },
        _ => false,
    }
}

/// `n` is the saved form of one field.
pub open spec fn is_field_node(n: XmlNode, f: Field) -> bool {
    match n {
        XmlNode::Element(fe) => is_field_element(fe, f),
        _ => false,
    }
}

/// Once a prefix of the nodes fails to read as a row, so do the nodes.
proof fn lemma_parse_row_error_persists(nodes: Seq<XmlNode>, i: int)
    requires
        0 <= i <= nodes.len(),
        parse_row(nodes.take(i)) is Err,
    ensures
        parse_row(nodes) == parse_row(nodes.take(i)),
    decreases nodes.len() - i,
{
    if i < nodes.len() {
        assert(nodes.take(i + 1).drop_last() =~= nodes.take(i));
        lemma_parse_row_error_persists(nodes, i + 1);
    } else {
        assert(nodes.take(i) =~= nodes);
    }
}

/// Once a prefix of the nodes fails to read as rows, so do the nodes.
proof fn lemma_parse_rows_error_persists(nodes: Seq<XmlNode>, i: int)
    requires
        0 <= i <= nodes.len(),
        parse_rows(nodes.take(i)) is Err,
    ensures
        parse_rows(nodes) == parse_rows(nodes.take(i)),
    decreases nodes.len() - i,
{
    if i < nodes.len() {
        assert(nodes.take(i + 1).drop_last() =~= nodes.take(i));
        lemma_parse_rows_error_persists(nodes, i + 1);
    } else {
        assert(nodes.take(i) =~= nodes);
    }
}

/// Reading back the saved form of a row gives the same fields.
proof fn lemma_row_round_trip(nodes: Seq<XmlNode>, row: Seq<Field>)
    requires
        nodes.len() == row.len(),
        forall|j: int| 0 <= j < row.len() ==> is_field_node(#[trigger] nodes[j], row[j]),
    ensures
        parse_row(nodes) == Ok::<Seq<Field>, LoadError>(row),
    decreases nodes.len(),
{
    if nodes.len() > 0 {
        let n = nodes.drop_last();
        let r = row.drop_last();
        assert forall|j: int| 0 <= j < r.len() implies is_field_node(#[trigger] n[j], r[j]) by {
            assert(n[j] == nodes[j] && r[j] == row[j]);
        }
        lemma_row_round_trip(n, r);
        let last = nodes.last();
        assert(is_field_node(nodes[nodes.len() - 1], row[row.len() - 1]));
        assert(r.push(row.last()) =~= row);
        match last {
            XmlNode::Element(fe) => {
                crate::field::law_field_xml_round_trip(fe, row.last());
                assert(fe.name@ == "field"@);
                assert(parse_row(nodes) == Ok::<Seq<Field>, LoadError>(r.push(row.last())));
            },
            _ => {},
        }
    } else {
        assert(row =~= seq![]);
    }
}

/// Reading back the rows of the saved form of a board gives the board's
/// squares, row by row.
pub proof fn law_board_rows_round_trip(e: XmlElement, rows: Seq<Vec<Field>>)
    requires
        is_board_element(e, rows),
    ensures
        parse_rows(e.children@) matches Ok(read) && read.len() == rows.len() && forall|i: int|
            0 <= i < rows.len() ==> #[trigger] read[i] == rows[i]@,
{
    lemma_rows_round_trip(e.children@, rows);
}

proof fn lemma_rows_round_trip(nodes: Seq<XmlNode>, rows: Seq<Vec<Field>>)
    requires
        nodes.len() == rows.len(),
        forall|i: int| 0 <= i < rows.len() ==> is_row_node(#[trigger] nodes[i], rows[i]@),
    ensures
        parse_rows(nodes) matches Ok(read) && read.len() == rows.len() && forall|i: int|
            0 <= i < rows.len() ==> #[trigger] read[i] == rows[i]@,
    decreases nodes.len(),
{
    if nodes.len() > 0 {
        let n = nodes.drop_last();
        let r = rows.drop_last();
        assert forall|i: int| 0 <= i < r.len() implies is_row_node(#[trigger] n[i], r[i]@) by {
            assert(n[i] == nodes[i] && r[i] == rows[i]);
        }
        lemma_rows_round_trip(n, r);
        assert(is_row_node(nodes[nodes.len() - 1], rows[rows.len() - 1]@));
        match nodes.last() {
            XmlNode::Element(re) => {
                let row = rows.last()@;
                assert(forall|j: int| 0 <= j < row.len() ==> is_field_node(#[trigger] re.children@[j], row[j]));
                lemma_row_round_trip(re.children@, row);
                let prev = parse_rows(n)->Ok_0;
                assert forall|i: int| 0 <= i < rows.len() implies #[trigger] prev.push(row)[i] == rows[i]@ by {
                    if i < r.len() {
                        assert(r[i] == rows[i]);
                    }
                }
            },
            _ => {},
        }
    }
}

/// Looking up an attribute by name finds the first pair of that name,
/// wherever it stands, and finds nothing when no pair has that name.
proof fn lemma_attribute_by_name(attributes: Seq<(String, String)>, key: Seq<char>, i: int)
    requires
        0 <= i <= attributes.len(),
        forall|j: int| 0 <= j < i ==> (#[trigger] attributes[j]).0@ != key,
        i < attributes.len() ==> attributes[i].0@ == key,
    ensures
        attribute_value(attributes, key) == if i < attributes.len() {
            Some(attributes[i].1@)
        } else {
            None::<Seq<char>>
        },
    decreases i,
{
    if i > 0 {
        let rest = attributes.drop_first();
        assert forall|j: int| 0 <= j < i - 1 implies (#[trigger] rest[j]).0@ != key by {
            assert(rest[j] == attributes[j + 1]);
        }
        assert(attributes[0].0@ != key);
        lemma_attribute_by_name(rest, key, i - 1);
        if i < attributes.len() {
            assert(rest[i - 1] == attributes[i]);
        }
    }
}

/// A number attribute is read by name, wherever it stands among the
/// attributes: the first pair named like `a`, at any position `i`, gives the
/// value (or the invalid-attribute error when its text is not a number), and
/// when no pair has that name the attribute is missing.
pub proof fn law_number_attribute_by_name(e: XmlElement, a: Attribute, i: int)
    requires
        0 <= i <= e.attributes@.len(),
        forall|j: int| 0 <= j < i ==> (#[trigger] e.attributes@[j]).0@ != attribute_name(a),
        i < e.attributes@.len() ==> e.attributes@[i].0@ == attribute_name(a),
    ensures
        i == e.attributes@.len() ==> usize_attribute(e, a) == Err::<usize, LoadError>(
            LoadError::MissingAttribute(a),
        ),
        i < e.attributes@.len() ==> usize_attribute(e, a) == match parsed_usize(e.attributes@[i].1@) {
            Some(n) => Ok::<usize, LoadError>(n),
            None => Err(LoadError::InvalidAttribute(a)),
        },
{
    lemma_attribute_by_name(e.attributes@, attribute_name(a), i);
}

/// Loading reads `start_x`, `start_y` and `bomb_count` by name, in whatever
/// order the board element lists them: when the first pairs of those names
/// stand at positions `i`, `j` and `k` and hold the decimal forms of `sx`,
/// `sy` and `n`, and the rows read, the board read back has those values.
pub proof fn law_board_attributes_by_name(
    parent: XmlElement,
    b: XmlElement,
    i: int,
    j: int,
    k: int,
    sx: usize,
    sy: usize,
    n: usize,
)
    requires
        first_child_named(parent.children@, "board"@) == Some(b),
        parse_rows(b.children@) is Ok,
        0 <= i < b.attributes@.len(),
        0 <= j < b.attributes@.len(),
        0 <= k < b.attributes@.len(),
        b.attributes@[i].0@ == attribute_name(Attribute::StartX),
        b.attributes@[j].0@ == attribute_name(Attribute::StartY),
        b.attributes@[k].0@ == attribute_name(Attribute::BombCount),
        forall|m: int| 0 <= m < i ==> (#[trigger] b.attributes@[m]).0@ != attribute_name(Attribute::StartX),
        forall|m: int| 0 <= m < j ==> (#[trigger] b.attributes@[m]).0@ != attribute_name(Attribute::StartY),
        forall|m: int| 0 <= m < k ==> (#[trigger] b.attributes@[m]).0@ != attribute_name(Attribute::BombCount),
        b.attributes@[i].1@ == decimal(sx as nat),
        b.attributes@[j].1@ == decimal(sy as nat),
        b.attributes@[k].1@ == decimal(n as nat),
    ensures
        board_from_element(parent) matches Ok(read) && read.0 == parse_rows(b.children@)->Ok_0 && read.1 == sx
            && read.2 == sy && read.3 == n,
{
    law_number_attribute_by_name(b, Attribute::StartX, i);
    law_number_attribute_by_name(b, Attribute::StartY, j);
    law_number_attribute_by_name(b, Attribute::BombCount, k);
    crate::text::law_parse_reads_back_decimal(sx);
    crate::text::law_parse_reads_back_decimal(sy);
    crate::text::law_parse_reads_back_decimal(n);
}

/// `e` is a saved board as it is read back: a `board` element whose
/// attributes are `start_x`, `start_y` and `bomb_count` with the decimal
/// forms of the numbers, in this order, and whose children are the saved
/// form of `rows`, one `row` element per row.
pub open spec fn is_saved_board(e: XmlElement, rows: Seq<Vec<Field>>, start_x: usize, start_y: usize, bomb_count: usize) -> bool {
    &&& e.name@ == "board"@
    &&& e.attributes@.len() == 3
    &&& e.attributes@[0].0@ == attribute_name(Attribute::StartX)
    &&& e.attributes@[0].1@ == decimal(start_x as nat)
    &&& e.attributes@[1].0@ == attribute_name(Attribute::StartY)
    &&& e.attributes@[1].1@ == decimal(start_y as nat)
    &&& e.attributes@[2].0@ == attribute_name(Attribute::BombCount)
    &&& e.attributes@[2].1@ == decimal(bomb_count as nat)
    &&& e.children@.len() == rows.len()
    &&& forall|i: int| 0 <= i < rows.len() ==> is_row_node(#[trigger] e.children@[i], rows[i]@)
}

/// Saving and loading: an element whose first `board` child is the saved
/// form of a `w` by `h` grid of rows (as `to_xml` writes it) with the start
/// and the bomb count added as decimal attributes reads back the same rows,
/// start and bomb count, with `height` the number of rows (`w`) and `width`
/// the length of a row (`h`): the two sides trade places. The element that
/// `to_xml` returns does not read back by itself, for it has no `board`
/// child.
pub proof fn law_save_load_round_trip(
    parent: XmlElement,
    saved: XmlElement,
    rows: Seq<Vec<Field>>,
    w: nat,
    h: nat,
    start_x: usize,
    start_y: usize,
    bomb_count: usize,
    written: XmlElement,
)
    requires
        first_child_named(parent.children@, "board"@) == Some(saved),
        is_saved_board(saved, rows, start_x, start_y, bomb_count),
        crate::board::is_grid(rows, w, h),
        w > 0,
        is_board_element(written, rows),
    ensures
        board_from_element(parent) matches Ok(read) && read.0.len() == rows.len() && (forall|i: int|
            0 <= i < rows.len() ==> #[trigger] read.0[i] == rows[i]@) && read.1 == start_x && read.2
            == start_y && read.3 == bomb_count && forall|b: Board| #[trigger]
            is_loaded_board(b, read) ==> b.height == w && b.width == h && b.start_x == start_x && b.start_y
            == start_y && b.bomb_count == bomb_count,
        board_from_element(written) == Err::<(Seq<Seq<Field>>, usize, usize, usize), LoadError>(
            LoadError::MissingBoard,
        ),
{
    lemma_rows_round_trip(saved.children@, rows);
    let a = saved.attributes@;
    let sxn = attribute_name(Attribute::StartX);
    let syn = attribute_name(Attribute::StartY);
    let bcn = attribute_name(Attribute::BombCount);
    reveal_strlit("start_x");
    reveal_strlit("start_y");
    reveal_strlit("bomb_count");
    reveal_strlit("board");
    reveal_strlit("row");
    assert(sxn[6] != syn[6]);
    assert(bcn.len() != sxn.len());
    assert(bcn.len() != syn.len());
    let a1 = a.drop_first();
    let a2 = a1.drop_first();
    assert(a1[0] == a[1]);
    assert(a2[0] == a[2]);
    assert(attribute_value(a, sxn) == Some(decimal(start_x as nat)));
    assert(attribute_value(a1, syn) == Some(decimal(start_y as nat)));
    assert(attribute_value(a, syn) == Some(decimal(start_y as nat)));
    assert(attribute_value(a2, bcn) == Some(decimal(bomb_count as nat)));
    assert(attribute_value(a1, bcn) == Some(decimal(bomb_count as nat)));
    assert(attribute_value(a, bcn) == Some(decimal(bomb_count as nat)));
    crate::text::law_parse_reads_back_decimal(start_x);
    crate::text::law_parse_reads_back_decimal(start_y);
    crate::text::law_parse_reads_back_decimal(bomb_count);
    assert(usize_attribute(saved, Attribute::StartX) == Ok::<usize, LoadError>(start_x));
    assert(usize_attribute(saved, Attribute::StartY) == Ok::<usize, LoadError>(start_y));
    assert(usize_attribute(saved, Attribute::BombCount) == Ok::<usize, LoadError>(bomb_count));
    let read = board_from_element(parent)->Ok_0;
    assert(rows[0]@.len() == h);
    assert(read.0[0] == rows[0]@);
    lemma_no_board_among_rows(written.children@, rows);
}

/// The saved rows of a board hold no `board` element.
proof fn lemma_no_board_among_rows(nodes: Seq<XmlNode>, rows: Seq<Vec<Field>>)
    requires
        nodes.len() == rows.len(),
        forall|i: int| 0 <= i < rows.len() ==> is_row_node(#[trigger] nodes[i], rows[i]@),
    ensures
        first_child_named(nodes, "board"@) is None,
    decreases nodes.len(),
{
    reveal_strlit("board");
    reveal_strlit("row");
    if nodes.len() > 0 {
        let n = nodes.drop_first();
        let r = rows.drop_first();
        assert forall|i: int| 0 <= i < r.len() implies is_row_node(#[trigger] n[i], r[i]@) by {
            assert(n[i] == nodes[i + 1] && r[i] == rows[i + 1]);
        }
        lemma_no_board_among_rows(n, r);
        assert(is_row_node(nodes[0], rows[0]@));
        assert("row"@.len() != "board"@.len());
    }
}

/// Reads the `field` elements among `nodes`.
fn read_row(nodes: &Vec<XmlNode>) -> (r: Result<Vec<Field>, LoadError>)
    ensures
        match r {
            Ok(fields) => parse_row(nodes@) == Ok::<Seq<Field>, LoadError>(fields@),
            Err(err) => parse_row(nodes@) == Err::<Seq<Field>, LoadError>(err),
        },
{
    let mut fields: Vec<Field> = Vec::new();
    let mut i: usize = 0;
    while i < nodes.len()
        invariant
            i <= nodes@.len(),
            parse_row(nodes@.take(i as int)) == Ok::<Seq<Field>, LoadError>(fields@),
        decreases nodes@.len() - i,
    {
        assert(nodes@.take(i + 1).drop_last() =~= nodes@.take(i as int));
        assert(nodes@.take(i + 1).last() == nodes@[i as int]);
        match &nodes[i] {
            XmlNode::Element(e) => {
                if str_eq(e.name.as_str(), "field") {
                    match Field::from_xml(e) {
                        Ok(f) => fields.push(f),
                        Err(err) => {
                            proof {
                                lemma_parse_row_error_persists(nodes@, i + 1);
                            }
                            return Err(err);
                        },
                    }
                }
            },
            _ => {},
        }
        i = i + 1;
    }
    assert(nodes@.take(i as int) =~= nodes@);
    Ok(fields)
}

/// Reads the `row` elements among `nodes`.
fn read_rows(nodes: &Vec<XmlNode>) -> (r: Result<Vec<Vec<Field>>, LoadError>)
    ensures
        match r {
            Ok(rows) => parse_rows(nodes@) matches Ok(read) && read.len() == rows@.len() && forall|i: int|
                0 <= i < read.len() ==> (#[trigger] rows@[i])@ == read[i],
            Err(err) => parse_rows(nodes@) == Err::<Seq<Seq<Field>>, LoadError>(err),
        },
{
    let mut rows: Vec<Vec<Field>> = Vec::new();
    let mut i: usize = 0;
    while i < nodes.len()
        invariant
            i <= nodes@.len(),
            parse_rows(nodes@.take(i as int)) matches Ok(read) && read.len() == rows@.len() && forall|k: int|
                0 <= k < read.len() ==> (#[trigger] rows@[k])@ == read[k],
        decreases nodes@.len() - i,
    {
        let ghost prev = rows@;
        assert(nodes@.take(i + 1).drop_last() =~= nodes@.take(i as int));
        assert(nodes@.take(i + 1).last() == nodes@[i as int]);
        match &nodes[i] {
            XmlNode::Element(e) => {
                if str_eq(e.name.as_str(), "row") {
                    match read_row(&e.children) {
                        Ok(fields) => {
                            rows.push(fields);
                            proof {
                                let read = parse_rows(nodes@.take(i + 1))->Ok_0;
                                assert forall|k: int| 0 <= k < read.len() implies (#[trigger] rows@[k])@ == read[k] by {
                                    if k < prev.len() {
                                        assert(rows@[k] == prev[k]);
                                    }
                                }
                            }
                        },
                        Err(err) => {
                            proof {
                                lemma_parse_rows_error_persists(nodes@, i + 1);
                            }
                            return Err(err);
                        },
                    }
                }
            },
            _ => {},
        }
        i = i + 1;
    }
    assert(nodes@.take(i as int) =~= nodes@);
    Ok(rows)
}

/// Reads a number from attribute `a` of `e`.
fn read_usize(e: &XmlElement, a: Attribute) -> (r: Result<usize, LoadError>)
    ensures
        r == usize_attribute(*e, a),
{
    match e.get_attribute(a.name()) {
        None => Err(LoadError::MissingAttribute(a)),
        Some(v) => match parse_usize(v.as_str()) {
            None => Err(LoadError::InvalidAttribute(a)),
            Some(n) => Ok(n),
        },
    }
}

impl Board {
    /// The saved form of the board's squares: a `board` element with one
    /// `row` element per entry of `board`.
    pub fn to_xml(&self) -> (e: XmlElement)
        ensures
            is_board_element(e, self.board@),
    {
        let mut board = XmlElement::new("board");
        let mut x: usize = 0;
        while x < self.board.len()
            invariant
                x <= self.board@.len(),
                board.name@ == "board"@,
                board.attributes@.len() == 0,
                board.children@.len() == x,
                forall|i: int| 0 <= i < x ==> is_row_node(#[trigger] board.children@[i], self.board@[i]@),
            decreases self.board@.len() - x,
        {
            let row = &self.board[x];
            let mut row_elem = XmlElement::new("row");
            let mut y: usize = 0;
            while y < row.len()
                invariant
                    y <= row@.len(),
                    row_elem.name@ == "row"@,
                    row_elem.attributes@.len() == 0,
                    row_elem.children@.len() == y,
                    forall|j: int| 0 <= j < y ==> is_field_node(#[trigger] row_elem.children@[j], row@[j]),
                decreases row@.len() - y,
            {
                let fe = row[y].to_xml();
                row_elem.children.push(XmlNode::Element(fe));
                y = y + 1;
            }
            board.children.push(XmlNode::Element(row_elem));
            x = x + 1;
        }
        board
    }

    /// Reads a saved board from the element that holds it: the first `board`
    /// child gives the rows, one per `row` element, and the `start_x`,
    /// `start_y` and `bomb_count` attributes. The `height` is the number of
    /// rows and the `width` the length of the first row.
    pub fn from_xml(elem: &XmlElement) -> (r: Result<Board, LoadError>)
        ensures
            r is Err <==> board_from_element(*elem) is Err,
            r matches Err(err) ==> board_from_element(*elem) == Err::<
                (Seq<Seq<Field>>, usize, usize, usize),
                LoadError,
            >(err),
            r matches Ok(b) ==> board_from_element(*elem) matches Ok(read) && is_loaded_board(b, read),
    {
        let board_elem = match elem.get_child("board") {
            Some(b) => b,
            None => return Err(LoadError::MissingBoard),
        };
        let board = match read_rows(&board_elem.children) {
            Ok(rows) => rows,
            Err(err) => return Err(err),
        };
        let height = board.len();
        let width = if board.len() > 0 {
            board[0].len()
        } else {
            0
        };
        let start_x = match read_usize(board_elem, Attribute::StartX) {
            Ok(n) => n,
            Err(err) => return Err(err),
        };
        let start_y = match read_usize(board_elem, Attribute::StartY) {
            Ok(n) => n,
            Err(err) => return Err(err),
        };
        let bomb_count = match read_usize(board_elem, Attribute::BombCount) {
            Ok(n) => n,
            Err(err) => return Err(err),
        };
        Ok(Board { board, height, width, start_x, start_y, bomb_count })
    }
}

} // verus!
