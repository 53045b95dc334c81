//! One square of the board.

use vstd::prelude::*;

use crate::text::str_eq;
use crate::xml::{attribute_name, attribute_value, Attribute, LoadError, XmlElement};
use vstd::string::StringExecFns;

verus! {

/// A square of the board: whether it holds a bomb, whether the player has
/// opened it, and whether a flag marks it.
#[derive(Clone, Copy, Debug, Default, PartialEq, Eq, Structural)]
pub struct Field {
    pub is_bomb: bool,
    pub is_opened: bool,
    pub is_flag: bool,
}

/// How a flag of a field is written: `true` or `false`.
pub open spec fn bool_text(b: bool) -> Seq<char> {
    if b {
        "true"@
    } else {
        "false"@
    }
}

/// Reading a flag of a field from attribute `a` of `e`.
pub open spec fn bool_attribute(e: XmlElement, a: Attribute) -> Result<bool, LoadError> {
    match attribute_value(e.attributes@, attribute_name(a)) {
        None => Err(LoadError::MissingAttribute(a)),
        Some(v) => if v == "true"@ {
            Ok(true)
        } else if v == "false"@ {
            Ok(false)
        } else {
            Err(LoadError::InvalidAttribute(a))
        },
    }
}

/// Reading a field from a `field` element: its three flags, in order.
pub open spec fn field_from_element(e: XmlElement) -> Result<Field, LoadError> {
    match bool_attribute(e, Attribute::IsBomb) {
        Err(err) => Err(err),
        Ok(is_bomb) => match bool_attribute(e, Attribute::IsOpened) {
            Err(err) => Err(err),
            Ok(is_opened) => match bool_attribute(e, Attribute::IsFlag) {
                Err(err) => Err(err),
                Ok(is_flag) => Ok(Field { is_bomb, is_opened, is_flag }),
            },
        },
    }
}

/// `e` is the saved form of `f`: a `field` element without children whose
/// attributes are `is_bomb`, `is_opened` and `is_flag`, in this order.
pub open spec fn is_field_element(e: XmlElement, f: Field) -> bool {
    &&& e.name@ == "field"@
    &&& e.children@.len() == 0
    &&& e.attributes@.len() == 3
    &&& e.attributes@[0].0@ == attribute_name(Attribute::IsBomb)
    &&& e.attributes@[0].1@ == bool_text(f.is_bomb)
    &&& e.attributes@[1].0@ == attribute_name(Attribute::IsOpened)
    &&& e.attributes@[1].1@ == bool_text(f.is_opened)
    &&& e.attributes@[2].0@ == attribute_name(Attribute::IsFlag)
    &&& e.attributes@[2].1@ == bool_text(f.is_flag)
}

/// Reading back the saved form of a field gives the same field.
pub proof fn law_field_xml_round_trip(e: XmlElement, f: Field)
    requires
        is_field_element(e, f),
    ensures
        field_from_element(e) == Ok::<Field, LoadError>(f),
{
    reveal_strlit("is_bomb");
    reveal_strlit("is_opened");
    reveal_strlit("is_flag");
    reveal_strlit("true");
    reveal_strlit("false");
    let a = e.attributes@;
    let bomb = attribute_name(Attribute::IsBomb);
    let opened = attribute_name(Attribute::IsOpened);
    let flag = attribute_name(Attribute::IsFlag);
    assert(bomb.len() != opened.len());
    assert(flag.len() != opened.len());
    assert(bomb[3] != flag[3]);
    let a1 = a.drop_first();
    let a2 = a1.drop_first();
    assert(a1[0] == a[1]);
    assert(a2[0] == a[2]);
    assert(attribute_value(a, bomb) == Some(a[0].1@));
    assert(attribute_value(a1, opened) == Some(a[1].1@));
    assert(attribute_value(a, opened) == Some(a[1].1@));
    assert(attribute_value(a2, flag) == Some(a[2].1@));
    assert(attribute_value(a1, flag) == Some(a[2].1@));
    assert(attribute_value(a, flag) == Some(a[2].1@));
    assert("true"@.len() != "false"@.len());
    assert(bool_attribute(e, Attribute::IsBomb) == Ok::<bool, LoadError>(f.is_bomb));
    assert(bool_attribute(e, Attribute::IsOpened) == Ok::<bool, LoadError>(f.is_opened));
    assert(bool_attribute(e, Attribute::IsFlag) == Ok::<bool, LoadError>(f.is_flag));
}

/// The text of a flag: `"true"` or `"false"`.
fn bool_str(b: bool) -> (s: &'static str)
    ensures
        s@ == bool_text(b),
{
    if b {
        "true"
    } else {
        "false"
    }
}

/// Reads a flag from attribute `a` of `e`.
fn read_bool(e: &XmlElement, a: Attribute) -> (r: Result<bool, LoadError>)
    ensures
        r == bool_attribute(*e, a),
{
    match e.get_attribute(a.name()) {
        None => Err(LoadError::MissingAttribute(a)),
        Some(v) => {
            if str_eq(v.as_str(), "true") {
                Ok(true)
            } else if str_eq(v.as_str(), "false") {
                Ok(false)
            } else {
                Err(LoadError::InvalidAttribute(a))
            }
        },
    }
}

impl Field {
    /// The saved form of the field.
    pub fn to_xml(&self) -> (e: XmlElement)
        ensures
            is_field_element(e, *self),
    {
        let mut e = XmlElement::new("field");
        e.attributes.push((String::from_str(Attribute::IsBomb.name()), String::from_str(bool_str(self.is_bomb))));
        e.attributes.push((String::from_str(Attribute::IsOpened.name()), String::from_str(bool_str(self.is_opened))));
        e.attributes.push((String::from_str(Attribute::IsFlag.name()), String::from_str(bool_str(self.is_flag))));
        e
    }

    /// Reads a field from its saved form.
    pub fn from_xml(elem: &XmlElement) -> (r: Result<Field, LoadError>)
        ensures
            r == field_from_element(*elem),
    {
        let is_bomb = match read_bool(elem, Attribute::IsBomb) {
            Ok(b) => b,
            Err(err) => return Err(err),
        };
        let is_opened = match read_bool(elem, Attribute::IsOpened) {
            Ok(b) => b,
            Err(err) => return Err(err),
        };
        let is_flag = match read_bool(elem, Attribute::IsFlag) {
            Ok(b) => b,
            Err(err) => return Err(err),
        };
        Ok(Field { is_bomb, is_opened, is_flag })
    }

    /// A closed, unflagged square without a bomb.
    pub open spec fn closed_spec() -> Field {
        Field { is_bomb: false, is_opened: false, is_flag: false }
    }

    /// A closed, unflagged square without a bomb.
    pub fn closed() -> (f: Field)
        ensures
            f == Field::closed_spec(),
    {
        Field { is_bomb: false, is_opened: false, is_flag: false }
    }
}

} // verus!
