//! An XML element tree as plain values: what a saved game is written to and
//! read from.

use vstd::prelude::*;

use crate::text::str_eq;
use vstd::string::StringExecFns;

verus! {

/// An XML element: its name, its attributes in order, and its children.
pub struct XmlElement {
    pub name: String,
    pub attributes: Vec<(String, String)>,
    pub children: Vec<XmlNode>,
}

/// A node among an element's children.
pub enum XmlNode {
    Element(XmlElement),
    Comment(String),
    CData(String),
    Text(String),
    ProcessingInstruction(String, Option<String>),
}

/// The attributes that a saved game holds.
#[derive(Clone, Copy, Debug, PartialEq, Eq, Structural)]
pub enum Attribute {
    StartX,
    StartY,
    BombCount,
    IsBomb,
    IsOpened,
    IsFlag,
}

/// Why a saved game could not be read.
#[derive(Clone, Copy, Debug, PartialEq, Eq, Structural)]
pub enum LoadError {
    /// The element holds no `board` child.
    MissingBoard,
    /// The attribute is absent.
    MissingAttribute(Attribute),
    /// The attribute's value does not parse.
    InvalidAttribute(Attribute),
}

/// The name of an attribute in the saved form.
pub open spec fn attribute_name(a: Attribute) -> Seq<char> {
    match a {
        Attribute::StartX => "start_x"@,
        Attribute::StartY => "start_y"@,
        Attribute::BombCount => "bomb_count"@,
        Attribute::IsBomb => "is_bomb"@,
        Attribute::IsOpened => "is_opened"@,
        Attribute::IsFlag => "is_flag"@,
    }
}

impl Attribute {
    /// The name of the attribute in the saved form.
    pub fn name(&self) -> (n: &'static str)
        ensures
            n@ == attribute_name(*self),
    {
        match self {
            Attribute::StartX => "start_x",
            Attribute::StartY => "start_y",
            Attribute::BombCount => "bomb_count",
            Attribute::IsBomb => "is_bomb",
            Attribute::IsOpened => "is_opened",
            Attribute::IsFlag => "is_flag",
        }
    }
}

/// The first child element of `nodes` named `name`.
pub open spec fn first_child_named(nodes: Seq<XmlNode>, name: Seq<char>) -> Option<XmlElement>
    decreases nodes.len(),
{
    if nodes.len() == 0 {
        None
    } else {
        match nodes[0] {
            XmlNode::Element(e) => if e.name@ == name {
                Some(e)
            } else {
                first_child_named(nodes.drop_first(), name)
            },
            _ => first_child_named(nodes.drop_first(), name),
        }
    }
}

/// The value of the first attribute named `key`.
pub open spec fn attribute_value(attributes: Seq<(String, String)>, key: Seq<char>) -> Option<Seq<char>>
    decreases attributes.len(),
{
    if attributes.len() == 0 {
        None
    } else if attributes[0].0@ == key {
        Some(attributes[0].1@)
    } else {
        attribute_value(attributes.drop_first(), key)
    }
}

impl XmlElement {
    /// An element named `name` without attributes or children.
    pub fn new(name: &str) -> (e: XmlElement)
        ensures
            e.name@ == name@,
            e.attributes@.len() == 0,
            e.children@.len() == 0,
    {
        XmlElement { name: String::from_str(name), attributes: Vec::new(), children: Vec::new() }
    }

    /// The first child element named `name`.
    pub fn get_child(&self, name: &str) -> (child: Option<&XmlElement>)
        ensures
            match child {
                Some(c) => first_child_named(self.children@, name@) == Some(*c),
                None => first_child_named(self.children@, name@) is None,
            },
    {
        let mut i: usize = 0;
        assert(self.children@.skip(0) =~= self.children@);
        while i < self.children.len()
            invariant
                i <= self.children@.len(),
                first_child_named(self.children@, name@) == first_child_named(
                    self.children@.skip(i as int),
                    name@,
                ),
            decreases self.children@.len() - i,
        {
            let ghost rest = self.children@.skip(i as int);
            assert(rest.drop_first() =~= self.children@.skip(i + 1));
            assert(rest[0] == self.children@[i as int]);
            match &self.children[i] {
                XmlNode::Element(e) => {
                    if str_eq(e.name.as_str(), name) {
                        return Some(e);
                    }
                },
                _ => {},
            }
            i = i + 1;
        }
        None
    }

    /// The value of the first attribute named `key`.
    pub fn get_attribute(&self, key: &str) -> (value: Option<&String>)
        ensures
            match value {
                Some(v) => attribute_value(self.attributes@, key@) == Some(v@),
                None => attribute_value(self.attributes@, key@) is None,
            },
    {
        let mut i: usize = 0;
        assert(self.attributes@.skip(0) =~= self.attributes@);
        while i < self.attributes.len()
            invariant
                i <= self.attributes@.len(),
                attribute_value(self.attributes@, key@) == attribute_value(
                    self.attributes@.skip(i as int),
                    key@,
                ),
            decreases self.attributes@.len() - i,
        {
            let ghost rest = self.attributes@.skip(i as int);
            assert(rest.drop_first() =~= self.attributes@.skip(i + 1));
            assert(rest[0] == self.attributes@[i as int]);
            let pair = &self.attributes[i];
            if str_eq(pair.0.as_str(), key) {
                return Some(&pair.1);
            }
            i = i + 1;
        }
        None
    }
}

} // verus!
