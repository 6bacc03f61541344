//! Descriptions of applications and accessible nodes, and scroll directions.

use vstd::prelude::*;

use crate::text::{ascii_lower, chars_of, chars_eq, lemma_ascii_lower_idempotent, lowercase_chars, owned};

verus! {

/// A running accessible application.
#[derive(Debug, PartialEq, Eq)]
pub struct AppDescriptor {
    pub name: String,
    pub pid: u32,
}

/// The value of an [`AppDescriptor`].
pub struct AppView {
    pub name: Seq<char>,
    pub pid: u32,
}

impl DeepView for AppDescriptor {
    type V = AppView;

    open spec fn deep_view(&self) -> AppView {
        AppView { name: self.name@, pid: self.pid }
    }
}

impl Clone for AppDescriptor {
    fn clone(&self) -> (r: Self)
        ensures
            r == *self,
    {
        AppDescriptor { name: self.name.clone(), pid: self.pid }
    }
}

impl AppDescriptor {
    /// An application called `name` running as process `pid`.
    pub fn new(name: &str, pid: u32) -> (r: Self)
        ensures
            r.name@ == name@,
            r.pid == pid,
    {
        AppDescriptor { name: owned(name), pid }
    }
}

/// An accessible node found by a locator.
#[derive(Debug, PartialEq, Eq)]
pub struct NodeDescriptor {
    pub locator: String,
    pub text: Option<String>,
    pub visible: bool,
    pub sensitive: bool,
}

/// The value of a [`NodeDescriptor`].
pub struct NodeView {
    pub locator: Seq<char>,
    pub text: Option<Seq<char>>,
    pub visible: bool,
    pub sensitive: bool,
}

impl DeepView for NodeDescriptor {
    type V = NodeView;

    open spec fn deep_view(&self) -> NodeView {
        NodeView {
            locator: self.locator@,
            text: match self.text {
                Some(t) => Some(t@),
                None => None,
            },
            visible: self.visible,
            sensitive: self.sensitive,
        }
    }
}

impl Clone for NodeDescriptor {
    fn clone(&self) -> (r: Self)
        ensures
            r == *self,
    {
        let text = match &self.text {
            Some(t) => Some(t.clone()),
            None => None,
        };
        NodeDescriptor {
            locator: self.locator.clone(),
            text,
            visible: self.visible,
            sensitive: self.sensitive,
        }
    }
}

impl NodeDescriptor {
    /// A visible, non-sensitive node without text, found by `locator`.
    pub fn new(locator: &str) -> (r: Self)
        ensures
            r.locator@ == locator@,
            r.text is None,
            r.visible,
            !r.sensitive,
    {
        NodeDescriptor { locator: owned(locator), text: None, visible: true, sensitive: false }
    }
}

/// A direction to scroll in.
#[derive(Clone, Copy, Debug, PartialEq, Eq, Structural)]
pub enum ScrollDirection {
    Up,
    Down,
    Left,
    Right,
}

/// The direction named by `s`, ignoring ASCII case.
pub open spec fn parse_direction(s: Seq<char>) -> Option<ScrollDirection> {
    let l = ascii_lower(s);
    if l == "up"@ {
        Some(ScrollDirection::Up)
    } else if l == "down"@ {
        Some(ScrollDirection::Down)
    } else if l == "left"@ {
        Some(ScrollDirection::Left)
    } else if l == "right"@ {
        Some(ScrollDirection::Right)
    } else {
        None
    }
}

/// The name of a direction as written in event logs (`Up`, `Down`, ...).
pub open spec fn direction_name(d: ScrollDirection) -> Seq<char> {
    match d {
        ScrollDirection::Up => "Up"@,
        ScrollDirection::Down => "Down"@,
        ScrollDirection::Left => "Left"@,
        ScrollDirection::Right => "Right"@,
    }
}

impl ScrollDirection {
    /// Parses `up`, `down`, `left` or `right` in any ASCII case.
    pub fn parse(input: &str) -> (r: Option<Self>)
        ensures
            r == parse_direction(input@),
    {
        let raw = chars_of(input);
        let lowered = lowercase_chars(&raw);
        if chars_eq(&lowered, &chars_of("up")) {
            Some(ScrollDirection::Up)
        } else if chars_eq(&lowered, &chars_of("down")) {
            Some(ScrollDirection::Down)
        } else if chars_eq(&lowered, &chars_of("left")) {
            Some(ScrollDirection::Left)
        } else if chars_eq(&lowered, &chars_of("right")) {
            Some(ScrollDirection::Right)
        } else {
            None
        }
    }

    /// The name of the direction, as `Debug` prints it.
    pub fn name(&self) -> (s: String)
        ensures
            s@ == direction_name(*self),
    {
        match self {
            ScrollDirection::Up => owned("Up"),
            ScrollDirection::Down => owned("Down"),
            ScrollDirection::Left => owned("Left"),
            ScrollDirection::Right => owned("Right"),
        }
    }
}

/// Parsing ignores case: a direction parses the same as its lower-case form.
pub proof fn lemma_parse_direction_ignores_case(s: Seq<char>)
    ensures
        parse_direction(ascii_lower(s)) == parse_direction(s),
{
    lemma_ascii_lower_idempotent(s);
}


/// A parsed direction is the one its name says: the input and the
/// direction's name agree up to ASCII case.
pub proof fn lemma_parsed_direction_named(s: Seq<char>)
    ensures
        parse_direction(s) matches Some(d) ==> ascii_lower(s) == ascii_lower(direction_name(d)),
{
    reveal_strlit("up");
    reveal_strlit("down");
    reveal_strlit("left");
    reveal_strlit("right");
    reveal_strlit("Up");
    reveal_strlit("Down");
    reveal_strlit("Left");
    reveal_strlit("Right");
    assert(ascii_lower("Up"@) =~= "up"@);
    assert(ascii_lower("Down"@) =~= "down"@);
    assert(ascii_lower("Left"@) =~= "left"@);
    assert(ascii_lower("Right"@) =~= "right"@);
}

/// Every direction parses back from its name.
pub proof fn lemma_direction_name_parses(d: ScrollDirection)
    ensures
        parse_direction(direction_name(d)) == Some(d),
{
    reveal_strlit("up");
    reveal_strlit("down");
    reveal_strlit("left");
    reveal_strlit("right");
    reveal_strlit("Up");
    reveal_strlit("Down");
    reveal_strlit("Left");
    reveal_strlit("Right");
    assert(ascii_lower("Up"@) =~= "up"@);
    assert(ascii_lower("Down"@) =~= "down"@);
    assert(ascii_lower("Left"@) =~= "left"@);
    assert(ascii_lower("Right"@) =~= "right"@);
    assert("up"@.len() != "down"@.len());
    assert("up"@.len() != "left"@.len());
    assert("up"@.len() != "right"@.len());
    assert("down"@[0] != "left"@[0]);
    assert("down"@.len() != "right"@.len());
    assert("left"@.len() != "right"@.len());
}

} // verus!
