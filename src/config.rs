//! The configuration of a panel: its title and layout, its elements with their
//! placement, conditions and action lists, and the actions run at start.

use vstd::prelude::*;

verus! {

/// Constraints on variables, each a name and the value it must have. A name
/// that ends in `!` asks that the variable named without the `!` does not have
/// that value.
pub type Condition = Vec<(String, String)>;

/// One step of an action list.
#[derive(Debug, Clone)]
pub enum Action {
    /// Runs a program (the first word) with arguments (the rest).
    Run { command: Vec<String> },
    /// Shows the captured output in a container.
    Show { container: String },
    /// Stores a value, or the captured output, under a variable name.
    Var { name: String, value: Option<String> },
    /// Offers each line of the captured output as a choice for a variable.
    Options { variable: String, container: String },
    /// Shows the image whose path a variable holds.
    Image { variable: String, container: String },
}

/// Where an element sits in the layout.
#[derive(Debug, Clone)]
pub struct Placement {
    pub spacing: Option<u32>,
    pub x: Option<i32>,
    pub y: Option<i32>,
    pub w: Option<i32>,
    pub h: Option<i32>,
}

/// A button that runs an action list when clicked.
#[derive(Debug, Clone)]
pub struct ButtonNode {
    pub text: String,
    pub on_click: Vec<Action>,
    pub placement: Placement,
    pub active_when: Option<Condition>,
}

/// A group of radio buttons that sets a variable; each option is a value and
/// its label.
#[derive(Debug, Clone)]
pub struct RadioButtonsNode {
    pub variable: String,
    pub options: Vec<(String, String)>,
    pub placement: Placement,
}

/// A text entry that sets a variable.
#[derive(Debug, Clone)]
pub struct InputNode {
    pub variable: String,
    pub placement: Placement,
    pub active_when: Option<Condition>,
}

/// A named area that output, choices and images are shown in.
#[derive(Debug, Clone)]
pub struct ContainerNode {
    pub name: String,
    pub placement: Placement,
}

/// An element of the panel.
#[derive(Debug, Clone)]
pub enum Node {
    Button(ButtonNode),
    RadioButtons(RadioButtonsNode),
    Container(ContainerNode),
    Input(InputNode),
}

/// How the elements are laid out.
#[derive(Debug, Clone)]
pub enum ConfigLayout {
    Vertical { spacing: Option<i32> },
    Horizontal { spacing: Option<i32> },
    Grid,
}

/// A whole panel.
#[derive(Debug, Clone)]
pub struct Config {
    pub title: String,
    pub width: Option<i32>,
    pub height: Option<i32>,
    pub nodes: Vec<Node>,
    pub layout: ConfigLayout,
    pub initialize: Option<Vec<Action>>,
}

/// The views of a list of string pairs.
pub open spec fn pairs_view(c: Seq<(String, String)>) -> Seq<(Seq<char>, Seq<char>)> {
    c.map_values(|p: (String, String)| (p.0@, p.1@))
}

/// The condition that gates an element, if it has one: buttons and inputs may
/// have one, other elements never do.
pub open spec fn node_condition(n: Node) -> Option<Seq<(Seq<char>, Seq<char>)>> {
    match n {
        Node::Button(b) => match b.active_when {
            Some(c) => Some(pairs_view(c@)),
            None => None,
        },
        Node::Input(i) => match i.active_when {
            Some(c) => Some(pairs_view(c@)),
            None => None,
        },
        _ => None,
    }
}

/// The condition that gates an element, if it has one.
pub fn condition_of(n: &Node) -> (r: Option<&Condition>)
    ensures
        match r {
            Some(c) => node_condition(*n) == Some(pairs_view(c@)),
            None => node_condition(*n) is None,
        },
{
    match n {
        Node::Button(b) => b.active_when.as_ref(),
        Node::RadioButtons(_) => None,
        Node::Container(_) => None,
        Node::Input(i) => i.active_when.as_ref(),
    }
}

} // verus!
