//! The instructions section: a tree of steps read from a nested list, each step
//! described by text, ingredient references and timers.
use vstd::prelude::*;
use crate::amount::parse_amount;
use crate::md_parser::{MDError, MDResult, Node};
use crate::unit::{QuantityOf, Time, amount_part, spec_time, unit_part};

verus! {

/// One piece of a step's description.
#[derive(PartialEq, Debug)]
pub enum TextElem {
    Text(String),
    IngredientRef(String),
    Timer(QuantityOf<Time>),
}

/// A step: its description and its sub-steps.
#[derive(PartialEq, Debug)]
pub struct Step {
    pub description: Vec<TextElem>,
    pub substeps: Vec<Step>,
}

/// The steps of a recipe.
#[derive(PartialEq, Debug)]
pub struct Instructions {
    pub steps: Vec<Step>,
}

/// The time quantity that `t` reads as, if any.
pub open spec fn timer_of(t: Seq<char>) -> Option<QuantityOf<Time>> {
    match spec_time(unit_part(t)) {
        Some(unit) => match parse_amount(amount_part(t)) {
            Ok(amount) => Some(QuantityOf { unit, amount }),
            Err(_) => None,
        },
        None => None,
    }
}

/// The inline node is text, an emphasis holding at most one text node, or a
/// strong holding nothing or one text node that reads as a time.
pub open spec fn elem_ok(n: Node) -> bool {
    match n {
        Node::Text { .. } => true,
        Node::Emphasis { children, .. } => children@.len() == 0 || (children@.len() == 1
            && children@[0] is Text),
        Node::Strong { children, .. } => children@.len() == 0 || (children@.len() == 1
            && (children@[0] matches Node::Text { value, .. } && timer_of(value@) is Some)),
        _ => false,
    }
}

/// `e` is what the valid inline node `n` reads as.
pub open spec fn elem_of(e: TextElem, n: Node) -> bool {
    match n {
        Node::Text { value, .. } => e matches TextElem::Text(s) && s@ == value@,
        Node::Emphasis { children, .. } => if children@.len() == 0 {
            e matches TextElem::IngredientRef(s) && s@.len() == 0
        } else {
            e matches TextElem::IngredientRef(s) && (children@[0] matches Node::Text { value, .. }
                && s@ == value@)
        },
        Node::Strong { children, .. } => if children@.len() == 0 {
            e matches TextElem::IngredientRef(s) && s@.len() == 0
        } else {
            children@[0] matches Node::Text { value, .. } && e == TextElem::Timer(
                timer_of(value@)->Some_0,
            )
        },
        _ => false,
    }
}

/// A paragraph whose nodes are all valid inline nodes.
pub open spec fn description_ok(n: Node) -> bool {
    n matches Node::Paragraph { children, .. } && forall|k: int|
        0 <= k < children@.len() ==> elem_ok(#[trigger] children@[k])
}

pub open spec fn description_of(d: Seq<TextElem>, n: Node) -> bool {
    n matches Node::Paragraph { children, .. } && d.len() == children@.len() && forall|k: int|
        0 <= k < d.len() ==> elem_of(#[trigger] d[k], children@[k])
}

/// A list item with no child, a description, or a description and a list of
/// valid steps.
pub open spec fn step_ok(n: Node) -> bool
    decreases n,
{
    match n {
        Node::ListItem { children, .. } => if children@.len() == 0 {
            true
        } else if children@.len() == 1 {
            description_ok(children@[0])
        } else if children@.len() == 2 {
            &&& description_ok(children@[0])
            &&& match children@[1] {
                Node::List { children: sub, .. } => forall|k: int|
                    0 <= k < sub@.len() ==> step_ok(#[trigger] sub@[k]),
                _ => false,
            }
        } else {
            false
        },
        _ => false,
    }
}

/// `s` is what the valid list item `n` reads as.
pub open spec fn step_of(s: Step, n: Node) -> bool
    decreases n,
{
    match n {
        Node::ListItem { children, .. } => if children@.len() == 0 {
            s.description@.len() == 0 && s.substeps@.len() == 0
        } else if children@.len() == 1 {
            description_of(s.description@, children@[0]) && s.substeps@.len() == 0
        } else {
            &&& description_of(s.description@, children@[0])
            &&& match children@[1] {
                Node::List { children: sub, .. } => s.substeps@.len() == sub@.len() && forall|k: int|
                    0 <= k < sub@.len() ==> step_of(#[trigger] s.substeps@[k], sub@[k]),
                _ => false,
            }
        },
        _ => false,
    }
}

/// A list whose items are all valid steps.
pub open spec fn step_list_ok(n: Node) -> bool {
    n matches Node::List { children, .. } && forall|k: int|
        0 <= k < children@.len() ==> step_ok(#[trigger] children@[k])
}

pub open spec fn step_list_of(v: Seq<Step>, n: Node) -> bool {
    n matches Node::List { children, .. } && v.len() == children@.len() && forall|k: int|
        0 <= k < v.len() ==> step_of(#[trigger] v[k], children@[k])
}

/// The section's nodes form a valid instructions section.
pub open spec fn instructions_ok(nodes: Seq<Node>) -> bool {
    nodes.len() == 0 || (nodes.len() == 1 && step_list_ok(nodes[0]))
}

/// `i` is what the valid section `nodes` reads as.
pub open spec fn instructions_of(i: Instructions, nodes: Seq<Node>) -> bool {
    if nodes.len() == 0 {
        i.steps@.len() == 0
    } else {
        step_list_of(i.steps@, nodes[0])
    }
}

impl TextElem {
    /// Reads an inline node: text stays text, emphasis names an ingredient, and
    /// strong holds a time.
    pub fn parse(node: &Node) -> (r: MDResult<TextElem>)
        ensures
            r is Ok <==> elem_ok(*node),
            r matches Ok(e) ==> elem_of(e, *node),
    {
        match node {
            Node::Text { value, .. } => Ok(TextElem::Text(value.clone())),
            Node::Emphasis { children, .. } => {
                if children.len() == 0 {
                    Ok(TextElem::IngredientRef(String::new()))
                } else if children.len() == 1 {
                    match &children[0] {
                        Node::Text { value, .. } => Ok(TextElem::IngredientRef(value.clone())),
                        _ => Err(MDError::new("expected ingredient ref to be text", Some(&children[0]))),
                    }
                } else {
                    Err(MDError::new("expected single children", Some(node)))
                }
            },
            Node::Strong { children, .. } => {
                if children.len() == 0 {
                    Ok(TextElem::IngredientRef(String::new()))
                } else if children.len() == 1 {
                    match &children[0] {
                        Node::Text { value, .. } => match QuantityOf::<Time>::from_str(value.as_str()) {
                            Ok(quantity) => Ok(TextElem::Timer(quantity)),
                            Err(_) => {
                                let mut msg = String::from_str("expected time information but got \"");
                                msg.append(value.as_str());
                                msg.append("\"");
                                Err(MDError { msg, place: children[0].position() })
                            },
                        },
                        _ => Err(MDError::new("expected timer to be text", Some(&children[0]))),
                    }
                } else {
                    Err(MDError::new("expected single children", Some(node)))
                }
            },
            _ => Err(MDError::new("unsupported element in step", Some(node))),
        }
    }
}

impl Step {
    /// Reads a list item into a step.
    pub fn parse(node: &Node) -> (r: MDResult<Step>)
        ensures
            r is Ok <==> step_ok(*node),
            r matches Ok(s) ==> step_of(s, *node),
            node.spec_children() matches Some(c) && c.len() > 2 ==> (r matches Err(e) && e.place
                == node.spec_position()),
        decreases node,
    {
        match node {
            Node::ListItem { children, .. } => {
                if children.len() == 0 {
                    Ok(Step { description: Vec::new(), substeps: Vec::new() })
                } else if children.len() == 1 {
                    let description = Self::parse_description(&children[0])?;
                    Ok(Step { description, substeps: Vec::new() })
                } else if children.len() == 2 {
                    let description = Self::parse_description(&children[0])?;
                    let substeps = Self::parse_step_list(&children[1])?;
                    Ok(Step { description, substeps })
                } else {
                    Err(MDError::new("too many children to list item, expected at most 2", Some(node)))
                }
            },
            _ => Err(MDError::new("expected list item", Some(node))),
        }
    }

    /// Reads a paragraph into the inline elements of a description.
    pub fn parse_description(node: &Node) -> (r: MDResult<Vec<TextElem>>)
        ensures
            r is Ok <==> description_ok(*node),
            r matches Ok(d) ==> description_of(d@, *node),
    {
        match node {
            Node::Paragraph { children, .. } => {
                let mut out: Vec<TextElem> = Vec::new();
                let mut k: usize = 0;
                while k < children.len()
                    invariant
                        k <= children@.len(),
                        node.spec_children() == Some(children@),
                        *node is Paragraph,
                        out@.len() == k,
                        forall|j: int| 0 <= j < k ==> elem_ok(#[trigger] children@[j]),
                        forall|j: int| 0 <= j < k ==> elem_of(#[trigger] out@[j], children@[j]),
                    decreases children@.len() - k,
                {
                    let e = match TextElem::parse(&children[k]) {
                        Ok(e) => e,
                        Err(err) => {
                            assert(!elem_ok(children@[k as int]));
                            return Err(err);
                        },
                    };
                    out.push(e);
                    k = k + 1;
                }
                Ok(out)
            },
            _ => Err(MDError::new("expected paragraph", Some(node))),
        }
    }

    /// Reads a list into steps.
    pub fn parse_step_list(node: &Node) -> (r: MDResult<Vec<Step>>)
        ensures
            r is Ok <==> step_list_ok(*node),
            r matches Ok(v) ==> step_list_of(v@, *node),
        decreases node,
    {
        match node {
            Node::List { children, .. } => {
                let mut out: Vec<Step> = Vec::new();
                let mut k: usize = 0;
                while k < children.len()
                    invariant
                        k <= children@.len(),
                        node.spec_children() == Some(children@),
                        *node is List,
                        out@.len() == k,
                        forall|j: int| 0 <= j < k ==> step_ok(#[trigger] children@[j]),
                        forall|j: int| 0 <= j < k ==> step_of(#[trigger] out@[j], children@[j]),
                    decreases children@.len() - k,
                {
                    let s = match Step::parse(&children[k]) {
                        Ok(s) => s,
                        Err(err) => {
                            assert(!step_ok(children@[k as int]));
                            return Err(err);
                        },
                    };
                    out.push(s);
                    k = k + 1;
                }
                Ok(out)
            },
            _ => Err(MDError::new("expected list", Some(node))),
        }
    }
}

impl Instructions {
    /// Reads the section: no node gives no steps, one node must be a list of
    /// steps, more nodes are an error.
    pub fn parse(nodes: &[Node]) -> (r: MDResult<Instructions>)
        ensures
            nodes@.len() == 0 ==> (r matches Ok(i) && i.steps@.len() == 0),
            nodes@.len() == 1 ==> (r is Ok <==> step_list_ok(nodes@[0])),
            nodes@.len() == 1 ==> (r matches Ok(i) ==> step_list_of(i.steps@, nodes@[0])),
            nodes@.len() > 1 ==> (r matches Err(e) && e.place == nodes@[1].spec_position()),
            r is Ok <==> instructions_ok(nodes@),
            r matches Ok(i) ==> instructions_of(i, nodes@),
    {
        if nodes.len() == 0 {
            Ok(Instructions { steps: Vec::new() })
        } else if nodes.len() == 1 {
            let steps = Step::parse_step_list(&nodes[0])?;
            Ok(Instructions { steps })
        } else {
            Err(MDError::new("expected single list node for steps", Some(&nodes[1])))
        }
    }
}

/// A chain of `d` list items, each nested in the one before, starts at `n`.
pub open spec fn item_reaches(n: Node, d: nat) -> bool
    decreases n,
{
    match n {
        Node::ListItem { children, .. } => if d <= 1 {
            true
        } else if children@.len() == 2 {
            match children@[1] {
                Node::List { children: sub, .. } => exists|k: int|
                    0 <= k < sub@.len() && item_reaches(#[trigger] sub@[k], (d - 1) as nat),
                _ => false,
            }
        } else {
            false
        },
        _ => false,
    }
}

/// A chain of `d` steps, each a sub-step of the one before, starts at `s`.
pub open spec fn step_reaches(s: Step, d: nat) -> bool
    decreases s,
{
    if d <= 1 {
        true
    } else {
        exists|k: int| 0 <= k < s.substeps@.len() && step_reaches(#[trigger] s.substeps@[k], (d - 1) as nat)
    }
}

/// A step read from a list item is as deep as the item's nesting: for every
/// depth, the step tree reaches it exactly when the nested lists do.
pub proof fn lemma_step_depth(s: Step, n: Node, d: nat)
    requires
        step_ok(n),
        step_of(s, n),
    ensures
        step_reaches(s, d) == item_reaches(n, d),
    decreases n,
{
    if d > 1 {
        match n {
            Node::ListItem { children, .. } => {
                if children@.len() == 2 {
                    match children@[1] {
                        Node::List { children: sub, .. } => {
                            assert forall|k: int| 0 <= k < sub@.len() implies step_reaches(
                                #[trigger] s.substeps@[k],
                                (d - 1) as nat,
                            ) == item_reaches(sub@[k], (d - 1) as nat) by {
                                assert(step_ok(sub@[k]));
                                assert(step_of(s.substeps@[k], sub@[k]));
                                lemma_step_depth(s.substeps@[k], sub@[k], (d - 1) as nat);
                            }
                            if step_reaches(s, d) {
                                let k = choose|k: int|
                                    0 <= k < s.substeps@.len() && step_reaches(
                                        #[trigger] s.substeps@[k],
                                        (d - 1) as nat,
                                    );
                                assert(item_reaches(sub@[k], (d - 1) as nat));
                            }
                            if item_reaches(n, d) {
                                let k = choose|k: int|
                                    0 <= k < sub@.len() && item_reaches(#[trigger] sub@[k], (d - 1) as nat);
                                assert(step_reaches(s.substeps@[k], (d - 1) as nat));
                            }
                        },
                        _ => {},
                    }
                } else {
                    assert(s.substeps@.len() == 0);
                }
            },
            _ => {},
        }
    }
}

} // verus!
