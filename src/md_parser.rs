//! The block and inline nodes of a markdown document, the error type that all
//! parsers report, a forward cursor over sibling nodes, and the structural checks
//! that delimit sections.
use vstd::prelude::*;
use crate::yaml::YamlValue;
use crate::amount::digits_of;
use crate::text::string_of;

verus! {

/// A place in the source text.
#[derive(Clone, Copy, Debug, PartialEq, Eq, Structural)]
pub struct Point {
    pub line: usize,
    pub column: usize,
    pub offset: usize,
}

/// The span of a node in the source text.
#[derive(Clone, Copy, Debug, PartialEq, Eq, Structural)]
pub struct Position {
    pub start: Point,
    pub end: Point,
}

/// The raw text of a frontmatter block and the YAML documents loaded from it.
#[derive(Debug, PartialEq)]
pub struct Frontmatter {
    pub value: String,
    pub documents: Result<Vec<YamlValue>, MDError>,
}

/// A node of a markdown document. `Other` stands for every kind that recipes do
/// not use, with its children when that kind can have any.
#[derive(Debug, PartialEq)]
pub enum Node {
    Heading { depth: u8, children: Vec<Node>, position: Option<Position> },
    List { children: Vec<Node>, position: Option<Position> },
    ListItem { children: Vec<Node>, position: Option<Position> },
    Paragraph { children: Vec<Node>, position: Option<Position> },
    Emphasis { children: Vec<Node>, position: Option<Position> },
    Strong { children: Vec<Node>, position: Option<Position> },
    Text { value: String, position: Option<Position> },
    Yaml { frontmatter: Frontmatter, position: Option<Position> },
    Other { children: Option<Vec<Node>>, position: Option<Position> },
}

/// An error: what went wrong, and where when that is known.
#[derive(Clone, Debug, PartialEq)]
pub struct MDError {
    pub msg: String,
    pub place: Option<Position>,
}

pub type MDResult<T> = Result<T, MDError>;

impl Node {
    pub open spec fn spec_children(self) -> Option<Seq<Node>> {
        match self {
            Node::Heading { children, .. } => Some(children@),
            Node::List { children, .. } => Some(children@),
            Node::ListItem { children, .. } => Some(children@),
            Node::Paragraph { children, .. } => Some(children@),
            Node::Emphasis { children, .. } => Some(children@),
            Node::Strong { children, .. } => Some(children@),
            Node::Text { .. } => None,
            Node::Yaml { .. } => None,
            Node::Other { children, .. } => match children {
                Some(c) => Some(c@),
                None => None,
            },
        }
    }

    pub open spec fn spec_position(self) -> Option<Position> {
        match self {
            Node::Heading { position, .. } => position,
            Node::List { position, .. } => position,
            Node::ListItem { position, .. } => position,
            Node::Paragraph { position, .. } => position,
            Node::Emphasis { position, .. } => position,
            Node::Strong { position, .. } => position,
            Node::Text { position, .. } => position,
            Node::Yaml { position, .. } => position,
            Node::Other { position, .. } => position,
        }
    }

    /// The children, for the kinds of node that can have any.
    pub fn children(&self) -> (r: Option<&Vec<Node>>)
        ensures
            match r {
                Some(c) => self.spec_children() == Some(c@),
                None => self.spec_children() is None,
            },
    {
        match self {
            Node::Heading { children, .. } => Some(children),
            Node::List { children, .. } => Some(children),
            Node::ListItem { children, .. } => Some(children),
            Node::Paragraph { children, .. } => Some(children),
            Node::Emphasis { children, .. } => Some(children),
            Node::Strong { children, .. } => Some(children),
            Node::Text { .. } => None,
            Node::Yaml { .. } => None,
            Node::Other { children, .. } => match children {
                Some(c) => Some(c),
                None => None,
            },
        }
    }

    pub fn position(&self) -> (r: Option<Position>)
        ensures
            r == self.spec_position(),
    {
        match self {
            Node::Heading { position, .. } => *position,
            Node::List { position, .. } => *position,
            Node::ListItem { position, .. } => *position,
            Node::Paragraph { position, .. } => *position,
            Node::Emphasis { position, .. } => *position,
            Node::Strong { position, .. } => *position,
            Node::Text { position, .. } => *position,
            Node::Yaml { position, .. } => *position,
            Node::Other { position, .. } => *position,
        }
    }

    /// Whether this is a heading of the given depth.
    pub open spec fn is_heading_at(self, depth: u8) -> bool {
        self matches Node::Heading { depth: d, .. } && d == depth
    }
}

/// The position of `node`, when there is a node.
pub open spec fn place_of(node: Option<&Node>) -> Option<Position> {
    match node {
        Some(n) => n.spec_position(),
        None => None,
    }
}

impl MDError {
    pub fn new(msg: &str, node: Option<&Node>) -> (r: MDError)
        ensures
            r.msg@ == msg@,
            r.place == place_of(node),
    {
        let place = match node {
            Some(n) => n.position(),
            None => None,
        };
        MDError { msg: String::from_str(msg), place }
    }

    /// An error with the message `msg` and no place.
    pub fn from_message(msg: String) -> (r: MDError)
        ensures
            r.msg == msg,
            r.place is None,
    {
        MDError { msg, place: None }
    }
}

fn is_heading_of(node: &Node, depth: u8) -> (r: bool)
    ensures
        r == node.is_heading_at(depth),
{
    match node {
        Node::Heading { depth: d, .. } => *d == depth,
        _ => false,
    }
}

/// A forward cursor over a run of sibling nodes. No node is visited twice.
pub struct ASTConsumer<'a> {
    idx: usize,
    nodes: &'a [Node],
}

/// The first position at or after `from` that holds a heading of `depth`, else the end.
pub open spec fn next_heading(nodes: Seq<Node>, from: int, depth: u8) -> int {
    if exists|j: int| from <= j < nodes.len() && nodes[j].is_heading_at(depth) {
        choose|j: int|
            from <= j < nodes.len() && nodes[j].is_heading_at(depth) && forall|k: int|
                from <= k < j ==> !(#[trigger] nodes[k]).is_heading_at(depth)
    } else {
        nodes.len() as int
    }
}

impl<'a> ASTConsumer<'a> {
    /// Position of the next node to hand out.
    pub closed spec fn index(&self) -> int {
        self.idx as int
    }

    /// The nodes being walked.
    pub closed spec fn nodes(&self) -> Seq<Node> {
        self.nodes@
    }

    pub open spec fn wf(&self) -> bool {
        0 <= self.index() <= self.nodes().len()
    }

    pub fn new(nodes: &'a [Node]) -> (r: ASTConsumer<'a>)
        ensures
            r.wf(),
            r.index() == 0,
            r.nodes() == nodes@,
    {
        ASTConsumer { idx: 0, nodes }
    }

    /// The node at the cursor, which then moves past it; an `EOF` error at the end.
    pub fn next(&mut self) -> (r: Result<&'a Node, MDError>)
        requires
            old(self).wf(),
        ensures
            final(self).wf(),
            final(self).nodes() == old(self).nodes(),
            old(self).index() == old(self).nodes().len() ==> (r is Err && final(self).index()
                == old(self).index() && r->Err_0.msg@ == "EOF"@ && r->Err_0.place is None),
            old(self).index() < old(self).nodes().len() ==> (r matches Ok(n) && *n == old(
                self,
            ).nodes()[old(self).index()] && final(self).index() == old(self).index() + 1),
    {
        if self.idx == self.nodes.len() {
            Err(MDError::new("EOF", None))
        } else {
            let node = &self.nodes[self.idx];
            self.idx = self.idx + 1;
            Ok(node)
        }
    }

    /// The nodes from the cursor up to, not including, the next heading of
    /// `depth` (or to the end); the cursor moves past them.
    pub fn consume_to_next_heading(&mut self, depth: u8) -> (r: &'a [Node])
        requires
            old(self).wf(),
        ensures
            final(self).wf(),
            final(self).nodes() == old(self).nodes(),
            final(self).index() == next_heading(old(self).nodes(), old(self).index(), depth),
            r@ == old(self).nodes().subrange(old(self).index(), final(self).index()),
    {
        let start = self.idx;
        let mut j: usize = self.idx;
        while j < self.nodes.len() && !is_heading_of(&self.nodes[j], depth)
            invariant
                start <= j <= self.nodes@.len(),
                forall|k: int| start <= k < j ==> !(#[trigger] self.nodes@[k]).is_heading_at(depth),
            decreases self.nodes@.len() - j,
        {
            j = j + 1;
        }
        proof {
            if j < self.nodes@.len() {
                let w = choose|w: int|
                    start <= w < self.nodes@.len() && self.nodes@[w].is_heading_at(depth) && forall|
                        k: int,
                    | start <= k < w ==> !(#[trigger] self.nodes@[k]).is_heading_at(depth);
                assert(w == j as int) by {
                    if w > j {
                        assert(self.nodes@[j as int].is_heading_at(depth));
                    }
                }
            }
        }
        self.idx = j;
        &self.nodes[start..j]
    }

    /// The nodes not yet handed out.
    pub fn get_remaining(&self) -> (r: &'a [Node])
        requires
            self.wf(),
        ensures
            r@ == self.nodes().subrange(self.index(), self.nodes().len() as int),
    {
        &self.nodes[self.idx..self.nodes.len()]
    }
}

/// `"<a><n><b>"` with `n` in decimal.
fn message_with_number(a: &str, n: usize, b: &str) -> (r: String) {
    let mut m = String::from_str(a);
    let d = digits_of(n as u128);
    m.append(string_of(d.as_slice()).as_str());
    m.append(b);
    m
}

/// Checks that `node` can have children and has exactly `num` of them.
pub fn expect_children(node: &Node, num: usize) -> (r: MDResult<()>)
    ensures
        r is Ok <==> (node.spec_children() matches Some(c) && c.len() == num),
        r matches Err(e) ==> e.place == node.spec_position(),
{
    match node.children() {
        Some(children) => {
            if children.len() != num {
                let mut msg = message_with_number("expected node to have ", num, " children, but got ");
                let got = message_with_number("", children.len(), "");
                msg.append(got.as_str());
                Err(MDError { msg, place: node.position() })
            } else {
                Ok(())
            }
        },
        None => Err(MDError::new("node cannot have children", Some(node))),
    }
}

/// The text of `node` when it is a heading of `depth` whose one child is text.
pub open spec fn spec_heading_text(node: Node, depth: u8) -> Option<Seq<char>> {
    match node {
        Node::Heading { depth: d, children, .. } => if d == depth && children@.len() == 1 {
            match children@[0] {
                Node::Text { value, .. } => Some(value@),
                _ => None,
            }
        } else {
            None
        },
        _ => None,
    }
}

/// The text of a heading of `depth` with exactly one text child, which must
/// equal `name` when that is given.
pub fn get_heading(node: &Node, depth: u8, name: Option<&str>) -> (r: MDResult<String>)
    ensures
        match spec_heading_text(*node, depth) {
            Some(t) => match name {
                Some(want) => if t == want@ {
                    r matches Ok(s) && s@ == t
                } else {
                    r matches Err(e) && e.place == node.spec_children().unwrap()[0].spec_position()
                },
                None => r matches Ok(s) && s@ == t,
            },
            None => r matches Err(e) && e.place == node.spec_position(),
        },
{
    if let Node::Heading { depth: d, children, .. } = node {
        if *d != depth {
            let mut msg = message_with_number("expected heading at depth ", depth as usize, ", but got ");
            msg.append(message_with_number("", *d as usize, "").as_str());
            Err(MDError { msg, place: node.position() })
        } else if let Err(e) = expect_children(node, 1) {
            Err(e)
        } else if let Node::Text { value, .. } = &children[0] {
            match name {
                Some(requested) => {
                    let want = String::from_str(requested);
                    if *value != want {
                        let mut msg = String::from_str("expected heading \"");
                        msg.append(requested);
                        msg.append("\", but got \"");
                        msg.append(value.as_str());
                        msg.append("\"");
                        Err(MDError { msg, place: children[0].position() })
                    } else {
                        Ok(value.clone())
                    }
                },
                None => Ok(value.clone()),
            }
        } else {
            Err(MDError::new("expected heading to have text child", Some(node)))
        }
    } else {
        Err(MDError::new("expected first node to be heading", Some(node)))
    }
}

/// The text of `node` when it is a paragraph whose one child is text.
pub open spec fn spec_paragraph_text(node: Node) -> Option<Seq<char>> {
    match node {
        Node::Paragraph { children, .. } => if children@.len() == 1 {
            match children@[0] {
                Node::Text { value, .. } => Some(value@),
                _ => None,
            }
        } else {
            None
        },
        _ => None,
    }
}

/// The text of a paragraph that has exactly one child, a text node.
pub fn get_text_from_paragraph(node: &Node) -> (r: MDResult<&str>)
    ensures
        match spec_paragraph_text(*node) {
            Some(t) => r matches Ok(s) && s@ == t,
            None => r matches Err(e) && e.place == (if node is Paragraph && node.spec_children().unwrap().len()
                == 1 {
                node.spec_children().unwrap()[0].spec_position()
            } else {
                node.spec_position()
            }),
        },
{
    if let Node::Paragraph { children, .. } = node {
        if let Err(e) = expect_children(node, 1) {
            Err(e)
        } else if let Node::Text { value, .. } = &children[0] {
            Ok(value.as_str())
        } else {
            Err(MDError::new("expected child to to be text", Some(&children[0])))
        }
    } else {
        Err(MDError::new("expected paragraph", Some(node)))
    }
}

} // verus!
