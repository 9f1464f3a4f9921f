//! The ingredients section: the grammar of one ingredient line, alternatives
//! separated by `|`, and the section as a flat list or as named groups.
use vstd::prelude::*;
use crate::amount::parse_amount;
use crate::md_parser::{
    MDError, MDResult, Node, expect_children, get_heading, get_text_from_paragraph,
    spec_heading_text, spec_paragraph_text,
};
use crate::text::{chars_of, find, find_char, string_of, trim, trim_chars};
use crate::unit::{Quantity, amount_part, decodes_to, unit_part};

verus! {

/// The pieces of `s` between occurrences of `c`, as `str::split` gives them.
pub open spec fn split(s: Seq<char>, c: char) -> Seq<Seq<char>>
    decreases s.len(),
{
    match find(s, c) {
        None => seq![s],
        Some(i) => if 0 <= i < s.len() {
            seq![s.subrange(0, i)] + split(s.subrange(i + 1, s.len() as int), c)
        } else {
            seq![s]
        },
    }
}

/// A character that no name or quantity may hold.
pub open spec fn is_structural(c: char) -> bool {
    c == ',' || c == '|' || c == '/' || c == '(' || c == ')'
}

/// A character that the additional info may not hold.
pub open spec fn is_info_structural(c: char) -> bool {
    c == '|' || c == '(' || c == ')'
}

pub open spec fn has_structural(s: Seq<char>) -> bool {
    exists|i: int| 0 <= i < s.len() && is_structural(#[trigger] s[i])
}

pub open spec fn has_info_structural(s: Seq<char>) -> bool {
    exists|i: int| 0 <= i < s.len() && is_info_structural(#[trigger] s[i])
}

/// One alternative of the quantity is well formed: no structural character and
/// an amount that reads.
#[verifier::opaque]
pub open spec fn quantity_ok(seg: Seq<char>) -> bool {
    !has_structural(seg) && parse_amount(amount_part(trim(seg))) is Ok
}

/// `q` is what the alternative `seg` reads as.
#[verifier::opaque]
pub open spec fn quantity_of(q: Quantity, seg: Seq<char>) -> bool {
    &&& parse_amount(amount_part(trim(seg))) == Ok::<_, crate::amount::ParseAmountError>(q.amount)
    &&& decodes_to(q.unit, unit_part(trim(seg)))
}

/// The line without its trailing `(<info>)`, and the info text, trimmed. `None`
/// when the line ends with `)` but holds no `(`.
pub open spec fn info_split(t: Seq<char>) -> Option<(Seq<char>, Option<Seq<char>>)> {
    if t.len() > 0 && t.last() == ')' {
        match find(t, '(') {
            None => None,
            Some(i) => Some((t.subrange(0, i), Some(trim(t.subrange(i + 1, t.len() - 1))))),
        }
    } else {
        Some((t, None))
    }
}

/// The text before the first `,`, and the `/`-separated pieces after it.
pub open spec fn comma_split(rest: Seq<char>) -> (Seq<char>, Option<Seq<Seq<char>>>) {
    match find(rest, ',') {
        None => (rest, None),
        Some(i) => (rest.subrange(0, i), Some(split(rest.subrange(i + 1, rest.len() as int), '/'))),
    }
}

/// How an ingredient line divides: the name, the info when the line ends with
/// `)`, and the quantity alternatives when there is a `,`. `None` when a closing
/// parenthesis has no opening one.
pub open spec fn ingredient_layout(text: Seq<char>) -> Option<
    (Seq<char>, Option<Seq<char>>, Option<Seq<Seq<char>>>),
> {
    match info_split(trim(text)) {
        None => None,
        Some((rest, info)) => Some((trim(comma_split(rest).0), info, comma_split(rest).1)),
    }
}

/// The line is a valid ingredient.
#[verifier::opaque]
pub open spec fn ingredient_ok(text: Seq<char>) -> bool {
    match ingredient_layout(text) {
        None => false,
        Some((name, info, segs)) => {
            &&& (info matches Some(i) ==> !has_info_structural(i))
            &&& (segs matches Some(ss) ==> forall|k: int| 0 <= k < ss.len() ==> quantity_ok(#[trigger] ss[k]))
            &&& name.len() > 0
            &&& !has_structural(name)
        },
    }
}

/// `ing` is what the valid line `text` reads as.
#[verifier::opaque]
pub open spec fn ingredient_of(ing: Ingredient, text: Seq<char>) -> bool {
    match ingredient_layout(text) {
        None => false,
        Some((name, info, segs)) => {
            &&& ing.name@ == name
            &&& match info {
                None => ing.info is None,
                Some(i) => ing.info matches Some(s) && s@ == i,
            }
            &&& match segs {
                None => ing.quantity is None && ing.alt_quantities is None,
                Some(ss) => {
                    &&& ing.quantity matches Some(q) && quantity_of(q, ss[0])
                    &&& if ss.len() == 1 {
                        ing.alt_quantities is None
                    } else {
                        ing.alt_quantities matches Some(v) && v@.len() == ss.len() - 1 && forall|k: int|
                            0 <= k < v@.len() ==> quantity_of(#[trigger] v@[k], ss[k + 1])
                    }
                },
            }
        },
    }
}

/// One ingredient: its name, an optional quantity with alternative quantities,
/// and optional free-text info.
#[derive(PartialEq, Debug)]
pub struct Ingredient {
    pub name: String,
    pub quantity: Option<Quantity>,
    pub alt_quantities: Option<Vec<Quantity>>,
    pub info: Option<String>,
}

fn has_structural_exec(s: &[char]) -> (r: bool)
    ensures
        r == has_structural(s@),
{
    let mut i: usize = 0;
    while i < s.len()
        invariant
            i <= s@.len(),
            forall|k: int| 0 <= k < i ==> !is_structural(#[trigger] s@[k]),
        decreases s@.len() - i,
    {
        let c = s[i];
        if c == ',' || c == '|' || c == '/' || c == '(' || c == ')' {
            assert(is_structural(s@[i as int]));
            return true;
        }
        i = i + 1;
    }
    false
}

fn has_info_structural_exec(s: &[char]) -> (r: bool)
    ensures
        r == has_info_structural(s@),
{
    let mut i: usize = 0;
    while i < s.len()
        invariant
            i <= s@.len(),
            forall|k: int| 0 <= k < i ==> !is_info_structural(#[trigger] s@[k]),
        decreases s@.len() - i,
    {
        let c = s[i];
        if c == '|' || c == '(' || c == ')' {
            assert(is_info_structural(s@[i as int]));
            return true;
        }
        i = i + 1;
    }
    false
}

/// Reads one quantity alternative.
fn parse_quantity_segment(seg: &[char]) -> (r: MDResult<Quantity>)
    ensures
        r is Ok <==> quantity_ok(seg@),
        r matches Ok(q) ==> quantity_of(q, seg@),
{
    reveal(quantity_ok);
    reveal(quantity_of);
    if has_structural_exec(seg) {
        let mut msg = String::from_str("quantity contains forbidden character: ");
        msg.append(string_of(seg).as_str());
        return Err(MDError::from_message(msg));
    }
    match Quantity::from_chars(trim_chars(seg)) {
        Ok(q) => Ok(q),
        Err(e) => {
            let mut msg = String::from_str("failed to parse quantity: ");
            msg.append(e.message().as_str());
            Err(MDError::from_message(msg))
        },
    }
}

/// Reads the `/`-separated quantity alternatives.
fn parse_quantity_list(s: &[char]) -> (r: MDResult<Vec<Quantity>>)
    ensures
        r is Ok <==> forall|k: int| 0 <= k < split(s@, '/').len() ==> quantity_ok(#[trigger] split(s@, '/')[k]),
        r matches Ok(v) ==> v@.len() == split(s@, '/').len() && forall|k: int|
            0 <= k < v@.len() ==> quantity_of(#[trigger] v@[k], split(s@, '/')[k]),
{
    let mut out: Vec<Quantity> = Vec::new();
    let mut rest: &[char] = s;
    let ghost mut done: Seq<Seq<char>> = Seq::empty();
    loop
        invariant
            split(s@, '/') == done + split(rest@, '/'),
            out@.len() == done.len(),
            forall|k: int| 0 <= k < done.len() ==> quantity_ok(#[trigger] done[k]),
            forall|k: int| 0 <= k < out@.len() ==> quantity_of(#[trigger] out@[k], done[k]),
        decreases rest@.len(),
    {
        match find_char(rest, '/') {
            Some(i) => {
                let rl = rest.len();
                let seg = &rest[0..i];
                let tail = &rest[i + 1..rl];
                assert(split(rest@, '/') == seq![seg@] + split(tail@, '/'));
                match parse_quantity_segment(seg) {
                    Ok(q) => {
                        out.push(q);
                        proof {
                            assert(done + split(rest@, '/') =~= (done.push(seg@)) + split(tail@, '/'));
                            done = done.push(seg@);
                        }
                        rest = tail;
                    },
                    Err(e) => {
                        assert(split(s@, '/')[done.len() as int] == seg@);
                        return Err(e);
                    },
                }
            },
            None => {
                assert(split(rest@, '/') == seq![rest@]);
                match parse_quantity_segment(rest) {
                    Ok(q) => {
                        out.push(q);
                        proof {
                            assert(split(s@, '/') =~= done.push(rest@));
                        }
                        return Ok(out);
                    },
                    Err(e) => {
                        assert(split(s@, '/')[done.len() as int] == rest@);
                        return Err(e);
                    },
                }
            },
        }
    }
}

/// Takes the trailing `(<info>)` off the trimmed line `t`.
fn take_info(t: &[char]) -> (r: MDResult<(&[char], Option<String>)>)
    ensures
        match info_split(t@) {
            None => r is Err,
            Some((rest, info)) => match info {
                Some(i) => if has_info_structural(i) {
                    r is Err
                } else {
                    r matches Ok((rs, Some(s))) && rs@ == rest && s@ == i
                },
                None => r matches Ok((rs, None)) && rs@ == rest,
            },
        },
{
    let n = t.len();
    if n > 0 && t[n - 1] == ')' {
        match find_char(t, '(') {
            None => Err(MDError::from_message(String::from_str("found closing parenthesis but no opening"))),
            Some(idx) => {
                let info_text = trim_chars(&t[idx + 1..n - 1]);
                if has_info_structural_exec(info_text) {
                    let mut msg = String::from_str("additional info contains forbidden character: ");
                    msg.append(string_of(info_text).as_str());
                    Err(MDError::from_message(msg))
                } else {
                    Ok((&t[0..idx], Some(string_of(info_text))))
                }
            },
        }
    } else {
        Ok((t, None))
    }
}

/// Takes the quantities after the first `,` off `rest`.
fn take_quantities(rest: &[char]) -> (r: MDResult<(&[char], Option<Quantity>, Option<Vec<Quantity>>)>)
    ensures
        match comma_split(rest@).1 {
            None => r matches Ok((nm, None, None)) && nm@ == comma_split(rest@).0,
            Some(ss) => if forall|k: int| 0 <= k < ss.len() ==> quantity_ok(#[trigger] ss[k]) {
                r matches Ok((nm, Some(q), alts)) && nm@ == comma_split(rest@).0 && quantity_of(q, ss[0])
                    && if ss.len() == 1 {
                    alts is None
                } else {
                    alts matches Some(v) && v@.len() == ss.len() - 1 && forall|k: int|
                        0 <= k < v@.len() ==> quantity_of(#[trigger] v@[k], ss[k + 1])
                }
            } else {
                r is Err
            },
        },
{
    match find_char(rest, ',') {
        None => Ok((rest, None, None)),
        Some(idx) => {
            let rl = rest.len();
            let tail = &rest[idx + 1..rl];
            assert(comma_split(rest@).1 == Some(split(tail@, '/')));
            let mut all = match parse_quantity_list(tail) {
                Ok(v) => v,
                Err(e) => {
                    proof {
                        let ss = split(tail@, '/');
                        assert(!(forall|k: int| 0 <= k < ss.len() ==> quantity_ok(#[trigger] ss[k])));
                        let ss2 = comma_split(rest@).1->Some_0;
                        assert(ss2 == ss);
                        assert(!(forall|k: int| 0 <= k < ss2.len() ==> quantity_ok(#[trigger] ss2[k])));
                    }
                    return Err(e);
                },
            };
            let ghost segs = split(tail@, '/');
            let ghost before = all@;
            proof {
                lemma_split_nonempty(tail@, '/');
            }
            let first = all.remove(0);
            assert(quantity_of(before[0], segs[0]));
            if all.len() > 0 {
                assert forall|k: int| 0 <= k < all@.len() implies quantity_of(#[trigger] all@[k], segs[k + 1]) by {
                    assert(all@[k] == before[k + 1]);
                }
                Ok((&rest[0..idx], Some(first), Some(all)))
            } else {
                Ok((&rest[0..idx], Some(first), None))
            }
        },
    }
}

impl Ingredient {
    /// Reads `<name>[, <quantity>[/<quantity>]*][(<info>)]`; see `ingredient_ok`.
    pub fn from_chars(text: &[char]) -> (r: MDResult<Ingredient>)
        ensures
            r is Ok <==> ingredient_ok(text@),
            r matches Ok(ing) ==> ingredient_of(ing, text@),
    {
        reveal(ingredient_ok);
        reveal(ingredient_of);
        let t = trim_chars(text);
        let (rest, info) = take_info(t)?;
        let (name_text, quantity, alt_quantities) = take_quantities(rest)?;
        let name_chars = trim_chars(name_text);
        if name_chars.len() == 0 {
            Err(MDError::from_message(String::from_str("name cannot be empty")))
        } else if has_structural_exec(name_chars) {
            Err(MDError::from_message(String::from_str("name contains forbidden character")))
        } else {
            Ok(Ingredient { name: string_of(name_chars), quantity, alt_quantities, info })
        }
    }

    pub fn from_str(text: &str) -> (r: MDResult<Ingredient>)
        ensures
            r is Ok <==> ingredient_ok(text@),
            r matches Ok(ing) ==> ingredient_of(ing, text@),
    {
        Self::from_chars(chars_of(text).as_slice())
    }
}

/// `split` yields at least one piece.
pub proof fn lemma_split_nonempty(s: Seq<char>, c: char)
    ensures
        split(s, c).len() >= 1,
    decreases s.len(),
{
    match find(s, c) {
        None => {},
        Some(i) => {
            if 0 <= i < s.len() {
                lemma_split_nonempty(s.subrange(i + 1, s.len() as int), c);
            }
        },
    }
}

/// The first ingredient of a line, and the `|`-separated alternatives after it.
pub open spec fn options_layout(t: Seq<char>) -> (Seq<char>, Option<Seq<Seq<char>>>) {
    match find(t, '|') {
        None => (t, None),
        Some(i) => (t.subrange(0, i), Some(split(t.subrange(i + 1, t.len() as int), '|'))),
    }
}

/// Every ingredient of the line is valid.
pub open spec fn options_ok(t: Seq<char>) -> bool {
    &&& ingredient_ok(options_layout(t).0)
    &&& (options_layout(t).1 matches Some(alts) ==> forall|k: int|
        0 <= k < alts.len() ==> ingredient_ok(#[trigger] alts[k]))
}

/// `o` is what the valid line `t` reads as.
pub open spec fn options_of(o: IngredientOptions, t: Seq<char>) -> bool {
    &&& ingredient_of(o.ingredient, options_layout(t).0)
    &&& match options_layout(t).1 {
        None => o.alternatives is None,
        Some(alts) => o.alternatives matches Some(v) && v@.len() == alts.len() && forall|k: int|
            0 <= k < v@.len() ==> ingredient_of(#[trigger] v@[k], alts[k]),
    }
}

/// Interchangeable ingredients for one line of the list.
#[derive(PartialEq, Debug)]
pub struct IngredientOptions {
    pub ingredient: Ingredient,
    pub alternatives: Option<Vec<Ingredient>>,
}

/// Reads the `|`-separated alternative ingredients.
fn parse_alternatives(s: &[char]) -> (r: MDResult<Vec<Ingredient>>)
    ensures
        r is Ok <==> forall|k: int| 0 <= k < split(s@, '|').len() ==> ingredient_ok(#[trigger] split(s@, '|')[k]),
        r matches Ok(v) ==> v@.len() == split(s@, '|').len() && forall|k: int|
            0 <= k < v@.len() ==> ingredient_of(#[trigger] v@[k], split(s@, '|')[k]),
{
    let mut out: Vec<Ingredient> = Vec::new();
    let mut rest: &[char] = s;
    let ghost mut done: Seq<Seq<char>> = Seq::empty();
    loop
        invariant
            split(s@, '|') == done + split(rest@, '|'),
            out@.len() == done.len(),
            forall|k: int| 0 <= k < done.len() ==> ingredient_ok(#[trigger] done[k]),
            forall|k: int| 0 <= k < out@.len() ==> ingredient_of(#[trigger] out@[k], done[k]),
        decreases rest@.len(),
    {
        match find_char(rest, '|') {
            Some(i) => {
                let rl = rest.len();
                let piece = &rest[0..i];
                let tail = &rest[i + 1..rl];
                assert(split(rest@, '|') == seq![piece@] + split(tail@, '|'));
                match Ingredient::from_chars(piece) {
                    Ok(ing) => {
                        out.push(ing);
                        proof {
                            assert(done + split(rest@, '|') =~= (done.push(piece@)) + split(tail@, '|'));
                            done = done.push(piece@);
                        }
                        rest = tail;
                    },
                    Err(e) => {
                        assert(split(s@, '|')[done.len() as int] == piece@);
                        return Err(e);
                    },
                }
            },
            None => {
                assert(split(rest@, '|') == seq![rest@]);
                match Ingredient::from_chars(rest) {
                    Ok(ing) => {
                        out.push(ing);
                        proof {
                            assert(split(s@, '|') =~= done.push(rest@));
                        }
                        return Ok(out);
                    },
                    Err(e) => {
                        assert(split(s@, '|')[done.len() as int] == rest@);
                        return Err(e);
                    },
                }
            },
        }
    }
}

/// The text of a list item that holds one paragraph of one text node.
pub open spec fn item_text(n: Node) -> Option<Seq<char>> {
    match n {
        Node::ListItem { children, .. } => if children@.len() == 1 {
            spec_paragraph_text(children@[0])
        } else {
            None
        },
        _ => None,
    }
}

/// The list item is a valid ingredient line.
pub open spec fn item_ok(n: Node) -> bool {
    item_text(n) matches Some(t) && options_ok(t)
}

impl IngredientOptions {
    /// Reads a line: an ingredient, then alternatives each after a `|`.
    pub fn from_chars(text: &[char]) -> (r: MDResult<IngredientOptions>)
        ensures
            r is Ok <==> options_ok(text@),
            r matches Ok(o) ==> options_of(o, text@),
    {
        match find_char(text, '|') {
            None => {
                let ingredient = Ingredient::from_chars(text)?;
                Ok(IngredientOptions { ingredient, alternatives: None })
            },
            Some(idx) => {
                let n = text.len();
                let head = &text[0..idx];
                let tail = &text[idx + 1..n];
                let ingredient = Ingredient::from_chars(head)?;
                let alternatives = match parse_alternatives(tail) {
                    Ok(v) => v,
                    Err(e) => {
                        proof {
                            let alts = split(tail@, '|');
                            assert(!(forall|k: int| 0 <= k < alts.len() ==> ingredient_ok(#[trigger] alts[k])));
                            let k0 = choose|k: int| 0 <= k < alts.len() && !ingredient_ok(#[trigger] alts[k]);
                            assert(options_layout(text@).1 == Some(alts));
                            assert(!ingredient_ok(options_layout(text@).1->Some_0[k0]));
                        }
                        return Err(e);
                    },
                };
                Ok(IngredientOptions { ingredient, alternatives: Some(alternatives) })
            },
        }
    }

    pub fn from_str(text: &str) -> (r: MDResult<IngredientOptions>)
        ensures
            r is Ok <==> options_ok(text@),
            r matches Ok(o) ==> options_of(o, text@),
    {
        Self::from_chars(chars_of(text).as_slice())
    }

    /// Reads a list item that holds one paragraph of one text node.
    pub fn parse(node: &Node) -> (r: MDResult<IngredientOptions>)
        ensures
            r is Ok <==> item_ok(*node),
            r matches Ok(o) ==> options_of(o, item_text(*node)->Some_0),
    {
        match node {
            Node::ListItem { children, .. } => {
                expect_children(node, 1)?;
                let text = get_text_from_paragraph(&children[0])?;
                Self::from_str(text)
            },
            _ => Err(MDError::new("expected list item", Some(node))),
        }
    }
}

/// A named group of ingredient lines.
#[derive(PartialEq, Debug)]
pub struct IngredientGroup {
    pub name: String,
    pub ingredients: Vec<IngredientOptions>,
}

/// The ingredients section: one list, or groups each under a depth-3 heading.
#[derive(PartialEq, Debug)]
pub enum Ingredients {
    IngredientList(Vec<IngredientOptions>),
    IngredientGroups(Vec<IngredientGroup>),
}

/// `n` is a list whose items are all valid ingredient lines.
pub open spec fn list_ok(n: Node) -> bool {
    n matches Node::List { children, .. } && forall|k: int| 0 <= k < children@.len() ==> item_ok(#[trigger] children@[k])
}

/// `v` is what the valid list `n` reads as.
pub open spec fn list_of(v: Seq<IngredientOptions>, n: Node) -> bool {
    n matches Node::List { children, .. } && v.len() == children@.len() && forall|k: int|
        0 <= k < v.len() ==> options_of(#[trigger] v[k], item_text(children@[k])->Some_0)
}

/// `nodes` alternate a depth-3 heading with a valid list, and end after a list.
pub open spec fn groups_ok(nodes: Seq<Node>) -> bool {
    &&& nodes.len() % 2 == 0
    &&& forall|g: int| 0 <= g < nodes.len() / 2 ==> spec_heading_text(#[trigger] nodes[2 * g], 3) is Some
    &&& forall|g: int| 0 <= g < nodes.len() / 2 ==> list_ok(#[trigger] nodes[2 * g + 1])
}

/// `gs` is what the valid groups `nodes` read as.
pub open spec fn groups_of(gs: Seq<IngredientGroup>, nodes: Seq<Node>) -> bool {
    &&& gs.len() == nodes.len() / 2
    &&& forall|g: int| 0 <= g < gs.len() ==> (#[trigger] gs[g]).name@ == spec_heading_text(nodes[2 * g], 3)->Some_0
    &&& forall|g: int| 0 <= g < gs.len() ==> list_of((#[trigger] gs[g]).ingredients@, nodes[2 * g + 1])
}

/// The section's nodes form a valid ingredients section.
pub open spec fn section_ok(nodes: Seq<Node>) -> bool {
    if nodes.len() == 0 {
        true
    } else if nodes.len() == 1 {
        list_ok(nodes[0])
    } else {
        groups_ok(nodes)
    }
}

/// `x` is what the valid section `nodes` reads as.
pub open spec fn section_of(x: Ingredients, nodes: Seq<Node>) -> bool {
    if nodes.len() == 0 {
        x matches Ingredients::IngredientList(v) && v@.len() == 0
    } else if nodes.len() == 1 {
        x matches Ingredients::IngredientList(v) && list_of(v@, nodes[0])
    } else {
        x matches Ingredients::IngredientGroups(gs) && groups_of(gs@, nodes)
    }
}

impl IngredientGroup {
    fn parse(heading: &Node, list: &Node) -> (r: MDResult<IngredientGroup>)
        ensures
            r is Ok <==> spec_heading_text(*heading, 3) is Some && list_ok(*list),
            r matches Ok(g) ==> (g.name@ == spec_heading_text(*heading, 3)->Some_0 && list_of(g.ingredients@, *list)),
    {
        let name = get_heading(heading, 3, None)?;
        let ingredients = Ingredients::parse_ingredient_list(list)?;
        Ok(IngredientGroup { name, ingredients })
    }
}

impl Ingredients {
    /// Reads the section: no node is an empty list, one node a list, more nodes
    /// pairs of a depth-3 heading and a list.
    pub fn parse(nodes: &[Node]) -> (r: MDResult<Ingredients>)
        ensures
            nodes@.len() == 0 ==> (r matches Ok(Ingredients::IngredientList(v)) && v@.len() == 0),
            nodes@.len() == 1 ==> (r is Ok <==> list_ok(nodes@[0])),
            nodes@.len() == 1 ==> (r matches Ok(x) ==> (x matches Ingredients::IngredientList(v) && list_of(v@, nodes@[0]))),
            nodes@.len() >= 2 ==> (r is Ok <==> groups_ok(nodes@)),
            nodes@.len() >= 2 ==> (r matches Ok(x) ==> (x matches Ingredients::IngredientGroups(gs) && groups_of(gs@, nodes@))),
            r is Ok <==> section_ok(nodes@),
            r matches Ok(x) ==> section_of(x, nodes@),
    {
        let n = nodes.len();
        if n == 0 {
            return Ok(Ingredients::IngredientList(Vec::new()));
        }
        if n == 1 {
            return Ok(Ingredients::IngredientList(Self::parse_ingredient_list(&nodes[0])?));
        }
        let mut groups: Vec<IngredientGroup> = Vec::new();
        let mut i: usize = 0;
        while i < n
            invariant
                n == nodes@.len(),
                n >= 2,
                i <= n,
                i % 2 == 0,
                groups@.len() == i / 2,
                forall|g: int| 0 <= g < i / 2 ==> spec_heading_text(#[trigger] nodes@[2 * g], 3) is Some,
                forall|g: int| 0 <= g < i / 2 ==> list_ok(#[trigger] nodes@[2 * g + 1]),
                forall|g: int| 0 <= g < groups@.len() ==> (#[trigger] groups@[g]).name@ == spec_heading_text(nodes@[2 * g], 3)->Some_0,
                forall|g: int| 0 <= g < groups@.len() ==> list_of((#[trigger] groups@[g]).ingredients@, nodes@[2 * g + 1]),
            decreases n - i,
        {
            if i + 1 == n {
                return Err(MDError::new("malformed ingredient group", Some(&nodes[i])));
            }
            let group = match IngredientGroup::parse(&nodes[i], &nodes[i + 1]) {
                Ok(g) => g,
                Err(e) => {
                    proof {
                        let g = (i / 2) as int;
                        assert(2 * g == i);
                        if nodes@.len() % 2 == 0 {
                            if spec_heading_text(nodes@[2 * g], 3) is None {
                                assert(!(forall|h: int| 0 <= h < nodes@.len() / 2 ==> spec_heading_text(#[trigger] nodes@[2 * h], 3) is Some));
                            } else {
                                assert(!(forall|h: int| 0 <= h < nodes@.len() / 2 ==> list_ok(#[trigger] nodes@[2 * h + 1])));
                            }
                        }
                    }
                    return Err(e);
                },
            };
            groups.push(group);
            i = i + 2;
        }
        Ok(Ingredients::IngredientGroups(groups))
    }

    /// Reads a list of ingredient lines.
    pub fn parse_ingredient_list(node: &Node) -> (r: MDResult<Vec<IngredientOptions>>)
        ensures
            r is Ok <==> list_ok(*node),
            r matches Ok(v) ==> list_of(v@, *node),
    {
        match node {
            Node::List { children, .. } => {
                let mut out: Vec<IngredientOptions> = Vec::new();
                let mut k: usize = 0;
                while k < children.len()
                    invariant
                        k <= children@.len(),
                        node.spec_children() == Some(children@),
                        *node is List,
                        out@.len() == k,
                        forall|j: int| 0 <= j < k ==> item_ok(#[trigger] children@[j]),
                        forall|j: int| 0 <= j < k ==> options_of(#[trigger] out@[j], item_text(children@[j])->Some_0),
                    decreases children@.len() - k,
                {
                    let o = match IngredientOptions::parse(&children[k]) {
                        Ok(o) => o,
                        Err(e) => {
                            assert(!item_ok(children@[k as int]));
                            assert(node.spec_children() == Some(children@));
                            assert(list_ok(*node) ==> item_ok(children@[k as int]));
                            return Err(e);
                        },
                    };
                    out.push(o);
                    k = k + 1;
                }
                Ok(out)
            },
            _ => Err(MDError::new("ingredients must be list", Some(node))),
        }
    }
}

} // verus!
