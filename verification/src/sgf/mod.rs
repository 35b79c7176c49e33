//! Game records in the Smart Game Format: reading a record into a tree,
//! replaying a tree on a game, and writing a position out.

use vstd::prelude::*;
use crate::engine::board::{stone_list, Board, ErrorKind, Stone, MAX_BOARD_SIZE};
use crate::engine::game::{Game, GameView};
use crate::text::{
    chars_of, decimal_spec, is_lower, is_lower_spec, is_space, is_space_spec, is_upper,
    is_upper_spec, joined, parse_i32, push_decimal, push_str, signed_value, string_of, text_is,
    texts,
};

verus! {

/// A property value.
#[derive(Debug, PartialEq)]
pub enum SGFProperty {
    /// A whole number.
    Number(i32),
    /// An emphasis, 1 or 2.
    Double(i32),
    /// A colour.
    Color(Stone),
    /// Any other text.
    Text(String),
    /// A point of the board.
    Point((usize, usize)),
    /// A move on a point.
    Move((usize, usize)),
    /// No value.
    Nothing,
}

/// The model of a property value.
pub enum PropertyView {
    Number(i32),
    Double(i32),
    Color(Stone),
    Text(Seq<char>),
    Point((usize, usize)),
    Move((usize, usize)),
    Nothing,
}

impl View for SGFProperty {
    type V = PropertyView;

    open spec fn view(&self) -> PropertyView {
        match self {
            SGFProperty::Number(n) => PropertyView::Number(*n),
            SGFProperty::Double(n) => PropertyView::Double(*n),
            SGFProperty::Color(c) => PropertyView::Color(*c),
            SGFProperty::Text(s) => PropertyView::Text(s@),
            SGFProperty::Point(p) => PropertyView::Point(*p),
            SGFProperty::Move(p) => PropertyView::Move(*p),
            SGFProperty::Nothing => PropertyView::Nothing,
        }
    }
}

/// The values of a list of properties.
pub open spec fn values_view(v: Seq<SGFProperty>) -> Seq<PropertyView> {
    Seq::new(v.len(), |i: int| v[i]@)
}

/// A property: its name and its values.
pub type PropertyEntry = (Seq<char>, Seq<PropertyView>);

/// The model of a node: its properties, each name once, and its children.
pub struct NodeView {
    pub properties: Seq<PropertyEntry>,
    pub children: Seq<NodeView>,
}

/// A node of a game tree.
#[derive(Debug)]
pub struct SGFNode {
    /// The properties of the node, each name once, in the order in which
    /// the names first appear.
    pub properties: Vec<(String, Vec<SGFProperty>)>,
    /// The nodes that follow, the main line first.
    pub children: Vec<SGFNode>,
}

/// The properties of a node as its model has them.
pub open spec fn entries_view(v: Seq<(String, Vec<SGFProperty>)>) -> Seq<PropertyEntry> {
    Seq::new(v.len(), |i: int| (v[i].0@, values_view(v[i].1@)))
}

impl SGFNode {
    /// The model of the node.
    pub open spec fn view(&self) -> NodeView
        decreases self,
    {
        NodeView {
            properties: entries_view(self.properties@),
            children: Seq::new(
                self.children@.len(),
                |i: int|
                    if 0 <= i < self.children@.len() {
                        self.children@[i].view()
                    } else {
                        NodeView { properties: Seq::empty(), children: Seq::empty() }
                    },
            ),
        }
    }
}

/// A game tree.
#[derive(Debug)]
pub struct SGFTree {
    pub root: SGFNode,
    /// The index of the current node.
    pub current: usize,
}

/// Why a record could not be read.
#[derive(Debug, Clone, Copy, PartialEq, Eq, Structural)]
pub enum SgfError {
    /// No `(` where a tree or a variation starts.
    ExpectedOpen(usize),
    /// No `)` where a tree or a variation ends.
    ExpectedClose(usize),
    /// No `;` where a node starts.
    ExpectedSemicolon(usize),
    /// No `]` where a property value ends.
    ExpectedBracket(usize),
    /// No property name where one starts.
    ExpectedIdentifier(usize),
    /// A character that may not stand between properties.
    Unexpected(char, usize),
}

impl SgfError {
    pub open spec fn message_spec(self) -> Seq<char> {
        match self {
            SgfError::ExpectedOpen(p) => "Expected '(' at position "@ + decimal_spec(p as nat),
            SgfError::ExpectedClose(p) => "Expected ')' at position "@ + decimal_spec(p as nat),
            SgfError::ExpectedSemicolon(p) => "Expected ';' at position "@ + decimal_spec(
                p as nat,
            ),
            SgfError::ExpectedBracket(p) => "Expected ']' after property value at position "@
                + decimal_spec(p as nat),
            SgfError::ExpectedIdentifier(p) => "Expected identifier at position "@ + decimal_spec(
                p as nat,
            ),
            SgfError::Unexpected(c, p) => "Unexpected character '"@ + seq![c] + "' at position "@
                + decimal_spec(p as nat),
        }
    }

    /// A sentence for the user, with the position counted in characters
    /// from 0.
    pub fn message(&self) -> (s: String)
        ensures
            s@ == self.message_spec(),
    {
        let mut out: Vec<char> = Vec::new();
        match self {
            SgfError::ExpectedOpen(p) => {
                push_str(&mut out, "Expected '(' at position ");
                push_decimal(&mut out, *p);
            },
            SgfError::ExpectedClose(p) => {
                push_str(&mut out, "Expected ')' at position ");
                push_decimal(&mut out, *p);
            },
            SgfError::ExpectedSemicolon(p) => {
                push_str(&mut out, "Expected ';' at position ");
                push_decimal(&mut out, *p);
            },
            SgfError::ExpectedBracket(p) => {
                push_str(&mut out, "Expected ']' after property value at position ");
                push_decimal(&mut out, *p);
            },
            SgfError::ExpectedIdentifier(p) => {
                push_str(&mut out, "Expected identifier at position ");
                push_decimal(&mut out, *p);
            },
            SgfError::Unexpected(c, p) => {
                push_str(&mut out, "Unexpected character '");
                out.push(*c);
                push_str(&mut out, "' at position ");
                push_decimal(&mut out, *p);
            },
        }
        assert(out@ =~= self.message_spec());
        string_of(&out)
    }
}

/// The position `q` reached from `pos`, kept past `pos` and within the
/// text.
pub open spec fn advance(s: Seq<char>, q: int, pos: int) -> int {
    if q <= pos {
        pos + 1
    } else if q > s.len() {
        s.len() as int
    } else {
        q
    }
}

/// The first position from `pos` on that holds no white space.
pub open spec fn skip_spaces(s: Seq<char>, pos: int) -> int
    decreases s.len() - pos,
{
    if 0 <= pos < s.len() && is_space_spec(s[pos]) {
        skip_spaces(s, pos + 1)
    } else {
        pos
    }
}

/// The first position from `pos` on that holds no upper-case letter.
pub open spec fn skip_upper(s: Seq<char>, pos: int) -> int
    decreases s.len() - pos,
{
    if 0 <= pos < s.len() && is_upper_spec(s[pos]) {
        skip_upper(s, pos + 1)
    } else {
        pos
    }
}

/// The first position from `pos` on that holds `]` or `\`, or the end.
pub open spec fn skip_value(s: Seq<char>, pos: int) -> int
    decreases s.len() - pos,
{
    if 0 <= pos < s.len() && s[pos] != ']' && s[pos] != '\\' {
        skip_value(s, pos + 1)
    } else {
        pos
    }
}

/// The point that two lower-case letters name, `a` standing for 0.
pub open spec fn point_spec(s: Seq<char>) -> Option<(usize, usize)> {
    if s.len() == 2 && is_lower_spec(s[0]) && is_lower_spec(s[1]) {
        Some(((s[0] as u32 - 97) as usize, (s[1] as u32 - 97) as usize))
    } else {
        None
    }
}

/// What the text of a property value stands for: a number where it spells
/// one, a colour for `B` and `W`, a point for two lower-case letters, and
/// itself otherwise.
pub open spec fn classify(text: Seq<char>) -> PropertyView {
    if signed_value(text) matches Some(n) && i32::MIN <= n <= i32::MAX {
        PropertyView::Number(signed_value(text)->0 as i32)
    } else if text == "B"@ {
        PropertyView::Color(Stone::Black)
    } else if text == "W"@ {
        PropertyView::Color(Stone::White)
    } else if point_spec(text) is Some {
        PropertyView::Point(point_spec(text)->0)
    } else {
        PropertyView::Text(text)
    }
}

/// The values in brackets from `pos` on, and the position after them.
pub open spec fn values_spec(s: Seq<char>, pos: int) -> Result<(Seq<PropertyView>, int), SgfError>
    decreases s.len() - pos,
{
    if 0 <= pos < s.len() && s[pos] == '[' {
        let end = advance(s, skip_value(s, pos + 1), pos);
        if end < s.len() && s[end] == ']' {
            match values_spec(s, end + 1) {
                Ok((rest, after)) => Ok((seq![classify(s.subrange(pos + 1, end))] + rest, after)),
                Err(e) => Err(e),
            }
        } else {
            Err(SgfError::ExpectedBracket(end as usize))
        }
    } else {
        Ok((Seq::empty(), pos))
    }
}

/// The position of the property `key` among `props`, or their number if
/// it is not among them.
pub open spec fn index_of(props: Seq<PropertyEntry>, key: Seq<char>) -> int
    decreases props.len(),
{
    if props.len() == 0 {
        0
    } else if props[0].0 == key {
        0
    } else {
        1 + index_of(props.drop_first(), key)
    }
}

/// The properties with `key` set to `values`: in place where the name is
/// there already, at the end otherwise.
pub open spec fn put(props: Seq<PropertyEntry>, key: Seq<char>, values: Seq<PropertyView>) -> Seq<
    PropertyEntry,
> {
    let i = index_of(props, key);
    if i < props.len() {
        props.update(i, (key, values))
    } else {
        props.push((key, values))
    }
}

/// The values of the property `key`, if the node has it.
pub open spec fn get(props: Seq<PropertyEntry>, key: Seq<char>) -> Option<Seq<PropertyView>> {
    let i = index_of(props, key);
    if i < props.len() {
        Some(props[i].1)
    } else {
        None
    }
}

/// The properties from `pos` on, added to `acc`, and the position after
/// them: properties stand one after the other, with nothing between
/// them, up to the next `;`, `(` or `)`.
pub open spec fn properties_spec(s: Seq<char>, pos: int, acc: Seq<PropertyEntry>) -> Result<
    (Seq<PropertyEntry>, int),
    SgfError,
>
    decreases s.len() - pos,
{
    if pos < 0 || pos >= s.len() {
        Ok((acc, pos))
    } else if s[pos] == '(' || s[pos] == ')' || s[pos] == ';' {
        Ok((acc, pos))
    } else if is_upper_spec(s[pos]) {
        let key_end = advance(s, skip_upper(s, pos), pos);
        match values_spec(s, key_end) {
            Ok((values, after)) => properties_spec(
                s,
                advance(s, after, pos),
                put(acc, s.subrange(pos, key_end), values),
            ),
            Err(e) => Err(e),
        }
    } else {
        Err(SgfError::Unexpected(s[pos], pos as usize))
    }
}

/// The node that starts at `pos`, after white space, and the position
/// after it and its children.
pub open spec fn node_spec(s: Seq<char>, pos: int) -> Result<(NodeView, int), SgfError>
    decreases s.len() - pos, 0nat,
{
    let start = skip_spaces(s, pos);
    if start < 0 || start >= s.len() || s[start] != ';' {
        Err(SgfError::ExpectedSemicolon(start as usize))
    } else {
        match properties_spec(s, start + 1, Seq::empty()) {
            Err(e) => Err(e),
            Ok((properties, after)) => match children_spec(
                s,
                advance(s, after, if pos >= 0 {
                    pos
                } else {
                    0
                }),
                Seq::empty(),
            ) {
                Ok((children, end)) => Ok((NodeView { properties, children }, end)),
                Err(e) => Err(e),
            },
        }
    }
}

/// The children from `pos` on, added to `acc`, and the position after
/// them: a `;` starts the next node of the line, a `(` a variation.
pub open spec fn children_spec(s: Seq<char>, pos: int, acc: Seq<NodeView>) -> Result<
    (Seq<NodeView>, int),
    SgfError,
>
    decreases s.len() - pos, 2nat,
{
    if pos < 0 || pos >= s.len() {
        Ok((acc, pos))
    } else if s[pos] == ';' {
        match node_spec(s, pos) {
            Ok((node, after)) => children_spec(s, advance(s, after, pos), acc.push(node)),
            Err(e) => Err(e),
        }
    } else if s[pos] == '(' {
        match branch_spec(s, pos) {
            Ok((node, after)) => children_spec(s, advance(s, after, pos), acc.push(node)),
            Err(e) => Err(e),
        }
    } else {
        Ok((acc, pos))
    }
}

/// The variation in parentheses that starts at `pos`, and the position
/// after it.
pub open spec fn branch_spec(s: Seq<char>, pos: int) -> Result<(NodeView, int), SgfError>
    decreases s.len() - pos, 1nat,
{
    if pos < 0 || pos >= s.len() || s[pos] != '(' {
        Err(SgfError::ExpectedOpen(pos as usize))
    } else {
        match node_spec(s, pos + 1) {
            Ok((node, after)) => if 0 <= after < s.len() && s[after] == ')' {
                Ok((node, after + 1))
            } else {
                Err(SgfError::ExpectedClose(after as usize))
            },
            Err(e) => Err(e),
        }
    }
}

/// The tree that a record holds: after white space a `(`, the root node
/// with all that follows it, white space and a `)`. What comes after is
/// not read.
pub open spec fn tree_spec(s: Seq<char>) -> Result<NodeView, SgfError> {
    let start = skip_spaces(s, 0);
    if start >= s.len() || s[start] != '(' {
        Err(SgfError::ExpectedOpen(start as usize))
    } else {
        match node_spec(s, start + 1) {
            Err(e) => Err(e),
            Ok((root, after)) => {
                let end = skip_spaces(s, after);
                if 0 <= end < s.len() && s[end] == ')' {
                    Ok(root)
                } else {
                    Err(SgfError::ExpectedClose(end as usize))
                }
            },
        }
    }
}

/// Skipping never goes back and never leaves the text.
pub proof fn lemma_skip_bounds(s: Seq<char>, pos: int)
    requires
        0 <= pos <= s.len(),
    ensures
        pos <= skip_spaces(s, pos) <= s.len(),
        pos <= skip_upper(s, pos) <= s.len(),
        pos <= skip_value(s, pos) <= s.len(),
    decreases s.len() - pos,
{
    if pos < s.len() {
        lemma_skip_bounds(s, pos + 1);
    }
}

/// The models of a list of nodes.
pub open spec fn nodes_view(v: Seq<SGFNode>) -> Seq<NodeView> {
    Seq::new(v.len(), |i: int| v[i].view())
}

/// The children of a node's model are the models of its children.
pub proof fn lemma_node_view(node: &SGFNode)
    ensures
        node.view().properties == entries_view(node.properties@),
        node.view().children == nodes_view(node.children@),
{
    assert(node.view().children =~= nodes_view(node.children@));
}

/// Sets the property `key` to `values`: in place where the name is there
/// already, at the end otherwise.
fn put_property(props: &mut Vec<(String, Vec<SGFProperty>)>, key: String, values: Vec<SGFProperty>)
    ensures
        entries_view(final(props)@) == put(entries_view(old(props)@), key@, values_view(values@)),
{
    let ghost before = entries_view(props@);
    let mut i: usize = 0;
    assert(before.skip(0) =~= before);
    while i < props.len()
        invariant
            i <= props@.len(),
            entries_view(props@) == before,
            before == entries_view(old(props)@),
            index_of(before, key@) == i + index_of(before.skip(i as int), key@),
        decreases props@.len() - i,
    {
        proof {
            let rest = before.skip(i as int);
            assert(rest[0] == before[i as int]);
            assert(rest.drop_first() =~= before.skip(i as int + 1));
            assert(before[i as int].0 == props@[i as int].0@);
        }
        if props[i].0 == key {
            let ghost name = key@;
            let ghost vals = values_view(values@);
            proof {
                assert(before.skip(i as int)[0].0 == name);
                assert(index_of(before.skip(i as int), name) == 0);
                assert(index_of(before, name) == i);
            }
            props[i] = (key, values);
            proof {
                assert(entries_view(props@) =~= before.update(i as int, (name, vals)));
            }
            return;
        }
        i += 1;
    }
    proof {
        assert(before.skip(before.len() as int).len() == 0);
    }
    props.push((key, values));
    proof {
        assert(entries_view(props@) =~= before.push((key@, values_view(values@))));
    }
}

/// The values of the property `key`, if the node has it.
pub fn get_property<'a>(props: &'a Vec<(String, Vec<SGFProperty>)>, key: &str) -> (r: Option<
    &'a Vec<SGFProperty>,
>)
    ensures
        match r {
            Some(values) => get(entries_view(props@), key@) == Some(values_view(values@)),
            None => get(entries_view(props@), key@) is None,
        },
{
    let ghost all = entries_view(props@);
    let mut i: usize = 0;
    assert(all.skip(0) =~= all);
    while i < props.len()
        invariant
            i <= props@.len(),
            all == entries_view(props@),
            index_of(all, key@) == i + index_of(all.skip(i as int), key@),
        decreases props@.len() - i,
    {
        proof {
            let rest = all.skip(i as int);
            assert(rest[0] == all[i as int]);
            assert(rest.drop_first() =~= all.skip(i as int + 1));
            assert(all[i as int].0 == props@[i as int].0@);
        }
        if text_is(&chars_of(props[i].0.as_str()), key) {
            return Some(&props[i].1);
        }
        i += 1;
    }
    proof {
        assert(all.skip(all.len() as int).len() == 0);
    }
    None
}

/// The characters of `chars` from `from` up to `to`.
fn slice_of(chars: &Vec<char>, from: usize, to: usize) -> (out: Vec<char>)
    requires
        from <= to <= chars@.len(),
    ensures
        out@ == chars@.subrange(from as int, to as int),
{
    let mut out: Vec<char> = Vec::new();
    let mut i: usize = from;
    while i < to
        invariant
            from <= i <= to <= chars@.len(),
            out@ == chars@.subrange(from as int, i as int),
        decreases to - i,
    {
        out.push(chars[i]);
        i += 1;
        assert(out@ =~= chars@.subrange(from as int, i as int));
    }
    out
}

/// What the text of a property value stands for.
pub fn classify_value(text: &Vec<char>) -> (v: SGFProperty)
    ensures
        v@ == classify(text@),
{
    match parse_i32(text) {
        Some(n) => {
            return SGFProperty::Number(n);
        },
        None => {},
    }
    if text_is(text, "B") {
        return SGFProperty::Color(Stone::Black);
    }
    if text_is(text, "W") {
        return SGFProperty::Color(Stone::White);
    }
    if text.len() == 2 {
        match point_of_chars(text) {
            Some(p) => {
                return SGFProperty::Point(p);
            },
            None => {},
        }
    }
    SGFProperty::Text(string_of(text))
}

/// The point that two lower-case letters name.
fn point_of_chars(s: &Vec<char>) -> (r: Option<(usize, usize)>)
    ensures
        r == point_spec(s@),
{
    if s.len() != 2 {
        return None;
    }
    let col_char = s[0];
    let row_char = s[1];
    if !is_lower(col_char) || !is_lower(row_char) {
        return None;
    }
    let x = (col_char as u32 - 97) as usize;
    let y = (row_char as u32 - 97) as usize;
    Some((x, y))
}

/// Reads and writes game records.
pub struct SGFHandler;

/// A node and the position after it.
type Parsed = Result<(SGFNode, usize), SgfError>;

/// The result of reading a node is what the model of the text gives.
pub open spec fn parsed_as(r: Parsed, expected: Result<(NodeView, int), SgfError>) -> bool {
    match expected {
        Ok((node, end)) => r matches Ok(got) && got.0.view() == node && got.1 == end,
        Err(e) => r matches Err(f) && f == e,
    }
}

impl SGFHandler {
    pub fn new() -> (h: SGFHandler) {
        SGFHandler
    }

    /// Reads a record into a tree.
    pub fn parse(&self, content: &str) -> (r: Result<SGFTree, SgfError>)
        ensures
            match tree_spec(content@) {
                Ok(root) => r matches Ok(tree) && tree.root.view() == root && tree.current == 0,
                Err(e) => r matches Err(f) && f == e,
            },
    {
        let chars = chars_of(content);
        self.parse_tree(&chars)
    }

    /// Reads a tree: `(`, the root node, `)`.
    fn parse_tree(&self, chars: &Vec<char>) -> (r: Result<SGFTree, SgfError>)
        ensures
            match tree_spec(chars@) {
                Ok(root) => r matches Ok(tree) && tree.root.view() == root && tree.current == 0,
                Err(e) => r matches Err(f) && f == e,
            },
    {
        let start = self.skip_whitespace(chars, 0);
        if start >= chars.len() || chars[start] != '(' {
            return Err(SgfError::ExpectedOpen(start));
        }
        let (root, after) = match self.parse_node(chars, start + 1) {
            Ok(found) => found,
            Err(e) => {
                return Err(e);
            },
        };
        let end = self.skip_whitespace(chars, after);
        if end >= chars.len() || chars[end] != ')' {
            return Err(SgfError::ExpectedClose(end));
        }
        Ok(SGFTree { root, current: 0 })
    }

    /// Reads a node with its properties and all that follows it.
    fn parse_node(&self, chars: &Vec<char>, pos: usize) -> (r: Parsed)
        requires
            pos <= chars@.len(),
        ensures
            parsed_as(r, node_spec(chars@, pos as int)),
            r matches Ok(got) ==> pos < got.1 <= chars@.len(),
        decreases chars@.len() - pos, 0nat,
    {
        let ghost s = chars@;
        let start = self.skip_whitespace(chars, pos);
        if start >= chars.len() || chars[start] != ';' {
            return Err(SgfError::ExpectedSemicolon(start));
        }
        let mut properties: Vec<(String, Vec<SGFProperty>)> = Vec::new();
        let mut children: Vec<SGFNode> = Vec::new();
        let mut at: usize = start + 1;
        assert(entries_view(properties@) =~= Seq::<PropertyEntry>::empty());
        while at < chars.len() && is_upper(chars[at])
            invariant
                s == chars@,
                pos <= start < at <= s.len(),
                properties_spec(s, start + 1, Seq::empty()) == properties_spec(
                    s,
                    at as int,
                    entries_view(properties@),
                ),
                start == skip_spaces(s, pos as int),
                s[start as int] == ';',
            decreases s.len() - at,
        {
            let (entry, after) = match self.parse_property(chars, at) {
                Ok(found) => found,
                Err(e) => {
                    return Err(e);
                },
            };
            put_property(&mut properties, entry.0, entry.1);
            at = after;
        }
        if at < chars.len() {
            let c = chars[at];
            if c != '(' && c != ')' && c != ';' {
                return Err(SgfError::Unexpected(c, at));
            }
        }
        let ghost props_end = at;
        assert(nodes_view(children@) =~= Seq::<NodeView>::empty());
        loop
            invariant
                s == chars@,
                pos <= start < props_end <= at <= s.len(),
                start == skip_spaces(s, pos as int),
                s[start as int] == ';',
                properties_spec(s, start + 1, Seq::empty()) == Ok::<
                    (Seq<PropertyEntry>, int),
                    SgfError,
                >((entries_view(properties@), props_end as int)),
                children_spec(s, props_end as int, Seq::empty()) == children_spec(
                    s,
                    at as int,
                    nodes_view(children@),
                ),
            ensures
                children_spec(s, props_end as int, Seq::empty()) == Ok::<
                    (Seq<NodeView>, int),
                    SgfError,
                >((nodes_view(children@), at as int)),
                pos <= start < props_end <= at <= s.len(),
            decreases s.len() - at,
        {
            if at >= chars.len() {
                break;
            }
            let c = chars[at];
            let ghost before = nodes_view(children@);
            if c == ';' {
                match self.parse_node(chars, at) {
                    Ok(found) => {
                        children.push(found.0);
                        at = found.1;
                    },
                    Err(e) => {
                        return Err(e);
                    },
                }
            } else if c == '(' {
                match self.parse_branch(chars, at) {
                    Ok(found) => {
                        children.push(found.0);
                        at = found.1;
                    },
                    Err(e) => {
                        return Err(e);
                    },
                }
            } else {
                break;
            }
            proof {
                assert(nodes_view(children@) =~= before.push(children@[children@.len() - 1].view()));
            }
        }
        let node = SGFNode { properties, children };
        proof {
            lemma_node_view(&node);
        }
        Ok((node, at))
    }

    /// Reads a property: its name and its values in brackets.
    fn parse_property(&self, chars: &Vec<char>, pos: usize) -> (r: Result<
        ((String, Vec<SGFProperty>), usize),
        SgfError,
    >)
        requires
            pos < chars@.len(),
            is_upper_spec(chars@[pos as int]),
        ensures
            match values_spec(chars@, skip_upper(chars@, pos as int)) {
                Ok((values, end)) => r matches Ok(got) && got.0.0@ == chars@.subrange(
                    pos as int,
                    skip_upper(chars@, pos as int),
                ) && values_view(got.0.1@) == values && got.1 == end && pos < got.1
                    <= chars@.len(),
                Err(e) => r matches Err(f) && f == e,
            },
            pos < skip_upper(chars@, pos as int) <= chars@.len(),
    {
        let ghost s = chars@;
        proof {
            lemma_skip_bounds(s, pos as int + 1);
        }
        let (key, key_end) = match self.read_identifier(chars, pos) {
            Ok(found) => found,
            Err(e) => {
                return Err(e);
            },
        };
        let mut values: Vec<SGFProperty> = Vec::new();
        let mut at: usize = key_end;
        assert(values_view(values@) =~= Seq::<PropertyView>::empty());
        while at < chars.len() && chars[at] == '['
            invariant
                s == chars@,
                pos < key_end <= at <= s.len(),
                key_end == skip_upper(s, pos as int),
                key@ == s.subrange(pos as int, key_end as int),
                match values_spec(s, at as int) {
                    Ok((rest, end)) => values_spec(s, key_end as int) == Ok::<
                        (Seq<PropertyView>, int),
                        SgfError,
                    >((values_view(values@) + rest, end)),
                    Err(e) => values_spec(s, key_end as int) == Err::<
                        (Seq<PropertyView>, int),
                        SgfError,
                    >(e),
                },
            decreases s.len() - at,
        {
            let ghost before = values_view(values@);
            let (value, end) = self.parse_value(chars, at + 1);
            if end >= chars.len() || chars[end] != ']' {
                return Err(SgfError::ExpectedBracket(end));
            }
            values.push(value);
            proof {
                assert(values_view(values@) =~= before.push(classify(s.subrange(at + 1, end as int))));
                match values_spec(s, end + 1) {
                    Ok((rest, after)) => {
                        assert(values_view(values@) + rest =~= before + (seq![
                            classify(s.subrange(at + 1, end as int)),
                        ] + rest));
                    },
                    Err(_) => {},
                }
            }
            at = end + 1;
        }
        proof {
            assert(values_view(values@) + Seq::<PropertyView>::empty() =~= values_view(values@));
        }
        Ok(((key, values), at))
    }

    /// Reads the text of a property value, up to the closing bracket.
    fn parse_value(&self, chars: &Vec<char>, pos: usize) -> (r: (SGFProperty, usize))
        requires
            pos <= chars@.len(),
        ensures
            r.1 == skip_value(chars@, pos as int),
            pos <= r.1 <= chars@.len(),
            r.0@ == classify(chars@.subrange(pos as int, r.1 as int)),
    {
        let ghost s = chars@;
        let mut value_str: Vec<char> = Vec::new();
        let mut at: usize = pos;
        while at < chars.len() && chars[at] != ']' && chars[at] != '\\'
            invariant
                s == chars@,
                pos <= at <= s.len(),
                skip_value(s, pos as int) == skip_value(s, at as int),
                value_str@ == s.subrange(pos as int, at as int),
            decreases s.len() - at,
        {
            value_str.push(chars[at]);
            at += 1;
            assert(value_str@ =~= s.subrange(pos as int, at as int));
        }
        (classify_value(&value_str), at)
    }

    /// The point that two lower-case letters name, such as `dd`.
    pub fn parse_point(&self, s: &str) -> (r: Option<(usize, usize)>)
        ensures
            r == point_spec(s@),
    {
        point_of_chars(&chars_of(s))
    }

    /// Reads a variation: `(`, a node, `)`.
    fn parse_branch(&self, chars: &Vec<char>, pos: usize) -> (r: Parsed)
        requires
            pos < chars@.len(),
        ensures
            parsed_as(r, branch_spec(chars@, pos as int)),
            r matches Ok(got) ==> pos < got.1 <= chars@.len(),
        decreases chars@.len() - pos, 1nat,
    {
        let len = chars.len();
        if chars[pos] != '(' {
            return Err(SgfError::ExpectedOpen(pos));
        }
        let (node, after) = match self.parse_node(chars, pos + 1) {
            Ok(found) => found,
            Err(e) => {
                return Err(e);
            },
        };
        if after >= chars.len() || chars[after] != ')' {
            return Err(SgfError::ExpectedClose(after));
        }
        Ok((node, after + 1))
    }

    /// Reads a property name: a run of upper-case letters.
    pub fn read_identifier(&self, chars: &Vec<char>, pos: usize) -> (r: Result<(String, usize), SgfError>)
        requires
            pos <= chars@.len(),
        ensures
            match r {
                Ok(got) => got.1 == skip_upper(chars@, pos as int) && pos < got.1 <= chars@.len()
                    && got.0@ == chars@.subrange(pos as int, got.1 as int),
                Err(e) => e == SgfError::ExpectedIdentifier(pos) && skip_upper(chars@, pos as int)
                    == pos,
            },
    {
        let ghost s = chars@;
        let mut ident: Vec<char> = Vec::new();
        let mut at: usize = pos;
        while at < chars.len() && is_upper(chars[at])
            invariant
                s == chars@,
                pos <= at <= s.len(),
                skip_upper(s, pos as int) == skip_upper(s, at as int),
                ident@ == s.subrange(pos as int, at as int),
            decreases s.len() - at,
        {
            ident.push(chars[at]);
            at += 1;
            assert(ident@ =~= s.subrange(pos as int, at as int));
        }
        if ident.len() == 0 {
            return Err(SgfError::ExpectedIdentifier(pos));
        }
        Ok((string_of(&ident), at))
    }

    /// The first position from `pos` on that holds no white space.
    pub fn skip_whitespace(&self, chars: &Vec<char>, pos: usize) -> (r: usize)
        requires
            pos <= chars@.len(),
        ensures
            r == skip_spaces(chars@, pos as int),
            pos <= r <= chars@.len(),
    {
        let mut at: usize = pos;
        while at < chars.len() && is_space(chars[at])
            invariant
                pos <= at <= chars@.len(),
                skip_spaces(chars@, pos as int) == skip_spaces(chars@, at as int),
            decreases chars@.len() - at,
        {
            at += 1;
        }
        at
    }
}

/// The point `(x, y)` as two lower-case letters, `a` standing for 0.
pub open spec fn format_sgf_point_spec(x: int, y: int) -> Seq<char> {
    seq![((97 + x) as u8) as char, ((97 + y) as u8) as char]
}

/// The point `(x, y)` as two lower-case letters, such as `dd`; there are
/// 26 letters for each coordinate.
pub fn format_sgf_point(x: usize, y: usize) -> (s: String)
    requires
        x < 26,
        y < 26,
    ensures
        s@ == format_sgf_point_spec(x as int, y as int),
{
    let col_char = (97u8 + x as u8) as char;
    let row_char = (97u8 + y as u8) as char;
    let mut out: Vec<char> = Vec::new();
    out.push(col_char);
    out.push(row_char);
    assert(out@ =~= format_sgf_point_spec(x as int, y as int));
    string_of(&out)
}

/// The letter of a colour in a record; none for `Empty`.
pub fn stone_to_sgf_color(stone: Stone) -> (r: &'static str)
    ensures
        r@ == match stone {
            Stone::Black => "B"@,
            Stone::White => "W"@,
            Stone::Empty => ""@,
        },
{
    match stone {
        Stone::Black => "B",
        Stone::White => "W",
        Stone::Empty => "",
    }
}

/// The points of `v` in record notation.
pub open spec fn point_texts(v: Seq<(usize, usize)>) -> Seq<Seq<char>> {
    Seq::new(v.len(), |i: int| format_sgf_point_spec(v[i].0 as int, v[i].1 as int))
}

/// The setup property `name` for the points of `v`; nothing for no point.
pub open spec fn setup_text(name: Seq<char>, v: Seq<(usize, usize)>) -> Seq<char> {
    if v.len() == 0 {
        Seq::empty()
    } else {
        ";"@ + name + "["@ + joined(point_texts(v), "]["@) + "]"@
    }
}

/// The record of a position: the header with the size and the komi, and
/// the stones of each colour as setup properties, in the order of reading
/// the board row by row.
pub open spec fn record_text(b: crate::engine::state::BoardState, komi: Seq<char>) -> Seq<char> {
    "(;FF[4]GM[1]SZ["@ + decimal_spec(b.size) + "]KM["@ + komi + "]\n"@ + setup_text(
        "AB"@,
        stone_list(b, Stone::Black),
    ) + setup_text("AW"@, stone_list(b, Stone::White)) + "\n"@ + ")\n"@
}

/// Appends the setup property `name` for the points of `v`.
fn push_setup(out: &mut Vec<char>, name: &str, v: &Vec<(usize, usize)>)
    requires
        forall|i: int|
            0 <= i < v@.len() ==> (#[trigger] v@[i]).0 < MAX_BOARD_SIZE && v@[i].1
                < MAX_BOARD_SIZE,
    ensures
        final(out)@ == old(out)@ + setup_text(name@, v@),
{
    if v.len() == 0 {
        assert(out@ =~= old(out)@ + setup_text(name@, v@));
        return;
    }
    let mut parts: Vec<Vec<char>> = Vec::new();
    let mut i: usize = 0;
    while i < v.len()
        invariant
            i <= v@.len(),
            forall|k: int|
                0 <= k < v@.len() ==> (#[trigger] v@[k]).0 < MAX_BOARD_SIZE && v@[k].1
                    < MAX_BOARD_SIZE,
            parts@.len() == i,
            forall|k: int|
                0 <= k < i ==> (#[trigger] parts@[k])@ == format_sgf_point_spec(
                    v@[k].0 as int,
                    v@[k].1 as int,
                ),
        decreases v@.len() - i,
    {
        let point = format_sgf_point(v[i].0, v[i].1);
        parts.push(chars_of(point.as_str()));
        i += 1;
    }
    assert(texts(parts@) =~= point_texts(v@));
    let list = crate::text::join(&parts, "][");
    push_str(out, ";");
    push_str(out, name);
    push_str(out, "[");
    crate::text::push_all(out, &list);
    push_str(out, "]");
    assert(out@ =~= old(out)@ + setup_text(name@, v@));
}

/// Why a tree could not be replayed.
#[derive(Debug, Clone, Copy, PartialEq, Eq, Structural)]
pub enum ApplyError {
    /// The record asks for a board of a size that is not supported.
    BoardSize(i32),
    /// A move of Black was refused.
    BlackMove(ErrorKind),
    /// A move of White was refused.
    WhiteMove(ErrorKind),
    /// The game's counters of prisoners cannot take another move.
    CountersFull,
}

impl ApplyError {
    pub open spec fn message_spec(self) -> Seq<char> {
        match self {
            ApplyError::BoardSize(_) => "Unsupported board size"@,
            ApplyError::BlackMove(e) => "Failed to apply black move: "@ + e.message_spec(),
            ApplyError::WhiteMove(e) => "Failed to apply white move: "@ + e.message_spec(),
            ApplyError::CountersFull => "Capture counters are full"@,
        }
    }

    /// A sentence for the user.
    pub fn message(&self) -> (s: String)
        ensures
            s@ == self.message_spec(),
    {
        let mut out: Vec<char> = Vec::new();
        match self {
            ApplyError::BoardSize(_) => {
                push_str(&mut out, "Unsupported board size");
            },
            ApplyError::BlackMove(e) => {
                push_str(&mut out, "Failed to apply black move: ");
                push_str(&mut out, e.message());
            },
            ApplyError::WhiteMove(e) => {
                push_str(&mut out, "Failed to apply white move: ");
                push_str(&mut out, e.message());
            },
            ApplyError::CountersFull => {
                push_str(&mut out, "Capture counters are full");
            },
        }
        assert(out@ =~= self.message_spec());
        string_of(&out)
    }
}

/// The game after the points among `values`, from the `i`-th on, have been
/// played in turn, and the error that stopped the replay, if one did. The
/// point `(x, y)` is played as row `y` and column `x`; values that are no
/// points are passed over.
pub open spec fn play_points(g: GameView, values: Seq<PropertyView>, i: int, black: bool) -> (
    GameView,
    Option<ApplyError>,
)
    decreases values.len() - i,
{
    if i < 0 || i >= values.len() {
        (g, None)
    } else {
        match values[i] {
            PropertyView::Point(p) => if !g.capture_room() {
                (g, Some(ApplyError::CountersFull))
            } else {
                match g.make_move(p.1 as int, p.0 as int) {
                    Ok(next) => play_points(next, values, i + 1, black),
                    Err(e) => (
                        g,
                        Some(
                            if black {
                                ApplyError::BlackMove(e)
                            } else {
                                ApplyError::WhiteMove(e)
                            },
                        ),
                    ),
                }
            },
            _ => play_points(g, values, i + 1, black),
        }
    }
}

/// The game after the moves of the property `key` of a node.
pub open spec fn play_property(g: GameView, props: Seq<PropertyEntry>, key: Seq<char>, black: bool) -> (
    GameView,
    Option<ApplyError>,
) {
    match get(props, key) {
        Some(values) => play_points(g, values, 0, black),
        None => (g, None),
    }
}

/// The game after a node and all that follows it have been replayed: the
/// moves of Black in the node, then those of White, then the children in
/// turn, each after the first starting again from the game as it was
/// before the node. The first error stops the replay.
pub open spec fn replay(node: NodeView, g: GameView) -> (GameView, Option<ApplyError>)
    decreases node, 1nat,
{
    let (after_black, black_error) = play_property(g, node.properties, "B"@, true);
    if black_error is Some {
        (after_black, black_error)
    } else {
        let (after_white, white_error) = play_property(after_black, node.properties, "W"@, false);
        if white_error is Some {
            (after_white, white_error)
        } else {
            replay_children(node, 0, g, after_white)
        }
    }
}

/// The game after the children of `node` from the `i`-th on have been
/// replayed, where `snapshot` is the game before the node and `g` the game
/// so far.
pub open spec fn replay_children(node: NodeView, i: int, snapshot: GameView, g: GameView) -> (
    GameView,
    Option<ApplyError>,
)
    decreases node, 0nat, node.children.len() - i,
{
    if i < 0 || i >= node.children.len() {
        (g, None)
    } else {
        let start = if i > 0 {
            snapshot
        } else {
            g
        };
        let (after, error) = replay(node.children[i], start);
        if error is Some {
            (after, error)
        } else {
            replay_children(node, i + 1, snapshot, after)
        }
    }
}

/// The game after a tree has been applied: a new game of the size that the
/// root gives as `SZ`, where it gives a number, and then the replay of the
/// root.
pub open spec fn apply_spec(root: NodeView, g: GameView) -> (GameView, Option<ApplyError>) {
    let sized = match get(root.properties, "SZ"@) {
        Some(values) => if values.len() > 0 && values[0] is Number {
            let n = values[0]->Number_0;
            if 1 <= n <= MAX_BOARD_SIZE {
                Ok(GameView::initial(n as nat))
            } else {
                Err(ApplyError::BoardSize(n))
            }
        } else {
            Ok(g)
        },
        None => Ok(g),
    };
    match sized {
        Ok(start) => replay(root, start),
        Err(e) => (g, Some(e)),
    }
}

/// The outcome of a replay is what the model gives.
pub open spec fn replayed(r: Result<(), ApplyError>, game: GameView, expected: (
    GameView,
    Option<ApplyError>,
)) -> bool {
    game == expected.0 && match expected.1 {
        Some(e) => r == Err::<(), ApplyError>(e),
        None => r is Ok,
    }
}

impl SGFHandler {
    /// The record of the position of `game`, with the komi as given.
    pub fn game_to_sgf(&self, game: &Game, komi: &str) -> (s: String)
        ensures
            s@ == record_text(game@.board, komi@),
    {
        let board = game.board();
        let size = board.size();
        let mut out: Vec<char> = Vec::new();
        push_str(&mut out, "(;FF[4]GM[1]SZ[");
        push_decimal(&mut out, size);
        push_str(&mut out, "]KM[");
        push_str(&mut out, komi);
        push_str(&mut out, "]\n");
        let black_stones = board.list_points(Stone::Black);
        let white_stones = board.list_points(Stone::White);
        push_setup(&mut out, "AB", &black_stones);
        push_setup(&mut out, "AW", &white_stones);
        push_str(&mut out, "\n");
        push_str(&mut out, ")\n");
        assert(out@ =~= record_text(game@.board, komi@));
        string_of(&out)
    }

    /// Applies a tree to a game.
    pub fn apply_to_game(&self, tree: &SGFTree, game: &mut Game) -> (r: Result<(), ApplyError>)
        ensures
            replayed(r, final(game)@, apply_spec(tree.root.view(), old(game)@)),
    {
        proof {
            lemma_node_view(&tree.root);
        }
        match get_property(&tree.root.properties, "SZ") {
            Some(values) => {
                if values.len() > 0 {
                    assert(values_view(values@)[0] == values@[0]@);
                    match &values[0] {
                        SGFProperty::Number(size) => {
                            if 1 <= *size && *size <= 25 {
                                *game = Game::new(*size as usize);
                            } else {
                                return Err(ApplyError::BoardSize(*size));
                            }
                        },
                        _ => {},
                    }
                }
            },
            None => {},
        }
        self.apply_moves(&tree.root, game)
    }

    /// Plays the points among `values` in turn.
    fn apply_points(&self, values: &Vec<SGFProperty>, game: &mut Game, black: bool) -> (r: Result<
        (),
        ApplyError,
    >)
        ensures
            replayed(r, final(game)@, play_points(old(game)@, values_view(values@), 0, black)),
    {
        let ghost start = game@;
        let ghost all = values_view(values@);
        let mut i: usize = 0;
        while i < values.len()
            invariant
                i <= values@.len(),
                all == values_view(values@),
                play_points(start, all, 0, black) == play_points(game@, all, i as int, black),
                start == old(game)@,
            decreases values@.len() - i,
        {
            assert(all[i as int] == values@[i as int]@);
            match &values[i] {
                SGFProperty::Point(p) => {
                    if !game.has_capture_room() {
                        return Err(ApplyError::CountersFull);
                    }
                    match game.make_move(p.1, p.0) {
                        Ok(()) => {},
                        Err(e) => {
                            return Err(
                                if black {
                                    ApplyError::BlackMove(e)
                                } else {
                                    ApplyError::WhiteMove(e)
                                },
                            );
                        },
                    }
                },
                _ => {},
            }
            i += 1;
        }
        Ok(())
    }

    /// Replays a node and all that follows it.
    fn apply_moves(&self, node: &SGFNode, game: &mut Game) -> (r: Result<(), ApplyError>)
        ensures
            replayed(r, final(game)@, replay(node.view(), old(game)@)),
        decreases node,
    {
        broadcast use vstd::std_specs::vec::axiom_vec_index_decreases;

        proof {
            lemma_node_view(node);
        }
        let ghost model = node.view();
        let ghost before = game@;
        let game_snapshot = game.clone();
        match get_property(&node.properties, "B") {
            Some(moves) => {
                match self.apply_points(moves, game, true) {
                    Ok(()) => {},
                    Err(e) => {
                        return Err(e);
                    },
                }
            },
            None => {},
        }
        match get_property(&node.properties, "W") {
            Some(moves) => {
                match self.apply_points(moves, game, false) {
                    Ok(()) => {},
                    Err(e) => {
                        return Err(e);
                    },
                }
            },
            None => {},
        }
        let mut i: usize = 0;
        while i < node.children.len()
            invariant
                i <= node.children@.len(),
                model == node.view(),
                model.children == nodes_view(node.children@),
                before == old(game)@,
                game_snapshot@ == before,
                replay(model, before) == replay_children(model, i as int, before, game@),
            decreases node.children@.len() - i,
        {
            if i > 0 {
                *game = game_snapshot.clone();
            }
            assert(model.children[i as int] == node.children@[i as int].view());
            match self.apply_moves(&node.children[i], game) {
                Ok(()) => {},
                Err(e) => {
                    return Err(e);
                },
            }
            i += 1;
        }
        Ok(())
    }
}

} // verus!
