//! Reading the game's values from, and writing moves to, the neutral tree.
use vstd::prelude::*;
use crate::board::{Board, in_bounds};
use crate::color::{Color, color_named, color_name};
use crate::error::GameError;
use crate::field::Field;
use crate::moves::Move;
use crate::node::{Node, attr_value, child_index};
use crate::piece::Piece;
use crate::piece_shape::{PieceShape, SHAPE_COUNT, shape_name};
use crate::rotation::{Rotation, rotation_named};
use crate::team::{Team, team_named};
use crate::text::{parse_i32, parse_u32, i32_of, u32_of, upper_of, decimal, decimal_of};
use crate::vec2::{Vec2, pt};

verus! {

/// The vector that the attributes `x` and `y` of a node give.
pub open spec fn vec2_of(attrs: Seq<(String, String)>) -> Option<Vec2> {
    match (attr_value(attrs, seq!['x']), attr_value(attrs, seq!['y'])) {
        (Some(a), Some(b)) => match (i32_of(a), i32_of(b)) {
            (Some(x), Some(y)) => Some(Vec2 { x, y }),
            _ => None,
        },
        _ => None,
    }
}

/// The field that a node called `field` describes.
pub open spec fn field_of(node: Node) -> Option<Field> {
    match (vec2_of(node.attributes@), attr_value(node.attributes@, seq!['c', 'o', 'n', 't', 'e', 'n', 't'])) {
        (Some(position), Some(s)) => match color_named(upper_of(s)) {
            Some(content) => Some(Field { position, content }),
            None => None,
        },
        _ => None,
    }
}

/// The node is called `field`.
pub open spec fn is_field_node(node: Node) -> bool {
    node.name@ == seq!['f', 'i', 'e', 'l', 'd']
}

/// Every child called `field` describes a field on the board.
pub open spec fn fields_ok(children: Seq<Node>) -> bool {
    forall|k: int|
        0 <= k < children.len() && is_field_node(#[trigger] children[k]) ==> match field_of(children[k]) {
            Some(f) => in_bounds(pt(f.position)),
            None => false,
        }
}

/// The colour at `p` after the fields of the children are painted in order.
pub open spec fn painted(children: Seq<Node>, p: (int, int)) -> Color
    decreases children.len(),
{
    if children.len() == 0 {
        Color::Empty
    } else {
        let last = children.last();
        if is_field_node(last) && field_of(last) is Some && pt(field_of(last)->Some_0.position) == p {
            field_of(last)->Some_0.content
        } else {
            painted(children.drop_last(), p)
        }
    }
}

/// The truth value that `bool::from_str` reads.
pub open spec fn bool_named(s: Seq<char>) -> Option<bool> {
    if s == seq!['t', 'r', 'u', 'e'] {
        Some(true)
    } else if s == seq!['f', 'a', 'l', 's', 'e'] {
        Some(false)
    } else {
        None
    }
}

/// Reads `true` or `false`.
pub fn parse_bool(s: &str) -> (r: Result<bool, GameError>)
    ensures
        r == match bool_named(s@) {
            Some(b) => Ok::<bool, GameError>(b),
            None => Err(GameError::ParseError),
        },
{
    proof {
        reveal_strlit("true");
        reveal_strlit("false");
        assert("true"@ =~= seq!['t', 'r', 'u', 'e']);
        assert("false"@ =~= seq!['f', 'a', 'l', 's', 'e']);
    }
    let owned = s.to_owned();
    if owned == "true".to_owned() {
        Ok(true)
    } else if owned == "false".to_owned() {
        Ok(false)
    } else {
        Err(GameError::ParseError)
    }
}

/// Writes `true` or `false`.
pub fn bool_text(b: bool) -> (r: String)
    ensures
        bool_named(r@) == Some(b),
{
    proof {
        reveal_strlit("true");
        reveal_strlit("false");
        assert("true"@ =~= seq!['t', 'r', 'u', 'e']);
        assert("false"@ =~= seq!['f', 'a', 'l', 's', 'e']);
    }
    if b {
        "true".to_owned()
    } else {
        "false".to_owned()
    }
}

/// Reads an `i32` attribute.
fn i32_attribute(node: &Node, key: &str) -> (r: Result<i32, GameError>)
    ensures
        r == match attr_value(node.attributes@, key@) {
            Some(a) => match i32_of(a) {
                Some(v) => Ok::<i32, GameError>(v),
                None => Err(GameError::ParseError),
            },
            None => Err(GameError::ParseError),
        },
{
    let raw = node.attribute(key)?;
    match parse_i32(raw.as_str()) {
        Some(v) => Ok(v),
        None => Err(GameError::ParseError),
    }
}

/// Reads a `u32` attribute.
fn u32_attribute(node: &Node, key: &str) -> (r: Result<u32, GameError>)
    ensures
        r == match attr_value(node.attributes@, key@) {
            Some(a) => match u32_of(a) {
                Some(v) => Ok::<u32, GameError>(v),
                None => Err(GameError::ParseError),
            },
            None => Err(GameError::ParseError),
        },
{
    let raw = node.attribute(key)?;
    match parse_u32(raw.as_str()) {
        Some(v) => Ok(v),
        None => Err(GameError::ParseError),
    }
}

impl Vec2 {
    /// Reads a vector from the attributes `x` and `y`.
    pub fn from_node(node: &Node) -> (r: Result<Vec2, GameError>)
        ensures
            r == match vec2_of(node.attributes@) {
                Some(v) => Ok::<Vec2, GameError>(v),
                None => Err(GameError::ParseError),
            },
    {
        proof {
            reveal_strlit("x");
            reveal_strlit("y");
            assert("x"@ =~= seq!['x']);
            assert("y"@ =~= seq!['y']);
        }
        let x = i32_attribute(node, "x");
        let y = i32_attribute(node, "y");
        match (x, y) {
            (Ok(x), Ok(y)) => Ok(Vec2::new(x, y)),
            _ => Err(GameError::ParseError),
        }
    }
}

impl Color {
    /// Reads a colour from the node's text, in any case.
    pub fn from_node(node: &Node) -> (r: Result<Color, GameError>)
        ensures
            r == match color_named(upper_of(node.content@)) {
                Some(c) => Ok::<Color, GameError>(c),
                None => Err(GameError::ParseError),
            },
    {
        Color::parse(node.content.as_str())
    }
}

impl Team {
    /// Reads a team from the node's text, in any case.
    pub fn from_node(node: &Node) -> (r: Result<Team, GameError>)
        ensures
            r == match team_named(upper_of(node.content@)) {
                Some(t) => Ok::<Team, GameError>(t),
                None => Err(GameError::ParseError),
            },
    {
        Team::parse(node.content.as_str())
    }
}

impl PieceShape {
    /// Reads a catalog shape from its name.
    pub fn parse(name: &str) -> (r: Result<PieceShape, GameError>)
        ensures
            match r {
                Ok(s) => 0 <= s.id() < SHAPE_COUNT && shape_name(s.id())@ == name@ && s@
                    == crate::piece_shape::catalog_cells(s.id()),
                Err(e) => e == GameError::ParseError && forall|i: int|
                    0 <= i < SHAPE_COUNT ==> (#[trigger] shape_name(i))@ != name@,
            },
    {
        match PieceShape::from_name(name) {
            Some(s) => Ok(s),
            None => Err(GameError::ParseError),
        }
    }

    /// Reads a catalog shape from the node's text.
    pub fn from_node(node: &Node) -> (r: Result<PieceShape, GameError>)
        ensures
            match r {
                Ok(s) => 0 <= s.id() < SHAPE_COUNT && shape_name(s.id())@ == node.content@ && s@
                    == crate::piece_shape::catalog_cells(s.id()),
                Err(e) => e == GameError::ParseError && forall|i: int|
                    0 <= i < SHAPE_COUNT ==> (#[trigger] shape_name(i))@ != node.content@,
            },
    {
        PieceShape::parse(node.content.as_str())
    }
}

impl Field {
    /// Reads a field from the attributes `x`, `y` and `content`.
    pub fn from_node(node: &Node) -> (r: Result<Field, GameError>)
        ensures
            r == match field_of(*node) {
                Some(f) => Ok::<Field, GameError>(f),
                None => Err(GameError::ParseError),
            },
    {
        proof {
            reveal_strlit("content");
            assert("content"@ =~= seq!['c', 'o', 'n', 't', 'e', 'n', 't']);
        }
        let position = Vec2::from_node(node)?;
        let raw = node.attribute("content")?;
        let content = Color::parse(raw.as_str())?;
        Ok(Field { position, content })
    }
}

impl Board {
    /// Reads a board from its children called `field`; a field off the board
    /// is refused.
    pub fn from_node(node: &Node) -> (r: Result<Board, GameError>)
        ensures
            r.is_ok() == fields_ok(node.children@),
            match r {
                Ok(b) => forall|p: (int, int)| #[trigger] b.color_at(p) == painted(node.children@, p),
                Err(e) => e == GameError::ParseError,
            },
    {
        proof {
            reveal_strlit("field");
            assert("field"@ =~= seq!['f', 'i', 'e', 'l', 'd']);
        }
        let mut board = Board::new();
        let wanted = "field".to_owned();
        let mut i: usize = 0;
        while i < node.children.len()
            invariant
                i <= node.children@.len(),
                wanted@ == seq!['f', 'i', 'e', 'l', 'd'],
                fields_ok(node.children@.take(i as int)),
                forall|p: (int, int)| #[trigger] board.color_at(p) == painted(node.children@.take(i as int), p),
            decreases node.children@.len() - i,
        {
            let ghost before = node.children@.take(i as int);
            let ghost after = node.children@.take(i as int + 1);
            assert(after.drop_last() =~= before);
            let child = &node.children[i];
            if child.name == wanted {
                let field = match Field::from_node(child) {
                    Ok(f) => f,
                    Err(e) => {
                        assert(!fields_ok(node.children@)) by {
                            assert(node.children@[i as int] == *child);
                        }
                        return Err(e);
                    },
                };
                if !Board::is_in_bounds(field.position) {
                    assert(!fields_ok(node.children@)) by {
                        assert(node.children@[i as int] == *child);
                    }
                    return Err(GameError::ParseError);
                }
                board.set(field.position, field.content);
            }
            assert(fields_ok(after)) by {
                assert forall|k: int| 0 <= k < after.len() && is_field_node(#[trigger] after[k]) implies match field_of(after[k]) {
                    Some(f) => in_bounds(pt(f.position)),
                    None => false,
                } by {
                    if k < i {
                        assert(after[k] == before[k]);
                    }
                }
            }
            i = i + 1;
        }
        assert(node.children@.take(node.children@.len() as int) =~= node.children@);
        Ok(board)
    }
}

/// The first child of `node` called `name`.
pub open spec fn child_of(node: Node, name: Seq<char>) -> Option<Node> {
    match child_index(node.children@, name) {
        Some(i) => Some(node.children@[i]),
        None => None,
    }
}

/// The texts of the children called `name`, in order.
pub open spec fn contents_of(children: Seq<Node>, name: Seq<char>) -> Seq<Seq<char>>
    decreases children.len(),
{
    if children.len() == 0 {
        Seq::empty()
    } else if children.last().name@ == name {
        contents_of(children.drop_last(), name).push(children.last().content@)
    } else {
        contents_of(children.drop_last(), name)
    }
}

/// `s` is the name of a catalog shape.
pub open spec fn is_shape_name(s: Seq<char>) -> bool {
    exists|i: int| 0 <= i < SHAPE_COUNT && (#[trigger] shape_name(i))@ == s
}

/// Every text names a colour, in any case.
pub open spec fn colors_ok(names: Seq<Seq<char>>) -> bool {
    forall|k: int| 0 <= k < names.len() ==> color_named(upper_of(#[trigger] names[k])) is Some
}

/// `v` holds the colours that the texts name.
pub open spec fn colors_named(v: Seq<Color>, names: Seq<Seq<char>>) -> bool {
    v.len() == names.len() && forall|k: int| 0 <= k < names.len() ==> color_named(upper_of(#[trigger] names[k])) == Some(v[k])
}

/// Every text names a catalog shape.
pub open spec fn shapes_ok(names: Seq<Seq<char>>) -> bool {
    forall|k: int| 0 <= k < names.len() ==> is_shape_name(#[trigger] names[k])
}

/// `v` holds the catalog shapes that the texts name.
pub open spec fn shapes_named(v: Seq<PieceShape>, names: Seq<Seq<char>>) -> bool {
    v.len() == names.len() && forall|k: int|
        0 <= k < names.len() ==> shape_name((#[trigger] v[k]).id())@ == names[k] && 0 <= v[k].id() < SHAPE_COUNT
            && v[k]@ == crate::piece_shape::catalog_cells(v[k].id())
}

/// The attribute `key` is present and reads as a `u32`.
pub open spec fn u32_attr_ok(node: Node, key: Seq<char>) -> bool {
    attr_value(node.attributes@, key) is Some && u32_of(attr_value(node.attributes@, key)->Some_0) is Some
}

/// The `u32` that attribute `key` reads as.
pub open spec fn u32_attr(node: Node, key: Seq<char>) -> u32 {
    u32_of(attr_value(node.attributes@, key)->Some_0)->Some_0
}

/// The text of the node names a colour, in any case.
pub open spec fn color_node_ok(n: Option<Node>) -> bool {
    n is Some && color_named(upper_of(n->Some_0.content@)) is Some
}

/// The text of the node names a team, in any case.
pub open spec fn team_node_ok(n: Option<Node>) -> bool {
    n is Some && team_named(upper_of(n->Some_0.content@)) is Some
}

/// The node describes a player: a `color` child naming a team, and a
/// `displayName`.
pub open spec fn player_ok(n: Node) -> bool {
    team_node_ok(child_of(n, "color"@)) && attr_value(n.attributes@, "displayName"@) is Some
}

/// `p` is the player that the node describes.
pub open spec fn player_read(p: crate::player::Player, n: Node) -> bool {
    &&& team_named(upper_of(child_of(n, "color"@)->Some_0.content@)) == Some(p.team)
    &&& attr_value(n.attributes@, "displayName"@) == Some(p.display_name@)
}

/// The node describes a piece.
pub open spec fn piece_ok(node: Node) -> bool {
    &&& attr_value(node.attributes@, "color"@) is Some
    &&& color_named(upper_of(attr_value(node.attributes@, "color"@)->Some_0)) is Some
    &&& attr_value(node.attributes@, "kind"@) is Some
    &&& is_shape_name(attr_value(node.attributes@, "kind"@)->Some_0)
    &&& attr_value(node.attributes@, "rotation"@) is Some
    &&& rotation_named(upper_of(attr_value(node.attributes@, "rotation"@)->Some_0)) is Some
    &&& attr_value(node.attributes@, "isFlipped"@) is Some
    &&& bool_named(attr_value(node.attributes@, "isFlipped"@)->Some_0) is Some
    &&& child_of(node, "position"@) is Some
    &&& vec2_of(child_of(node, "position"@)->Some_0.attributes@) is Some
}

/// The child `name` of `node` is a list whose `shape` children name catalog
/// shapes.
pub open spec fn shape_list_ok(node: Node, name: Seq<char>) -> bool {
    child_of(node, name) is Some && shapes_ok(contents_of(child_of(node, name)->Some_0.children@, "shape"@))
}

/// `v` is the list of shapes that the child `name` of `node` gives.
pub open spec fn shape_list_read(v: Seq<PieceShape>, node: Node, name: Seq<char>) -> bool {
    shapes_named(v, contents_of(child_of(node, name)->Some_0.children@, "shape"@))
}

/// The node describes a game state.
pub open spec fn state_ok(node: Node) -> bool {
    &&& u32_attr_ok(node, "turn"@)
    &&& u32_attr_ok(node, "round"@)
    &&& u32_attr_ok(node, "currentColorIndex"@)
    &&& attr_value(node.attributes@, "startPiece"@) is Some
    &&& is_shape_name(attr_value(node.attributes@, "startPiece"@)->Some_0)
    &&& child_of(node, "first"@) is Some && player_ok(child_of(node, "first"@)->Some_0)
    &&& child_of(node, "second"@) is Some && player_ok(child_of(node, "second"@)->Some_0)
    &&& child_of(node, "board"@) is Some && fields_ok(child_of(node, "board"@)->Some_0.children@)
    &&& color_node_ok(child_of(node, "startColor"@))
    &&& team_node_ok(child_of(node, "startTeam"@))
    &&& child_of(node, "orderedColors"@) is Some
    &&& colors_ok(contents_of(child_of(node, "orderedColors"@)->Some_0.children@, "color"@))
    &&& shape_list_ok(node, "blueShapes"@)
    &&& shape_list_ok(node, "yellowShapes"@)
    &&& shape_list_ok(node, "redShapes"@)
    &&& shape_list_ok(node, "greenShapes"@)
}

/// The first child called `name`, or a parse error.
fn child<'a>(node: &'a Node, name: &str) -> (r: Result<&'a Node, GameError>)
    ensures
        match r {
            Ok(c) => child_of(*node, name@) == Some(*c),
            Err(e) => e == GameError::ParseError && child_of(*node, name@) is None,
        },
{
    node.child_by_name(name)
}

/// Reads the children called `color` of a node as colours.
fn colors_from(node: &Node) -> (r: Result<Vec<Color>, GameError>)
    ensures
        r is Ok == colors_ok(contents_of(node.children@, "color"@)),
        match r {
            Ok(v) => colors_named(v@, contents_of(node.children@, "color"@)),
            Err(e) => e == GameError::ParseError,
        },
{
    let wanted = "color".to_owned();
    let mut r: Vec<Color> = Vec::new();
    let mut i: usize = 0;
    while i < node.children.len()
        invariant
            i <= node.children@.len(),
            wanted@ == "color"@,
            colors_ok(contents_of(node.children@.take(i as int), "color"@)),
            colors_named(r@, contents_of(node.children@.take(i as int), "color"@)),
        decreases node.children@.len() - i,
    {
        let ghost before = node.children@.take(i as int);
        let ghost after = node.children@.take(i as int + 1);
        assert(after.drop_last() =~= before);
        assert(after.last() == node.children@[i as int]);
        if node.children[i].name == wanted {
            let c = match Color::from_node(&node.children[i]) {
                Ok(c) => c,
                Err(e) => {
                    proof {
                        lemma_contents_prefix(node.children@, "color"@, i as int + 1);
                        let k = contents_of(before, "color"@).len() as int;
                        assert(contents_of(after, "color"@)[k] == contents_of(node.children@, "color"@)[k]);
                    }
                    return Err(e);
                },
            };
            r.push(c);
        }
        i = i + 1;
    }
    assert(node.children@.take(node.children@.len() as int) =~= node.children@);
    Ok(r)
}

/// The texts of a prefix of the children start the texts of all of them.
proof fn lemma_contents_prefix(children: Seq<Node>, name: Seq<char>, n: int)
    requires
        0 <= n <= children.len(),
    ensures
        contents_of(children.take(n), name).len() <= contents_of(children, name).len(),
        forall|k: int|
            0 <= k < contents_of(children.take(n), name).len() ==> #[trigger] contents_of(children.take(n), name)[k]
                == contents_of(children, name)[k],
    decreases children.len() - n,
{
    if n < children.len() {
        lemma_contents_prefix(children, name, n + 1);
        assert(children.take(n + 1).drop_last() =~= children.take(n));
        let a = contents_of(children.take(n), name);
        let b = contents_of(children.take(n + 1), name);
        assert(b == a || b == a.push(children.take(n + 1).last().content@));
        assert forall|k: int| 0 <= k < a.len() implies #[trigger] a[k] == contents_of(children, name)[k] by {
            assert(a[k] == b[k]);
        }
    } else {
        assert(children.take(n) =~= children);
    }
}

/// Reads the children called `shape` of a list node as catalog shapes.
fn shapes_from(list: &Node) -> (r: Result<Vec<PieceShape>, GameError>)
    ensures
        r is Ok == shapes_ok(contents_of(list.children@, "shape"@)),
        match r {
            Ok(v) => shapes_named(v@, contents_of(list.children@, "shape"@)),
            Err(e) => e == GameError::ParseError,
        },
{
    let wanted = "shape".to_owned();
    let mut r: Vec<PieceShape> = Vec::new();
    let mut i: usize = 0;
    while i < list.children.len()
        invariant
            i <= list.children@.len(),
            wanted@ == "shape"@,
            shapes_ok(contents_of(list.children@.take(i as int), "shape"@)),
            shapes_named(r@, contents_of(list.children@.take(i as int), "shape"@)),
        decreases list.children@.len() - i,
    {
        let ghost before = list.children@.take(i as int);
        let ghost after = list.children@.take(i as int + 1);
        assert(after.drop_last() =~= before);
        assert(after.last() == list.children@[i as int]);
        if list.children[i].name == wanted {
            let s = match PieceShape::from_node(&list.children[i]) {
                Ok(s) => s,
                Err(e) => {
                    proof {
                        lemma_contents_prefix(list.children@, "shape"@, i as int + 1);
                        let k = contents_of(before, "shape"@).len() as int;
                        assert(contents_of(after, "shape"@)[k] == contents_of(list.children@, "shape"@)[k]);
                    }
                    return Err(e);
                },
            };
            r.push(s);
        }
        i = i + 1;
    }
    assert(list.children@.take(list.children@.len() as int) =~= list.children@);
    Ok(r)
}

impl Piece {
    /// Reads a piece from the attributes `color`, `kind`, `rotation` and
    /// `isFlipped` and the child `position`.
    pub fn from_node(node: &Node) -> (r: Result<Piece, GameError>)
        ensures
            r is Ok == piece_ok(*node),
            match r {
                Ok(p) => {
                    &&& color_named(upper_of(attr_value(node.attributes@, "color"@)->Some_0)) == Some(p.color)
                    &&& attr_value(node.attributes@, "kind"@) == Some(shape_name(p.kind.id())@)
                    &&& p.kind@ == crate::piece_shape::catalog_cells(p.kind.id())
                    &&& rotation_named(upper_of(attr_value(node.attributes@, "rotation"@)->Some_0)) == Some(p.rotation)
                    &&& bool_named(attr_value(node.attributes@, "isFlipped"@)->Some_0) == Some(p.is_flipped)
                    &&& vec2_of(child_of(*node, "position"@)->Some_0.attributes@) == Some(p.position)
                },
                Err(e) => e == GameError::ParseError,
            },
    {
        let color = Color::parse(node.attribute("color")?.as_str())?;
        let kind = PieceShape::parse(node.attribute("kind")?.as_str())?;
        let rotation = Rotation::parse(node.attribute("rotation")?.as_str())?;
        let is_flipped = parse_bool(node.attribute("isFlipped")?.as_str())?;
        let position = Vec2::from_node(child(node, "position")?)?;
        Ok(Piece { kind, rotation, is_flipped, color, position })
    }

    /// Writes the piece as a node called `piece`.
    pub fn to_node(&self) -> (r: Node)
        ensures
            r.name@ == "piece"@,
            r.attributes@.len() == 4,
            r.attributes@[0].0@ == "color"@ && r.attributes@[0].1@ == color_name(self.color),
            r.attributes@[1].0@ == "kind"@ && r.attributes@[1].1@ == shape_name(self.kind.id())@,
            r.attributes@[2].0@ == "rotation"@ && r.attributes@[2].1@ == crate::rotation::rotation_name(self.rotation),
            r.attributes@[3].0@ == "isFlipped"@ && bool_named(r.attributes@[3].1@) == Some(self.is_flipped),
            r.children@.len() == 1,
            r.children@[0].name@ == "position"@,
            r.children@[0].attributes@.len() == 2,
            r.children@[0].attributes@[0].0@ == "x"@ && r.children@[0].attributes@[0].1@ == decimal_of(self.position.x),
            r.children@[0].attributes@[1].0@ == "y"@ && r.children@[0].attributes@[1].1@ == decimal_of(self.position.y),
    {
        let mut n = Node::new("piece");
        n.add_attribute("color", self.color.name().to_owned());
        n.add_attribute("kind", self.kind.name().to_owned());
        n.add_attribute("rotation", self.rotation.name().to_owned());
        n.add_attribute("isFlipped", bool_text(self.is_flipped));
        let mut position = Node::new("position");
        position.add_attribute("x", decimal(self.position.x));
        position.add_attribute("y", decimal(self.position.y));
        n.add_child(position);
        n
    }
}

impl Move {
    /// Writes the move as a node called `data` whose `class` names its kind.
    pub fn to_node(&self) -> (r: Node)
        ensures
            r.name@ == "data"@,
            r.attributes@.len() == 1,
            r.attributes@[0].0@ == "class"@,
            r.children@.len() == 1,
            self is Place ==> r.attributes@[0].1@ == "sc.plugin2021.SetMove"@ && r.children@[0].name@ == "piece"@,
            self is Skip ==> r.attributes@[0].1@ == "sc.plugin2021.SkipMove"@ && r.children@[0].name@ == "color"@
                && r.children@[0].content@ == color_name(self->Skip_color),
    {
        let mut n = Node::new("data");
        match self {
            Move::Place { piece } => {
                n.add_attribute("class", "sc.plugin2021.SetMove".to_owned());
                n.add_child(piece.to_node());
            },
            Move::Skip { color } => {
                n.add_attribute("class", "sc.plugin2021.SkipMove".to_owned());
                let mut c = Node::new("color");
                c.content = color.name().to_owned();
                n.add_child(c);
            },
        }
        n
    }
}

impl crate::player::Player {
    /// Reads a player from the child `color` (its team) and the attribute
    /// `displayName`.
    pub fn from_node(node: &Node) -> (r: Result<crate::player::Player, GameError>)
        ensures
            r is Ok == player_ok(*node),
            match r {
                Ok(p) => player_read(p, *node),
                Err(e) => e == GameError::ParseError,
            },
    {
        let team = Team::from_node(child(node, "color")?)?;
        let display_name = node.attribute("displayName")?.clone();
        Ok(crate::player::Player { team, display_name })
    }
}

impl crate::game_state::GameState {
    /// Reads a game state from its attributes `turn`, `round`, `startPiece`
    /// and `currentColorIndex` and its children `first`, `second`, `board`,
    /// `startColor`, `startTeam`, `orderedColors` and the four `*Shapes`.
    pub fn from_node(node: &Node) -> (r: Result<crate::game_state::GameState, GameError>)
        ensures
            r is Ok == state_ok(*node),
            match r {
                Ok(s) => {
                    &&& s.turn == u32_attr(*node, "turn"@)
                    &&& s.round == u32_attr(*node, "round"@)
                    &&& s.current_color_index == u32_attr(*node, "currentColorIndex"@)
                    &&& attr_value(node.attributes@, "startPiece"@) == Some(shape_name(s.start_piece.id())@)
                    &&& s.start_piece@ == crate::piece_shape::catalog_cells(s.start_piece.id())
                    &&& player_read(s.first, child_of(*node, "first"@)->Some_0)
                    &&& player_read(s.second, child_of(*node, "second"@)->Some_0)
                    &&& forall|p: (int, int)|
                        #[trigger] s.board.color_at(p) == painted(child_of(*node, "board"@)->Some_0.children@, p)
                    &&& color_named(upper_of(child_of(*node, "startColor"@)->Some_0.content@)) == Some(s.start_color)
                    &&& team_named(upper_of(child_of(*node, "startTeam"@)->Some_0.content@)) == Some(s.start_team)
                    &&& colors_named(
                        s.ordered_colors@,
                        contents_of(child_of(*node, "orderedColors"@)->Some_0.children@, "color"@),
                    )
                    &&& shape_list_read(s.blue_shapes@, *node, "blueShapes"@)
                    &&& shape_list_read(s.yellow_shapes@, *node, "yellowShapes"@)
                    &&& shape_list_read(s.red_shapes@, *node, "redShapes"@)
                    &&& shape_list_read(s.green_shapes@, *node, "greenShapes"@)
                    &&& forall|k: int| 0 <= k < 4 ==> s.last_move_mono[k] is None
                },
                Err(e) => e == GameError::ParseError,
            },
    {
        let turn = u32_attribute(node, "turn")?;
        let round = u32_attribute(node, "round")?;
        let first = crate::player::Player::from_node(child(node, "first")?)?;
        let second = crate::player::Player::from_node(child(node, "second")?)?;
        let board = Board::from_node(child(node, "board")?)?;
        let start_piece = PieceShape::parse(node.attribute("startPiece")?.as_str())?;
        let start_color = Color::from_node(child(node, "startColor")?)?;
        let start_team = Team::from_node(child(node, "startTeam")?)?;
        let ordered_colors = colors_from(child(node, "orderedColors")?)?;
        let current_color_index = u32_attribute(node, "currentColorIndex")?;
        let blue_shapes = shapes_from(child(node, "blueShapes")?)?;
        let yellow_shapes = shapes_from(child(node, "yellowShapes")?)?;
        let red_shapes = shapes_from(child(node, "redShapes")?)?;
        let green_shapes = shapes_from(child(node, "greenShapes")?)?;
        let r = crate::game_state::GameState {
            turn,
            round,
            first,
            second,
            board,
            start_piece,
            start_color,
            start_team,
            ordered_colors,
            last_move_mono: [None; crate::color::COLOR_COUNT],
            current_color_index,
            blue_shapes,
            yellow_shapes,
            red_shapes,
            green_shapes,
        };
        assert forall|k: int| 0 <= k < 4 implies r.last_move_mono[k] is None by {
            assert(r.last_move_mono@[k] is None);
        }
        Ok(r)
    }
}

impl crate::data::Data {
    /// Writes a move message; other messages are not written.
    pub fn to_node(&self) -> (r: Result<Node, GameError>)
        ensures
            self is Move <==> r is Ok,
            r is Err ==> r == Err::<Node, GameError>(GameError::ParseError),
            r is Ok ==> r->Ok_0.name@ == "data"@,
    {
        match self {
            crate::data::Data::Move(m) => Ok(m.to_node()),
            _ => Err(GameError::ParseError),
        }
    }

    /// Reads a message by the value of its `class` attribute: a welcome
    /// message (its team in `color`), a snapshot (its child `state`), a move
    /// request or an error (its `message`).
    pub fn from_node(node: &Node) -> (r: Result<crate::data::Data, GameError>)
        ensures
            attr_value(node.attributes@, "class"@) is None ==> r == Err::<crate::data::Data, GameError>(
                GameError::ParseError,
            ),
            attr_value(node.attributes@, "class"@) == Some("sc.framework.plugins.protocol.MoveRequest"@) ==> r
                is Ok && r->Ok_0 is MoveRequest,
            r is Ok && r->Ok_0 is WelcomeMessage ==> attr_value(node.attributes@, "class"@) == Some(
                "welcomeMessage"@,
            ),
            r is Ok && r->Ok_0 is Memento ==> attr_value(node.attributes@, "class"@) == Some("memento"@),
            r is Ok && r->Ok_0 is Error ==> attr_value(node.attributes@, "class"@) == Some("error"@)
                && attr_value(node.attributes@, "message"@) == Some(r->Ok_0->Error_message@),
            r is Ok && r->Ok_0 is MoveRequest ==> attr_value(node.attributes@, "class"@) == Some(
                "sc.framework.plugins.protocol.MoveRequest"@,
            ),
            r is Ok ==> !(r->Ok_0 is Move),
            r is Err ==> r == Err::<crate::data::Data, GameError>(GameError::ParseError),
    {
        proof {
            reveal_strlit("welcomeMessage");
            reveal_strlit("memento");
            reveal_strlit("error");
            reveal_strlit("sc.framework.plugins.protocol.MoveRequest");
            assert("welcomeMessage"@.len() != "sc.framework.plugins.protocol.MoveRequest"@.len());
            assert("memento"@.len() != "sc.framework.plugins.protocol.MoveRequest"@.len());
        }
        let class = node.attribute("class")?;
        if *class == "welcomeMessage".to_owned() {
            let team = Team::parse(node.attribute("color")?.as_str())?;
            Ok(crate::data::Data::WelcomeMessage { team })
        } else if *class == "memento".to_owned() {
            let state = crate::game_state::GameState::from_node(node.child_by_name("state")?)?;
            Ok(crate::data::Data::Memento { state })
        } else if *class == "sc.framework.plugins.protocol.MoveRequest".to_owned() {
            Ok(crate::data::Data::MoveRequest)
        } else if *class == "error".to_owned() {
            let message = node.attribute("message")?.clone();
            Ok(crate::data::Data::Error { message })
        } else {
            Err(GameError::ParseError)
        }
    }
}

} // verus!
