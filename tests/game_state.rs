use blokus_engine::{Color, GameError, GameState, Move, Piece, PieceShape, Rotation, Team, Vec2};

fn shape(name: &str) -> PieceShape {
    PieceShape::from_name(name).unwrap()
}

#[test]
fn test_game_state() {
    let start_piece = "PENTO_Y";
    let mut state = GameState::new(shape(start_piece));

    // Verify that the initial setup is correct
    assert_eq!(state.current_color(), Color::Blue);
    assert_eq!(state.current_team(), Team::One);
    assert_eq!(state.start_color, state.current_color());
    assert_eq!(state.start_team, state.current_team());
    assert_eq!(state.ordered_colors[state.current_color_index as usize], state.current_color());
    assert_eq!(state.board.count_obstructed(), 0);
    assert!(state.is_first_move());

    {
        let possible_moves: Vec<_> = state.possible_moves();
        let possible_first_moves: Vec<_> = state.possible_first_moves();

        assert!(!possible_moves.is_empty());
        assert_eq!(possible_moves, possible_first_moves);

        let shapes = possible_moves
            .iter()
            .cloned()
            .map(|m| match m {
                Move::Place { piece } => piece.shape().ascii_art().to_string(),
                _ => panic!("Skip moves should never be first!"),
            })
            .map(|s| s.trim().to_string())
            .collect::<Vec<_>>();

        assert!(shapes.contains(&"#....\n##...\n#....\n#....\n.....".to_string()));
        assert!(shapes.contains(&"####.\n..#..\n.....\n.....\n.....".to_string()));
        assert!(shapes.contains(&"####.\n.#...\n.....\n.....\n.....".to_string()));
        assert!(shapes.contains(&"#....\n#....\n##...\n#....\n.....".to_string()));

        state.perform_move(possible_moves[0].clone()).unwrap();
    }
    {
        let possible_moves: Vec<_> = state.possible_moves();

        assert!(state.is_first_move());
        assert_eq!(state.current_color(), Color::Yellow);
        assert_eq!(state.current_team(), Team::Two);
        assert!(!possible_moves.is_empty());
    }
}

#[test]
fn first_move_keeps_blue_cells() {
    let mut state = GameState::new(shape("PENTO_Y"));
    let moves = state.possible_moves();
    state.perform_move(moves[0]).unwrap();
    assert_eq!(state.board.count_obstructed(), 5);
    assert_eq!(state.turn, 1);
    assert_eq!(state.round, 1);
    assert_eq!(state.current_color_index, 1);
    assert_eq!(state.blue_shapes.len(), 20);
    assert_eq!(state.yellow_shapes.len(), 21);
    if let Move::Place { piece } = moves[0] {
        for c in piece.coordinates() {
            assert_eq!(state.board.get(c), Color::Blue);
        }
    } else {
        panic!("a first move places a piece");
    }
}

#[test]
fn skip_on_first_move_is_refused() {
    let mut state = GameState::new(shape("PENTO_Y"));
    assert_eq!(state.perform_move(Move::Skip { color: Color::Blue }), Err(GameError::SkipInFirstMove));
    assert_eq!(state.turn, 0);
    assert_eq!(state.current_color_index, 0);
    assert_eq!(state.current_color(), Color::Blue);
}

#[test]
fn color_mismatch_is_refused() {
    let mut state = GameState::new(shape("PENTO_Y"));
    assert_eq!(
        state.perform_move(Move::Skip { color: Color::Yellow }),
        Err(GameError::MoveColorMismatch { expected: Color::Blue, found: Color::Yellow })
    );
    assert_eq!(state.turn, 0);
}

#[test]
fn scoring_from_undeployed() {
    assert_eq!(GameState::get_points_from_undeployed(&Vec::new(), true), 109);
    assert_eq!(GameState::get_points_from_undeployed(&Vec::new(), false), 104);
    assert_eq!(GameState::get_points_from_undeployed(&PieceShape::catalog(), false), 0);
    assert_eq!(GameState::get_points_from_undeployed(&vec![shape("PENTO_X"), shape("MONO")], false), 83);
}

fn mono_at(x: i32, y: i32) -> Piece {
    Piece {
        kind: shape("MONO"),
        rotation: Rotation::Identity,
        is_flipped: false,
        color: Color::Blue,
        position: Vec2::new(x, y),
    }
}

#[test]
fn corner_placement() {
    let state = GameState::new(shape("MONO"));
    assert_eq!(state.validate_set_move(&mono_at(0, 0)), Ok(()));
    assert_eq!(state.validate_set_move(&mono_at(0, 1)), Err(GameError::MissingCornerAnchor));
    assert_eq!(state.validate_set_move(&mono_at(19, 19)), Ok(()));
    assert_eq!(state.validate_set_move(&mono_at(20, 0)), Err(GameError::OutOfBounds(Vec2::new(20, 0))));
}

#[test]
fn first_move_needs_start_shape() {
    let state = GameState::new(shape("PENTO_Y"));
    assert_eq!(state.validate_set_move(&mono_at(0, 0)), Err(GameError::NotStartShape));
}

#[test]
fn later_moves_need_diagonal_touch() {
    let mut state = GameState::new(shape("MONO"));
    for (color, x, y) in [(Color::Blue, 0, 0), (Color::Yellow, 19, 0), (Color::Red, 19, 19), (Color::Green, 0, 19)] {
        let mut piece = mono_at(x, y);
        piece.color = color;
        state.perform_move(Move::Place { piece }).unwrap();
    }
    assert_eq!(state.round, 1);
    assert_eq!(state.turn, 4);
    assert!(!state.is_first_move());
    let domino = |x: i32, y: i32| Piece {
        kind: shape("DOMINO"),
        rotation: Rotation::Identity,
        is_flipped: false,
        color: Color::Blue,
        position: Vec2::new(x, y),
    };
    assert_eq!(state.validate_set_move(&domino(1, 1)), Ok(()));
    assert_eq!(state.validate_set_move(&domino(1, 0)), Err(GameError::EdgeNeighborSameColor(Vec2::new(1, 0))));
    assert_eq!(state.validate_set_move(&domino(0, 0)), Err(GameError::Obstructed(Vec2::new(0, 0))));
    assert_eq!(state.validate_set_move(&domino(5, 5)), Err(GameError::MissingDiagonalTouch));
    assert_eq!(state.validate_set_move(&mono_at(1, 1)), Err(GameError::PieceAlreadyPlaced));
    let moves = state.possible_moves();
    assert!(moves.contains(&Move::Place { piece: domino(1, 1) }));
    assert_eq!(moves.last(), Some(&Move::Skip { color: Color::Blue }));
    for m in &moves {
        if let Move::Place { piece } = m {
            assert_eq!(state.validate_set_move(piece), Ok(()));
        }
    }
    let skipped = state.after_move(Move::Skip { color: Color::Blue }).unwrap();
    assert_eq!(skipped.current_color(), Color::Yellow);
    assert_eq!(skipped.turn, 5);
    assert_eq!(state.turn, 4);
}

#[test]
fn after_move_is_deterministic() {
    let state = GameState::new(shape("PENTO_Y"));
    let m = state.possible_moves()[3];
    let a = state.after_move(m).unwrap();
    let b = state.duplicate().after_move(m).unwrap();
    assert_eq!(a.turn, b.turn);
    assert_eq!(a.current_color_index, b.current_color_index);
    for y in 0..20 {
        for x in 0..20 {
            assert_eq!(a.board.get(Vec2::new(x, y)), b.board.get(Vec2::new(x, y)));
        }
    }
    assert_eq!(a.blue_shapes, b.blue_shapes);
}

#[test]
fn transform_laws_on_catalog() {
    for s in PieceShape::catalog() {
        let id = s.transform(Rotation::Identity, false);
        assert_eq!(id.ascii_art(), s.ascii_art());
        let four = s.rotate(Rotation::Right).rotate(Rotation::Right).rotate(Rotation::Right).rotate(Rotation::Right);
        assert_eq!(four.ascii_art(), s.ascii_art());
        assert_eq!(s.flip().flip().ascii_art(), s.ascii_art());
        assert_eq!(s.variants().len(), 8);
        assert_eq!(s.transformations().len(), 8);
    }
}

#[test]
fn rotations_of_the_l_tetromino() {
    let l = shape("TETRO_L");
    assert_eq!(l.ascii_art(), "#....\n#....\n##...\n.....\n.....\n");
    assert_eq!(l.rotate(Rotation::Right).ascii_art(), "###..\n#....\n.....\n.....\n.....\n");
    assert_eq!(l.rotate(Rotation::Left).ascii_art(), "..#..\n###..\n.....\n.....\n.....\n");
    assert_eq!(l.rotate(Rotation::Mirror).ascii_art(), "##...\n.#...\n.#...\n.....\n.....\n");
    assert_eq!(l.flip().ascii_art(), ".#...\n.#...\n##...\n.....\n.....\n");
    assert_eq!(l.bounding_box(), Vec2::new(1, 2));
    assert_eq!(l.rotate(Rotation::Right).bounding_box(), Vec2::new(2, 1));
    assert_eq!(l.name(), "TETRO_L");
    assert_eq!(l.rotate(Rotation::Right), l);
}

#[test]
fn coordinate_set_round_trip() {
    for s in PieceShape::catalog() {
        let cells = s.coordinates();
        let set = blokus_engine::CoordinateSet::from_cells(&cells);
        assert_eq!(set.coordinates(), cells);
        assert_eq!(set.len(), s.size());
    }
    let mut set = blokus_engine::CoordinateSet::new();
    set.insert(Vec2::new(4, 4));
    set.insert(Vec2::new(0, 1));
    assert!(set.contains(Vec2::new(4, 4)));
    assert!(!set.contains(Vec2::new(5, 0)));
    assert_eq!(set.coordinates(), vec![Vec2::new(0, 1), Vec2::new(4, 4)]);
}

#[test]
fn board_queries() {
    let mut board = blokus_engine::Board::new();
    assert_eq!(board.get(Vec2::new(-1, 3)), Color::Empty);
    board.set(Vec2::new(3, 3), Color::Red);
    assert!(board.is_obstructed(Vec2::new(3, 3)));
    assert!(board.borders_on_color(Vec2::new(3, 4), Color::Red));
    assert!(!board.borders_on_color(Vec2::new(4, 4), Color::Red));
    assert!(board.corners_on_color(Vec2::new(4, 4), Color::Red));
    assert!(board.corners_on_color(Vec2::new(2, 2), Color::Red));
    assert!(board.corners_on_color(Vec2::new(4, 2), Color::Red));
    assert!(board.corners_on_color(Vec2::new(2, 4), Color::Red));
    assert_eq!(board.count_obstructed(), 1);
    assert!(blokus_engine::Board::is_on_corner(Vec2::new(19, 0)));
    assert!(!blokus_engine::Board::is_on_corner(Vec2::new(19, 1)));
    assert_eq!(blokus_engine::Board::align(Vec2::new(2, 1), blokus_engine::Corner::BottomRight), Vec2::new(17, 18));
    assert_eq!(blokus_engine::Board::align(Vec2::new(2, 1), blokus_engine::Corner::TopRight), Vec2::new(17, 0));
    assert_eq!(blokus_engine::Board::align(Vec2::new(2, 1), blokus_engine::Corner::BottomLeft), Vec2::new(0, 18));
}

#[test]
fn vectors_and_colors() {
    let v = Vec2::new(2, -3);
    assert_eq!(v.turn_right(), Vec2::new(3, 2));
    assert_eq!(v.turn_left(), Vec2::new(-3, -2));
    assert_eq!(v.flip(), Vec2::new(-2, -3));
    assert_eq!(v.add(Vec2::both(1)), Vec2::new(3, -2));
    assert_eq!(Vec2::new(1, 2).points_within(), vec![
        Vec2::new(0, 0), Vec2::new(1, 0), Vec2::new(0, 1), Vec2::new(1, 1), Vec2::new(0, 2), Vec2::new(1, 2)
    ]);
    assert_eq!(Color::Green.team(), Team::Two);
    assert_eq!(Color::Red.team(), Team::One);
    assert_eq!(Color::from_option(None), Color::Empty);
    assert_eq!(Color::Empty.to_option(), None);
    assert_eq!(Team::One.opponent(), Team::Two);
    assert_eq!(Color::Yellow.name(), "YELLOW");
    assert!(PieceShape::from_name("HEXO").is_none());
}

#[test]
fn walking_a_rectangle() {
    let mut it = Vec2::new(1, 1).iter_within();
    let mut seen = Vec::new();
    while let Some(v) = it.next() {
        seen.push(v);
    }
    assert_eq!(seen, vec![Vec2::new(0, 0), Vec2::new(1, 0), Vec2::new(0, 1), Vec2::new(1, 1)]);
    assert_eq!(it.next(), None);
}

#[test]
fn picking_a_move() {
    let state = GameState::new(shape("PENTO_Y"));
    assert!(state.is_well_formed());
    let logic = blokus_engine::OwnGameLogic;
    let moves = state.possible_moves();
    let picked = logic.pick_move(&state, moves.len() + 2).unwrap();
    assert_eq!(picked, moves[2]);
    let mut broken = state.duplicate();
    broken.ordered_colors.clear();
    assert!(!broken.is_well_formed());
}

#[test]
fn advancing_an_empty_queue_fails() {
    let mut state = GameState::new(shape("MONO"));
    state.ordered_colors.clear();
    state.current_color_index = 0;
    assert_eq!(state.try_advance(1), Err(GameError::GameOver));
    assert_eq!(state.turn, 0);
    let mut state = GameState::new(shape("MONO"));
    assert_eq!(state.try_advance(9), Ok(()));
    assert_eq!(state.current_color_index, 1);
    assert_eq!(state.round, 3);
    assert_eq!(state.turn, 9);
}

#[test]
fn occupied_fields_list_the_placed_piece() {
    let mut state = GameState::new(shape("TRIO_L"));
    let moves = state.possible_first_moves();
    state.perform_move(moves[0]).unwrap();
    let fields = state.board.occupied_fields();
    assert_eq!(fields.len(), 3);
    for f in &fields {
        assert_eq!(f.content, Color::Blue);
    }
}

#[test]
fn last_piece_records_monomino() {
    let mut state = GameState::new(shape("MONO"));
    state.ordered_colors = vec![Color::Blue];
    state.blue_shapes = vec![shape("DOMINO"), shape("MONO")];
    state.board.set(Vec2::new(5, 5), Color::Blue);
    let mono = Piece { position: Vec2::new(6, 6), ..mono_at(0, 0) };
    state.perform_move(Move::Place { piece: mono }).unwrap();
    assert_eq!(state.last_move_mono[0], None);
    assert_eq!(state.round, 2);
    let domino = Piece { kind: shape("DOMINO"), position: Vec2::new(7, 7), ..mono_at(0, 0) };
    state.perform_move(Move::Place { piece: domino }).unwrap();
    assert_eq!(state.last_move_mono[0], Some(false));
    assert!(state.blue_shapes.is_empty());
}

#[test]
fn parsing_names() {
    assert_eq!(Color::parse("blue"), Ok(Color::Blue));
    assert_eq!(Color::parse("GREEN"), Ok(Color::Green));
    assert_eq!(Color::parse("none"), Err(GameError::ParseError));
    assert_eq!(Color::from_upper_name("red"), Err(GameError::ParseError));
    assert_eq!(Team::parse("two"), Ok(Team::Two));
    assert_eq!(Team::parse("Nobody"), Err(GameError::ParseError));
    assert_eq!(Rotation::parse("mirror"), Ok(Rotation::Mirror));
    assert_eq!(Rotation::parse("NONE"), Ok(Rotation::Identity));
    assert_eq!(Rotation::from_number(3), Ok(Rotation::Left));
    assert_eq!(Rotation::from_number(4), Err(GameError::ParseError));
    assert_eq!(Rotation::Right.number(), 1);
    assert_eq!(Rotation::Left.name(), "LEFT");
    assert_eq!(Team::One.name(), "ONE");
}

fn node_with(name: &str, attrs: &[(&str, &str)]) -> blokus_engine::Node {
    let mut n = blokus_engine::Node::new(name);
    for (k, v) in attrs {
        n.add_attribute(k, v.to_string());
    }
    n
}

#[test]
fn pieces_round_trip_through_nodes() {
    let piece = Piece {
        kind: shape("PENTO_W"),
        rotation: Rotation::Left,
        is_flipped: true,
        color: Color::Green,
        position: Vec2::new(-3, 12),
    };
    let node = piece.to_node();
    assert_eq!(node.name, "piece");
    let back = Piece::from_node(&node).unwrap();
    assert_eq!(back, piece);
    assert_eq!(back.kind.index(), piece.kind.index());
    let m = Move::Place { piece }.to_node();
    assert_eq!(m.attribute("class").unwrap(), "sc.plugin2021.SetMove");
    let skip = Move::Skip { color: Color::Red }.to_node();
    assert_eq!(skip.attribute("class").unwrap(), "sc.plugin2021.SkipMove");
    assert_eq!(skip.child_by_name("color").unwrap().content, "RED");
    assert!(blokus_engine::Data::Move(Move::Skip { color: Color::Red }).to_node().is_ok());
    assert_eq!(blokus_engine::Data::MoveRequest.to_node().err(), Some(GameError::ParseError));
}

#[test]
fn reading_values_from_nodes() {
    assert_eq!(Vec2::from_node(&node_with("position", &[("x", "4"), ("y", "-2")])), Ok(Vec2::new(4, -2)));
    assert_eq!(Vec2::from_node(&node_with("position", &[("x", "4")])), Err(GameError::ParseError));
    assert_eq!(Vec2::from_node(&node_with("position", &[("x", "4"), ("y", "two")])), Err(GameError::ParseError));
    let mut board = blokus_engine::Node::new("board");
    board.add_child(node_with("field", &[("x", "1"), ("y", "2"), ("content", "blue")]));
    board.add_child(node_with("field", &[("x", "1"), ("y", "2"), ("content", "RED")]));
    board.add_child(node_with("other", &[]));
    let b = blokus_engine::Board::from_node(&board).unwrap();
    assert_eq!(b.get(Vec2::new(1, 2)), Color::Red);
    assert_eq!(b.count_obstructed(), 1);
    board.add_child(node_with("field", &[("x", "20"), ("y", "2"), ("content", "RED")]));
    assert_eq!(blokus_engine::Board::from_node(&board).err(), Some(GameError::ParseError));
    assert_eq!(blokus_engine::serial::parse_bool("true"), Ok(true));
    assert_eq!(blokus_engine::serial::parse_bool("True"), Err(GameError::ParseError));
}

#[test]
fn reading_a_game_state_and_messages() {
    let mut state = node_with(
        "state",
        &[("turn", "4"), ("round", "2"), ("startPiece", "PENTO_X"), ("currentColorIndex", "1")],
    );
    let mut first = node_with("first", &[("displayName", "Ann")]);
    let mut team = blokus_engine::Node::new("color");
    team.content = "ONE".to_string();
    first.add_child(team);
    let mut second = node_with("second", &[("displayName", "Ben")]);
    let mut team = blokus_engine::Node::new("color");
    team.content = "two".to_string();
    second.add_child(team);
    state.add_child(first);
    state.add_child(second);
    state.add_child(blokus_engine::Node::new("board"));
    let mut c = blokus_engine::Node::new("startColor");
    c.content = "BLUE".to_string();
    state.add_child(c);
    let mut t = blokus_engine::Node::new("startTeam");
    t.content = "ONE".to_string();
    state.add_child(t);
    let mut order = blokus_engine::Node::new("orderedColors");
    for name in ["BLUE", "YELLOW"] {
        let mut c = blokus_engine::Node::new("color");
        c.content = name.to_string();
        order.add_child(c);
    }
    state.add_child(order);
    for list in ["blueShapes", "yellowShapes", "redShapes", "greenShapes"] {
        let mut l = blokus_engine::Node::new(list);
        let mut s = blokus_engine::Node::new("shape");
        s.content = "MONO".to_string();
        l.add_child(s);
        state.add_child(l);
    }
    let s = GameState::from_node(&state).unwrap();
    assert_eq!(s.turn, 4);
    assert_eq!(s.round, 2);
    assert_eq!(s.current_color(), Color::Yellow);
    assert_eq!(s.start_piece.name(), "PENTO_X");
    assert_eq!(s.second.display_name, "Ben");
    assert_eq!(s.second.team, Team::Two);
    assert_eq!(s.blue_shapes.len(), 1);

    let mut memento = node_with("data", &[("class", "memento")]);
    memento.add_child(state);
    assert!(matches!(blokus_engine::Data::from_node(&memento), Ok(blokus_engine::Data::Memento { .. })));
    let welcome = node_with("data", &[("class", "welcomeMessage"), ("color", "two")]);
    assert!(matches!(
        blokus_engine::Data::from_node(&welcome),
        Ok(blokus_engine::Data::WelcomeMessage { team: Team::Two })
    ));
    let request = node_with("data", &[("class", "sc.framework.plugins.protocol.MoveRequest")]);
    assert!(matches!(blokus_engine::Data::from_node(&request), Ok(blokus_engine::Data::MoveRequest)));
    let unknown = node_with("data", &[("class", "weather")]);
    assert!(matches!(blokus_engine::Data::from_node(&unknown), Err(GameError::ParseError)));
}

#[test]
fn inventory_can_be_changed_in_place() {
    let mut state = GameState::new(shape("MONO"));
    state.undeployed_shapes_of_color_mut(Color::Red).pop();
    assert_eq!(state.red_shapes.len(), 20);
    assert_eq!(state.undeployed_shapes_of_color(Color::Blue).len(), 21);
}

#[test]
fn first_moves_come_in_generation_order() {
    let state = GameState::new(shape("PENTO_Y"));
    let mut expected = Vec::new();
    for rotation in [Rotation::Identity, Rotation::Left, Rotation::Right, Rotation::Mirror] {
        for flip in [true, false] {
            for corner in [
                blokus_engine::Corner::TopLeft,
                blokus_engine::Corner::TopRight,
                blokus_engine::Corner::BottomLeft,
                blokus_engine::Corner::BottomRight,
            ] {
                let kind = state.start_piece;
                let position = blokus_engine::Board::align(kind.transform(rotation, flip).bounding_box(), corner);
                let piece = Piece { kind, rotation, is_flipped: flip, color: Color::Blue, position };
                if state.validate_set_move(&piece).is_ok() {
                    expected.push(Move::Place { piece });
                }
            }
        }
    }
    assert_eq!(state.possible_first_moves(), expected);
    assert!(!expected.is_empty());
}

#[test]
fn integer_attributes_follow_std_parsing() {
    assert_eq!(Vec2::from_node(&node_with("p", &[("x", "+4"), ("y", "-0")])), Ok(Vec2::new(4, 0)));
    assert_eq!(Vec2::from_node(&node_with("p", &[("x", " 4"), ("y", "0")])), Err(GameError::ParseError));
    assert_eq!(Vec2::from_node(&node_with("p", &[("x", "2147483648"), ("y", "0")])), Err(GameError::ParseError));
    assert_eq!(Vec2::from_node(&node_with("p", &[("x", "-2147483648"), ("y", "0")])), Ok(Vec2::new(i32::MIN, 0)));
    let piece = Piece { position: Vec2::new(-17, 305), ..mono_at(0, 0) };
    let node = piece.to_node();
    let pos = node.child_by_name("position").unwrap();
    assert_eq!(pos.attribute("x").unwrap(), "-17");
    assert_eq!(pos.attribute("y").unwrap(), "305");
}

#[test]
fn later_moves_end_with_the_only_skip() {
    let mut state = GameState::new(shape("MONO"));
    for (color, x, y) in [(Color::Blue, 0, 0), (Color::Yellow, 19, 0), (Color::Red, 19, 19), (Color::Green, 0, 19)] {
        let mut piece = mono_at(x, y);
        piece.color = color;
        state.perform_move(Move::Place { piece }).unwrap();
    }
    let moves = state.possible_moves();
    let skips = moves.iter().filter(|m| matches!(m, Move::Skip { .. })).count();
    assert_eq!(skips, 1);
    assert_eq!(moves.last(), Some(&Move::Skip { color: Color::Blue }));
    assert!(moves.iter().all(|m| m.color() == Color::Blue));
}
