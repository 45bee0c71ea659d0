use muskox::Action;
use muskox::ActionType;
use muskox::Direction;
use muskox::ParseActionError;

#[test]
fn action_overview_test() {
    let action = Action::new_from_movetext("1-10-17").unwrap();
    assert_eq!(action.source(), 0);
    assert_eq!(action.destination(), 16);
    assert_eq!(action.jump_len(), 2);
    assert_eq!(action.action_type(), ActionType::Jump);

    let action = Action::new_from_movetext("1-6").unwrap();
    assert_eq!(action.source(), 0);
    assert_eq!(action.destination(), 5);
    assert_eq!(action.jump_len(), 0);
    assert_eq!(action.action_type(), ActionType::Move);

    let action = Action::new_from_movetext("10-19-12-3").unwrap();
    assert_eq!(action.source(), 9);
    assert_eq!(action.destination(), 2);
    assert_eq!(action.jump_len(), 3);
    assert_eq!(action.action_type(), ActionType::Jump);
}

#[test]
fn direction_test() {
    let action = Action::new_from_movetext("1-10-17").unwrap();
    assert_eq!(action.jump_direction(0), Some(Direction::DownRight));
    assert_eq!(action.jump_direction(1), Some(Direction::DownLeft));
    assert_eq!(action.jump_direction(2), None);

    let action = Action::new_from_movetext("1-6").unwrap();
    assert_eq!(action.jump_direction(0), None);

    let action = Action::new_from_movetext("10-19-12-3").unwrap();
    assert_eq!(action.jump_direction(1), Some(Direction::UpRight));
    assert_eq!(action.jump_direction(2), Some(Direction::UpLeft));
    assert_eq!(action.jump_direction(4), None);
}

#[test]
fn move_direction_test() {
    let action = Action::new_from_movetext("1-10-17").unwrap();
    assert_eq!(action.move_direction(), None);

    let action = Action::new_from_movetext("1-6").unwrap();
    assert_eq!(action.move_direction(), Some(Direction::DownRight));

    let action = Action::new_from_movetext("15-11").unwrap();
    assert_eq!(action.move_direction(), Some(Direction::UpRight));
}

#[test]
fn vector_round_trip() {
    // a capture sequence read back gives every field of the input
    let action = Action::new_from_vector(vec![10, 19, 12, 3]).unwrap();
    assert_eq!(action.source(), 9);
    assert_eq!(action.destination(), 2);
    assert_eq!(action.jump_len(), 3);
    assert_eq!(action.jump_direction(0), Some(Direction::DownRight));
    assert_eq!(action.jump_direction(1), Some(Direction::UpRight));
    assert_eq!(action.jump_direction(2), Some(Direction::UpLeft));
    assert_eq!(action.jump_direction(3), None);

    // a plain move read back gives the two squares and no leap
    let action = Action::new_from_vector(vec![19, 24]).unwrap();
    assert_eq!(action.source(), 18);
    assert_eq!(action.destination(), 23);
    assert_eq!(action.jump_len(), 0);
    assert_eq!(action.action_type(), ActionType::Move);
}

#[test]
fn range_boundary() {
    // position 32 is the last square of the board
    let action = Action::new_from_vector(vec![32, 28]).unwrap();
    assert_eq!(action.source(), 31);
    assert_eq!(action.destination(), 27);

    // position 33 lies off the board; the 0-based index is reported
    let err = Action::new_from_vector(vec![33, 28]).unwrap_err();
    assert_eq!(
        err,
        ParseActionError::PositionValueError { position: String::from("32") }
    );

    // position 0 wraps to index 255, which is off the board
    let err = Action::new_from_vector(vec![0, 5]).unwrap_err();
    assert_eq!(
        err,
        ParseActionError::PositionValueError { position: String::from("255") }
    );

    // the largest byte position wraps to a three-digit index
    let err = Action::new_from_vector(vec![255, 1]).unwrap_err();
    assert_eq!(
        err,
        ParseActionError::PositionValueError { position: String::from("254") }
    );
}

#[test]
fn length_boundary() {
    let err = Action::new_from_vector(vec![5]).unwrap_err();
    assert_eq!(err, ParseActionError::MoveQuantityError { quantity: 1 });

    let err = Action::new_from_vector(vec![]).unwrap_err();
    assert_eq!(err, ParseActionError::MoveQuantityError { quantity: 0 });

    let ten = vec![1, 10, 19, 28, 19, 10, 1, 10, 19, 28];
    let err = Action::new_from_vector(ten).unwrap_err();
    assert_eq!(err, ParseActionError::MoveQuantityError { quantity: 10 });

    // two positions are the shortest move
    assert!(Action::new_from_vector(vec![19, 24]).is_ok());

    // nine positions, eight leaps, are the longest
    let nine = vec![1, 10, 19, 28, 19, 10, 1, 10, 19];
    let action = Action::new_from_vector(nine).unwrap();
    assert_eq!(action.jump_len(), 8);
    assert_eq!(action.jump_direction(7), Some(Direction::DownRight));
    assert_eq!(action.jump_direction(8), None);
}

#[test]
fn classification_boundary() {
    // deltas 3, 4 and 5 between two squares make a plain move
    let action = Action::new_from_vector(vec![5, 8]).unwrap();
    assert_eq!(action.action_type(), ActionType::Move);
    assert_eq!(action.jump_len(), 0);
    let action = Action::new_from_vector(vec![5, 9]).unwrap();
    assert_eq!(action.action_type(), ActionType::Move);
    let action = Action::new_from_vector(vec![1, 6]).unwrap();
    assert_eq!(action.action_type(), ActionType::Move);

    // deltas 7 and 9 make a single capturing leap
    let action = Action::new_from_vector(vec![1, 10]).unwrap();
    assert_eq!(action.action_type(), ActionType::Jump);
    assert_eq!(action.jump_len(), 1);
    assert_eq!(action.jump_direction(0), Some(Direction::DownRight));
    let action = Action::new_from_vector(vec![10, 3]).unwrap();
    assert_eq!(action.action_type(), ActionType::Jump);
    assert_eq!(action.jump_direction(0), Some(Direction::UpRight));

    // any longer sequence is a capture, whatever its endpoints
    let action = Action::new_from_vector(vec![10, 19, 12]).unwrap();
    assert_eq!(action.action_type(), ActionType::Jump);
    assert_eq!(action.jump_len(), 2);

    // a two-position delta outside {3, 4, 5} classifies as a capture, and a
    // delta of 2 is then no legal leap: the source square is reported
    let err = Action::new_from_vector(vec![1, 3]).unwrap_err();
    assert_eq!(
        err,
        ParseActionError::PositionValueError { position: String::from("0") }
    );
}

#[test]
fn movetext_token_errors() {
    // a token that is not a number is reported verbatim
    let err = Action::new_from_movetext("abc-5").unwrap_err();
    assert_eq!(
        err,
        ParseActionError::PositionValueError { position: String::from("abc") }
    );

    // a value too large for one byte fails to parse
    let err = Action::new_from_movetext("256-1").unwrap_err();
    assert_eq!(
        err,
        ParseActionError::PositionValueError { position: String::from("256") }
    );

    // the empty text holds one empty token
    let err = Action::new_from_movetext("").unwrap_err();
    assert_eq!(
        err,
        ParseActionError::PositionValueError { position: String::from("") }
    );

    // two hyphens in a row leave an empty token between them
    let err = Action::new_from_movetext("1--5").unwrap_err();
    assert_eq!(
        err,
        ParseActionError::PositionValueError { position: String::from("") }
    );

    // a lone sign has no digits
    let err = Action::new_from_movetext("+-5").unwrap_err();
    assert_eq!(
        err,
        ParseActionError::PositionValueError { position: String::from("+") }
    );

    // surrounding whitespace is not stripped
    let err = Action::new_from_movetext(" 19-24").unwrap_err();
    assert_eq!(
        err,
        ParseActionError::PositionValueError { position: String::from(" 19") }
    );

    // only the first bad token is reported
    let err = Action::new_from_movetext("19-x-y").unwrap_err();
    assert_eq!(
        err,
        ParseActionError::PositionValueError { position: String::from("x") }
    );
}

#[test]
fn movetext_accepted_forms() {
    // a leading plus sign is part of a valid unsigned number
    let action = Action::new_from_movetext("+19-24").unwrap();
    assert_eq!(action.source(), 18);
    assert_eq!(action.destination(), 23);

    // leading zeros are allowed
    let action = Action::new_from_movetext("019-24").unwrap();
    assert_eq!(action.source(), 18);

    // a parsed position off the board is rejected by its index
    let err = Action::new_from_movetext("33-28").unwrap_err();
    assert_eq!(
        err,
        ParseActionError::PositionValueError { position: String::from("32") }
    );

    // a parsed sequence too short is rejected by its count
    let err = Action::new_from_movetext("19").unwrap_err();
    assert_eq!(err, ParseActionError::MoveQuantityError { quantity: 1 });
}

#[test]
fn move_direction_parity() {
    // even source row: deltas -4, -3, 4, 5
    let action = Action::new_from_vector(vec![10, 6]).unwrap();
    assert_eq!(action.move_direction(), Some(Direction::UpLeft));
    let action = Action::new_from_vector(vec![10, 7]).unwrap();
    assert_eq!(action.move_direction(), Some(Direction::UpRight));
    let action = Action::new_from_vector(vec![10, 14]).unwrap();
    assert_eq!(action.move_direction(), Some(Direction::DownLeft));
    let action = Action::new_from_vector(vec![10, 15]).unwrap();
    assert_eq!(action.move_direction(), Some(Direction::DownRight));

    // odd source row: deltas -5, -4, 3, 4
    let action = Action::new_from_vector(vec![15, 10]).unwrap();
    assert_eq!(action.move_direction(), Some(Direction::UpLeft));
    let action = Action::new_from_vector(vec![15, 11]).unwrap();
    assert_eq!(action.move_direction(), Some(Direction::UpRight));
    let action = Action::new_from_vector(vec![15, 18]).unwrap();
    assert_eq!(action.move_direction(), Some(Direction::DownLeft));
    let action = Action::new_from_vector(vec![15, 19]).unwrap();
    assert_eq!(action.move_direction(), Some(Direction::DownRight));
}
