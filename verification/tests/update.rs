use memory_palace::update::{find_position, Update};
use memory_palace::{Item, Timestamp};

fn card(question: &str, answer: &str) -> Item {
    Item {
        question: question.to_string(),
        answer: answer.to_string(),
        first_remember_time: None,
        last_check_time: None,
        due_time: None,
        tag: None,
    }
}

fn pairs(items: &[Item]) -> Vec<(String, String)> {
    items.iter().map(|item| (item.question.clone(), item.answer.clone())).collect()
}

fn pair(question: &str, answer: &str) -> (String, String) {
    (question.to_string(), answer.to_string())
}

#[test]
fn an_edit_goes_to_the_store_that_asks_its_question() {
    let job = Update {
        into: vec![vec![card("x", "1")], vec![card("y", "2")]],
        from: vec![card("x", "9"), card("z", "3")],
    };
    let done = job.gogogo();
    assert_eq!(done.into.len(), 2);
    assert_eq!(pairs(&done.into[0]), vec![pair("x", "9")]);
    assert_eq!(pairs(&done.into[1]), vec![pair("y", "2")]);
    assert_eq!(pairs(&done.from), vec![pair("z", "3")]);
}

#[test]
fn an_edit_replaces_the_whole_item() {
    let mut edited = card("x", "9");
    edited.first_remember_time = Some(Timestamp::new(1, 0));
    edited.last_check_time = Some(Timestamp::new(2, 0));
    edited.due_time = Some(Timestamp::new(3, 0));
    edited.tag = Some("new".to_string());
    let mut old = card("x", "1");
    old.due_time = Some(Timestamp::new(77, 0));
    old.tag = Some("old".to_string());
    let done = Update { into: vec![vec![card("a", "0"), old]], from: vec![edited] }.gogogo();
    let placed = &done.into[0][1];
    assert_eq!(placed.answer, "9");
    assert_eq!(placed.first_remember_time, Some(Timestamp::new(1, 0)));
    assert_eq!(placed.last_check_time, Some(Timestamp::new(2, 0)));
    assert_eq!(placed.due_time, Some(Timestamp::new(3, 0)));
    assert_eq!(placed.tag, Some("new".to_string()));
    assert_eq!(pairs(&done.into[0]), vec![pair("a", "0"), pair("x", "9")]);
    assert!(done.from.is_empty());
}

#[test]
fn a_question_asked_twice_is_not_guessed_at() {
    let done = Update {
        into: vec![vec![card("x", "1"), card("y", "2")], vec![card("x", "3")]],
        from: vec![card("x", "9"), card("y", "8")],
    }
    .gogogo();
    assert_eq!(pairs(&done.into[0]), vec![pair("x", "1"), pair("y", "8")]);
    assert_eq!(pairs(&done.into[1]), vec![pair("x", "3")]);
    assert_eq!(pairs(&done.from), vec![pair("x", "9")]);

    let done = Update {
        into: vec![vec![card("x", "1"), card("x", "2")]],
        from: vec![card("x", "9")],
    }
    .gogogo();
    assert_eq!(pairs(&done.into[0]), vec![pair("x", "1"), pair("x", "2")]);
    assert_eq!(pairs(&done.from), vec![pair("x", "9")]);
}

#[test]
fn the_last_edit_of_a_question_wins() {
    let done = Update {
        into: vec![vec![card("x", "1")]],
        from: vec![card("x", "9"), card("q", "0"), card("x", "7")],
    }
    .gogogo();
    assert_eq!(pairs(&done.into[0]), vec![pair("x", "7")]);
    assert_eq!(pairs(&done.from), vec![pair("q", "0")]);
}

#[test]
fn what_finds_no_place_remains_in_order() {
    let done = Update {
        into: vec![vec![], vec![card("m", "1")], vec![]],
        from: vec![card("c", "3"), card("a", "1"), card("m", "2"), card("b", "2"), card("a", "4")],
    }
    .gogogo();
    assert_eq!(
        pairs(&done.from),
        vec![pair("c", "3"), pair("a", "1"), pair("b", "2"), pair("a", "4")]
    );
    assert_eq!(done.into.len(), 3);
    assert!(done.into[0].is_empty());
    assert_eq!(pairs(&done.into[1]), vec![pair("m", "2")]);
    assert!(done.into[2].is_empty());
}

#[test]
fn reconciling_nothing_changes_nothing() {
    let done = Update { into: vec![vec![card("x", "1")]], from: Vec::new() }.gogogo();
    assert_eq!(pairs(&done.into[0]), vec![pair("x", "1")]);
    assert!(done.from.is_empty());
    let done = Update { into: Vec::new(), from: vec![card("x", "1")] }.gogogo();
    assert!(done.into.is_empty());
    assert_eq!(pairs(&done.from), vec![pair("x", "1")]);
}

#[test]
fn find_position_gives_the_sole_place() {
    let into = vec![
        vec![card("a", ""), card("b", "")],
        vec![],
        vec![card("c", ""), card("b", ""), card("d", "")],
    ];
    assert_eq!(find_position(&into, &card("a", "?")), Some((0, 0)));
    assert_eq!(find_position(&into, &card("c", "?")), Some((2, 0)));
    assert_eq!(find_position(&into, &card("d", "?")), Some((2, 2)));
    assert_eq!(find_position(&into, &card("b", "?")), None);
    assert_eq!(find_position(&into, &card("e", "?")), None);
    assert_eq!(find_position(&into, &card("", "?")), None);
    assert_eq!(find_position(&Vec::new(), &card("a", "?")), None);
}
