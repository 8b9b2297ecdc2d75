use convention_stats::registration::cell::Cell;
use convention_stats::registration::convention::parse_rows;
use convention_stats::registration::convention::retrieve_event_list;
use convention_stats::registration::convention::Convention;
use convention_stats::registration::event::Event;
use convention_stats::registration::gender::Gender;
use convention_stats::registration::registrant::Registrant;
use convention_stats::error::ApplicationError;

fn person(id: u16, first_name: &str, gender: Gender) -> Registrant {
    Registrant::new(
        id,
        first_name.to_string(),
        "Doe".to_string(),
        "01.01.1970".to_string(),
        55,
        gender,
        None,
    )
}

fn events(names: &[&str]) -> Vec<Event> {
    names.iter().enumerate().map(|(index, name)| Event::new(index, name.to_string())).collect()
}

fn text(value: &str) -> Cell {
    Cell::Text(value.to_string())
}

fn row(id: i64, first_name: &str, marks: &[bool]) -> Vec<Cell> {
    let mut cells = vec![
        Cell::Int(id),
        text(first_name),
        text("Doe"),
        text("01.01.1970"),
        Cell::Int(55),
        text("Male"),
        Cell::Empty,
    ];
    for mark in marks {
        cells.push(if *mark { text("VRAI") } else { Cell::Empty });
    }
    cells
}

#[test]
fn build_lists_each_event_with_its_registrants_in_registration_order() {
    let r1 = person(1, "John", Gender::Male);
    let r2 = person(2, "Dominique", Gender::Female);
    let r3 = person(3, "Jeanne", Gender::Female);
    let registrations = vec![
        (r1.clone(), vec![0, 2]),
        (r2.clone(), vec![2]),
        (r3.clone(), vec![1, 0]),
    ];
    let convention = Convention::build(
        registrations.clone(),
        events(&["100m - All", "Basket - All", "Cross - All", "Flat - All"]),
    );

    assert_eq!(
        &vec![vec![r1.clone(), r3.clone()], vec![r3.clone()], vec![r1.clone(), r2.clone()], vec![]],
        convention.participants_by_event()
    );
    assert_eq!(&registrations, convention.registrations());
    assert_eq!(
        &events(&["100m - All", "Basket - All", "Cross - All", "Flat - All"]),
        convention.events()
    );
}

#[test]
fn build_keeps_the_index_and_the_registrations_in_step() {
    let people = [
        person(1, "John", Gender::Male),
        person(2, "Dominique", Gender::Female),
        person(3, "Jeanne", Gender::Female),
        person(4, "Timéo", Gender::Male),
    ];
    let registrations = vec![
        (people[0].clone(), vec![0, 1]),
        (people[1].clone(), vec![1, 3]),
        (people[2].clone(), vec![]),
        (people[3].clone(), vec![3, 0, 2]),
    ];
    let convention =
        Convention::build(registrations.clone(), events(&["a - 1", "b - 1", "c - 1", "d - 1"]));

    assert_eq!(convention.events().len(), convention.participants_by_event().len());
    for event in 0..4 {
        for (registrant, named) in &registrations {
            assert_eq!(
                named.contains(&event),
                convention.participants_by_event()[event].contains(registrant)
            );
        }
    }
}

#[test]
fn build_lists_a_registrant_once_for_an_event_named_twice() {
    let r1 = person(1, "John", Gender::Male);
    let convention = Convention::build(vec![(r1.clone(), vec![0, 0])], events(&["100m - All"]));

    assert_eq!(&vec![vec![r1]], convention.participants_by_event());
}

#[test]
fn build_without_events_or_registrations() {
    let convention = Convention::build(vec![], vec![]);

    assert!(convention.participants_by_event().is_empty());
    assert!(convention.registrations().is_empty());
    assert!(convention.events().is_empty());
}

#[test]
fn fits_tells_whether_every_named_event_is_known() {
    let r1 = person(1, "John", Gender::Male);
    let two = events(&["100m - All", "Basket - All"]);

    assert!(Convention::fits(&vec![(r1.clone(), vec![0, 1])], &two));
    assert!(Convention::fits(&vec![], &two));
    assert!(Convention::fits(&vec![(r1.clone(), vec![])], &vec![]));
    assert!(!Convention::fits(&vec![(r1.clone(), vec![0, 2])], &two));
    assert!(!Convention::fits(&vec![(r1.clone(), vec![0])], &vec![]));
    // An event that does not stand at its own position.
    assert!(!Convention::fits(
        &vec![],
        &vec![Event::new(1, "100m - All".to_string()), Event::new(0, "Basket - All".to_string())]
    ));
    assert!(!Convention::fits(&vec![], &vec![Event::new(1, "100m - All".to_string())]));
}

#[test]
fn new_takes_the_parts_of_a_built_convention() {
    let r1 = person(1, "John", Gender::Male);
    let r2 = person(2, "Dominique", Gender::Female);
    let registrations = vec![(r1.clone(), vec![1]), (r2.clone(), vec![0, 1])];
    let built = Convention::build(registrations.clone(), events(&["a - 1", "b - 1"]));
    let made = Convention::new(
        registrations,
        events(&["a - 1", "b - 1"]),
        vec![vec![r2.clone()], vec![r1, r2]],
    );

    assert_eq!(built, made);
    assert_eq!(built.registrations(), made.registrations());
    assert_eq!(built.events(), made.events());
    assert_eq!(built.participants_by_event(), made.participants_by_event());
}

#[test]
fn agree_tells_whether_the_index_matches_the_registrations() {
    let r1 = person(1, "John", Gender::Male);
    let r2 = person(2, "Dominique", Gender::Female);
    let registrations = vec![(r1.clone(), vec![1]), (r2.clone(), vec![0, 1])];
    let two = events(&["a - 1", "b - 1"]);

    assert!(Convention::agree(
        &registrations,
        &two,
        &vec![vec![r2.clone()], vec![r1.clone(), r2.clone()]]
    ));
    // A registrant too many, a registrant too few, the wrong order, an event too few.
    assert!(!Convention::agree(
        &registrations,
        &two,
        &vec![vec![r2.clone(), r1.clone()], vec![r1.clone(), r2.clone()]]
    ));
    assert!(!Convention::agree(&registrations, &two, &vec![vec![r2.clone()], vec![r1.clone()]]));
    assert!(!Convention::agree(
        &registrations,
        &two,
        &vec![vec![r2.clone()], vec![r2.clone(), r1.clone()]]
    ));
    assert!(!Convention::agree(&registrations, &two, &vec![vec![r2.clone()]]));
    assert!(!Convention::agree(&registrations, &events(&["a - 1"]), &vec![vec![r2.clone()]]));
    assert!(Convention::agree(&vec![], &vec![], &vec![]));
}

#[test]
fn retrieve_event_list_numbers_the_event_columns_only() {
    let headers = Some(vec![
        "Id".to_string(),
        "Relais 4 x 100m - All".to_string(),
        "Club - ".to_string(),
        " - ".to_string(),
        "a-b".to_string(),
        "a -b".to_string(),
        "Basket A - Nom du capitaine".to_string(),
    ]);

    let event_list = retrieve_event_list(headers).unwrap();

    assert_eq!(
        vec![
            Event::new(0, "Relais 4 x 100m - All".to_string()),
            Event::new(1, "Club - ".to_string()),
            Event::new(2, " - ".to_string()),
            Event::new(3, "Basket A - Nom du capitaine".to_string()),
        ],
        event_list
    );
    assert_eq!(&3, event_list[3].index());
    assert_eq!("Basket A - Nom du capitaine", event_list[3].name());
}

#[test]
fn retrieve_event_list_of_an_empty_header_row() {
    assert_eq!(Ok(vec![]), retrieve_event_list(Some(vec![])));
}

#[test]
fn events_are_ordered_by_name_then_by_index() {
    let a0 = Event::new(0, "a".to_string());
    let a1 = Event::new(1, "a".to_string());
    let b0 = Event::new(0, "b".to_string());

    assert!(a0 < a1);
    assert!(a1 < b0);
    assert!(a0 < b0);
    assert!(!(b0 < a1));
    assert!(a0 <= a0.clone());
    assert_eq!(a0.cmp(&a1), a0.partial_cmp(&a1).unwrap());
    assert_eq!(b0.cmp(&a1), b0.partial_cmp(&a1).unwrap());
    assert_eq!(a1.cmp(&a1), a1.partial_cmp(&a1).unwrap());
    let mut listed = vec![b0.clone(), a1.clone(), a0.clone()];
    listed.sort();
    assert_eq!(vec![a0, a1, b0], listed);
}

#[test]
fn parse_rows_skips_the_header_row() {
    let rows = vec![
        vec![text("Id"), text("First Name")],
        row(1, "John", &[true, false]),
        row(2, "Jane", &[false, true]),
    ];

    let registrations = parse_rows(&rows).unwrap();

    assert_eq!(2, registrations.len());
    assert_eq!("John", registrations[0].0.first_name());
    assert_eq!(vec![0], registrations[0].1);
    assert_eq!("Jane", registrations[1].0.first_name());
    assert_eq!(vec![1], registrations[1].1);
}

#[test]
fn parse_rows_of_a_sheet_without_registrant() {
    assert_eq!(Ok(vec![]), parse_rows(&vec![]));
    assert_eq!(Ok(vec![]), parse_rows(&vec![vec![text("Id")]]));
    assert_eq!(Ok(vec![]), parse_rows(&vec![vec![]]));
}

#[test]
fn parse_rows_admits_nobody_of_a_faulty_sheet() {
    let rows = vec![
        vec![text("Id")],
        row(1, "John", &[true]),
        vec![Cell::Int(2), text("Jane")],
        vec![text("three")],
    ];

    assert_eq!(Err(ApplicationError::MisformattedRow), parse_rows(&rows));

    let rows = vec![vec![text("Id")], vec![text("three")], vec![]];

    assert_eq!(
        Err(ApplicationError::WrongFormat("id has the wrong format".to_string())),
        parse_rows(&rows)
    );
}
