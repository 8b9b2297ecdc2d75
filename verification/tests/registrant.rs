use convention_stats::error::ApplicationError;
use convention_stats::registration::cell::Cell;
use convention_stats::registration::gender::Gender;
use convention_stats::registration::registrant::extract_age;
use convention_stats::registration::registrant::extract_birthday;
use convention_stats::registration::registrant::extract_club;
use convention_stats::registration::registrant::extract_first_name;
use convention_stats::registration::registrant::extract_gender;
use convention_stats::registration::registrant::extract_id;
use convention_stats::registration::registrant::extract_last_name;
use convention_stats::registration::registrant::parse_row;
use convention_stats::registration::registrant::Registrant;

/// A cell that holds a number with a fraction, as a sheet reader hands it over.
fn float(value: f64) -> Cell {
    Cell::Float { whole: value as u64, shown: value.to_string() }
}

fn text(value: &str) -> Cell {
    Cell::Text(value.to_string())
}

fn john_doe() -> Registrant {
    Registrant::new(
        1,
        "John".to_string(),
        "Doe".to_string(),
        "2010-01-01".to_string(),
        15,
        Gender::Male,
        Some("This is a club".to_string()),
    )
}

fn identity_cells(id: f64, age: f64) -> Vec<Cell> {
    vec![
        float(id),
        text("John"),
        text("Doe"),
        text("2010-01-01"),
        float(age),
        text("Male"),
        text("This is a club"),
    ]
}

#[test]
fn success_no_event() {
    let id = 1_u16;
    let age = 15;

    let expected_registrant = john_doe();

    let row = identity_cells(id as f64, age as f64);

    let (registrant, registered_events) = parse_row(&row).unwrap();

    assert_eq!(expected_registrant, registrant);
    assert_eq!(Vec::<usize>::new(), registered_events);
}

#[test]
fn success_no_event_registered() {
    let id = 1_u16;
    let age = 15;

    let expected_registrant = john_doe();

    let mut row = identity_cells(id as f64, age as f64);
    row.push(text(""));
    row.push(text(""));
    row.push(text(""));
    row.push(text(""));

    let (registrant, registered_events) = parse_row(&row).unwrap();

    assert_eq!(expected_registrant, registrant);
    assert_eq!(Vec::<usize>::new(), registered_events);
}

#[test]
fn success_events_registered() {
    let id = 1_u16;
    let age = 15;

    let expected_registration = john_doe();

    let mut row = identity_cells(id as f64, age as f64);
    row.push(text("VRAI"));
    row.push(text(""));
    row.push(text(""));
    row.push(text("VRAI"));

    let (registrant, registered_events) = parse_row(&row).unwrap();

    assert_eq!(expected_registration, registrant);
    assert_eq!(vec![0, 3], registered_events);
}

#[test]
#[should_panic(expected = "MisformattedRow")]
fn fail_empty_row() {
    let row = vec![];
    parse_row(&row).unwrap();
}

#[test]
#[should_panic(expected = "WrongFormat")]
fn fail_wrong_format_id() {
    let id = f64::MAX;
    let age = 15;

    let mut row = identity_cells(id, age as f64);
    row.push(text("VRAI"));
    row.push(text(""));
    row.push(text(""));
    row.push(text("VRAI"));

    parse_row(&row).unwrap();
}

#[test]
#[should_panic(expected = "WrongFormat")]
fn fail_wrong_format_age() {
    let id = 1_f64;
    let age = f64::MAX;

    let mut row = identity_cells(id, age);
    row.push(text("VRAI"));
    row.push(text(""));
    row.push(text(""));
    row.push(text("VRAI"));

    parse_row(&row).unwrap();
}

#[test]
fn parse_row_marks_true_cells_and_ignores_the_rest() {
    let mut row = identity_cells(1.0, 15.0);
    row.push(Cell::Bool(true));
    row.push(Cell::Bool(false));
    row.push(text("vrai"));
    row.push(Cell::Int(1));
    row.push(Cell::Empty);
    row.push(text("VRAI"));
    row.push(Cell::Other);

    let (_, registered_events) = parse_row(&row).unwrap();

    assert_eq!(vec![0, 5], registered_events);
}

#[test]
fn parse_row_reports_the_leftmost_faulty_column() {
    // The id is refused before the row is found too short.
    let row = vec![text("1"), text("John")];
    assert_eq!(
        Err(ApplicationError::WrongFormat("id has the wrong format".to_string())),
        parse_row(&row).map(|_| ())
    );

    // A good id, then nothing more.
    let row = vec![Cell::Int(1)];
    assert_eq!(Err(ApplicationError::MisformattedRow), parse_row(&row).map(|_| ()));

    // Six good columns and no club.
    let mut row = identity_cells(1.0, 15.0);
    row.pop();
    assert_eq!(Err(ApplicationError::MisformattedRow), parse_row(&row).map(|_| ()));

    // A faulty gender is found before a faulty club.
    let mut row = identity_cells(1.0, 15.0);
    row[5] = text("x");
    row[6] = Cell::Int(3);
    assert_eq!(
        Err(ApplicationError::WrongFormat(
            "Gender should be `Male` or `Female`. Got `x` instead.".to_string()
        )),
        parse_row(&row).map(|_| ())
    );
}

#[test]
fn parse_row_admits_a_registrant_without_club() {
    let mut row = identity_cells(1.0, 15.0);
    row[6] = Cell::Empty;

    let (registrant, _) = parse_row(&row).unwrap();

    assert_eq!(&None, registrant.club());
    assert_eq!(&1, registrant.id());
    assert_eq!("John", registrant.first_name());
    assert_eq!("Doe", registrant.last_name());
    assert_eq!("2010-01-01", registrant.birthday());
    assert_eq!(&15, registrant.age());
    assert_eq!(&Gender::Male, registrant.gender());
}

#[test]
fn extract_id_success() {
    assert_eq!(Ok(1_u16), extract_id(&Cell::Int(1)));
    assert_eq!(Ok(1_u16), extract_id(&float(1.0)));
    assert_eq!(Ok(65535_u16), extract_id(&Cell::Int(65535)));
    assert_eq!(Ok(0_u16), extract_id(&float(-3.0)));
}

#[test]
fn extract_id_fail() {
    assert!(matches!(
        extract_id(&Cell::Int(i64::MAX)).err().unwrap(),
        ApplicationError::WrongFormat(_)
    ));
    assert!(matches!(
        extract_id(&float(f64::MAX)).err().unwrap(),
        ApplicationError::WrongFormat(_)
    ));
    assert!(matches!(
        extract_id(&text("1")).err().unwrap(),
        ApplicationError::WrongFormat(_)
    ));
}

#[test]
fn extract_id_quotes_the_offending_value() {
    assert_eq!(
        Err(ApplicationError::WrongFormat("ID is too large (`65536`)".to_string())),
        extract_id(&Cell::Int(65536))
    );
    assert_eq!(
        Err(ApplicationError::WrongFormat("ID is too large (`-1`)".to_string())),
        extract_id(&Cell::Int(-1))
    );
    assert_eq!(
        Err(ApplicationError::WrongFormat(
            "ID is too large (`-9223372036854775808`)".to_string()
        )),
        extract_id(&Cell::Int(i64::MIN))
    );
    assert_eq!(
        Err(ApplicationError::WrongFormat("ID is too large (`70000.5`)".to_string())),
        extract_id(&float(70000.5))
    );
    assert_eq!(
        Err(ApplicationError::WrongFormat("id has the wrong format".to_string())),
        extract_id(&Cell::Empty)
    );
}

#[test]
fn extract_first_name_success() {
    let cell = text("John");
    assert_eq!(&"John".to_string(), extract_first_name(&cell).unwrap());
}

#[test]
fn extract_first_name_fail() {
    for cell in [Cell::Int(i64::MAX), float(f64::MAX), Cell::Empty] {
        assert_eq!(
            Err(ApplicationError::WrongFormat("first_name has the wrong format".to_string())),
            extract_first_name(&cell).map(|_| ())
        );
    }
}

#[test]
fn extract_last_name_success() {
    let cell = text("John");
    assert_eq!(&"John".to_string(), extract_last_name(&cell).unwrap());
}

#[test]
fn extract_last_name_fail() {
    for cell in [Cell::Int(i64::MAX), float(f64::MAX), Cell::Empty] {
        assert_eq!(
            Err(ApplicationError::WrongFormat("last_name has the wrong format".to_string())),
            extract_last_name(&cell).map(|_| ())
        );
    }
}

#[test]
fn extract_birthday_success() {
    assert_eq!("01.12.1980".to_string(), extract_birthday(&text("01.12.1980")).unwrap());
    assert_eq!(
        "29567".to_string(),
        extract_birthday(&Cell::DateTime("29567".to_string())).unwrap()
    );
    assert_eq!(
        "1980-12-01".to_string(),
        extract_birthday(&Cell::DateTimeIso("1980-12-01".to_string())).unwrap()
    );
}

#[test]
fn extract_birthday_fail() {
    for cell in [Cell::Int(i64::MAX), float(f64::MAX), Cell::Empty] {
        assert_eq!(
            Err(ApplicationError::WrongFormat("birthday has the wrong format".to_string())),
            extract_birthday(&cell)
        );
    }
}

#[test]
fn extract_age_success() {
    assert_eq!(Ok(1_u8), extract_age(&Cell::Int(1)));
    assert_eq!(Ok(1_u8), extract_age(&float(1.0)));
    assert_eq!(Ok(255_u8), extract_age(&Cell::Int(255)));
}

#[test]
fn extract_age_fail() {
    assert!(matches!(
        extract_age(&Cell::Int(i64::MAX)).err().unwrap(),
        ApplicationError::WrongFormat(_)
    ));
    assert!(matches!(
        extract_age(&float(f64::MAX)).err().unwrap(),
        ApplicationError::WrongFormat(_)
    ));
    assert!(matches!(
        extract_age(&text("1")).err().unwrap(),
        ApplicationError::WrongFormat(_)
    ));
    assert_eq!(
        Err(ApplicationError::WrongFormat("Age is too large (`256`)".to_string())),
        extract_age(&Cell::Int(256))
    );
    assert_eq!(
        Err(ApplicationError::WrongFormat("Age is too large (`300`)".to_string())),
        extract_age(&float(300.0))
    );
    assert_eq!(
        Err(ApplicationError::WrongFormat("age has the wrong format".to_string())),
        extract_age(&Cell::Bool(true))
    );
}

#[test]
fn extract_gender_success() {
    assert_eq!(Ok(Gender::Male), extract_gender(&text("Male")));
    assert_eq!(Ok(Gender::Female), extract_gender(&text("Female")));
}

#[test]
fn extract_gender_fail() {
    for cell in [Cell::Int(i64::MAX), float(f64::MAX)] {
        assert_eq!(
            Err(ApplicationError::WrongFormat("gender has the wrong format".to_string())),
            extract_gender(&cell)
        );
    }
    assert_eq!(
        Err(ApplicationError::WrongFormat(
            "Gender should be `Male` or `Female`. Got `1` instead.".to_string()
        )),
        extract_gender(&text("1"))
    );
}

#[test]
fn extract_club_success() {
    let cell = text("This is a club");
    assert_eq!(
        Some("This is a club".to_string()),
        extract_club(&cell).unwrap().cloned()
    );
    assert_eq!(None, extract_club(&Cell::Empty).unwrap().cloned());
}

#[test]
fn extract_club_fail() {
    for cell in [Cell::Int(i64::MAX), float(f64::MAX)] {
        assert_eq!(
            Err(ApplicationError::WrongFormat("club has the wrong format".to_string())),
            extract_club(&cell).map(|_| ())
        );
    }
}

#[test]
fn registrants_are_equal_when_every_field_is() {
    let a = john_doe();
    assert_eq!(a, a.clone());
    let other_club = Registrant::new(
        1,
        "John".to_string(),
        "Doe".to_string(),
        "2010-01-01".to_string(),
        15,
        Gender::Male,
        None,
    );
    assert_ne!(a, other_club);
    let other_age = Registrant::new(
        1,
        "John".to_string(),
        "Doe".to_string(),
        "2010-01-01".to_string(),
        16,
        Gender::Male,
        Some("This is a club".to_string()),
    );
    assert_ne!(a, other_age);
}
