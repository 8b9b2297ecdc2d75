use convention_stats::error::ApplicationError;
use convention_stats::registration::gender::Gender;

#[test]
fn gender_try_from_success() {
    assert_eq!(Gender::Female, Gender::try_from(&String::from("Female")).unwrap());
    assert_eq!(Gender::Male, Gender::try_from(&String::from("Male")).unwrap());
}

#[test]
fn gender_try_from_fail() {
    for gender_string in ["", "x"] {
        let error = Gender::try_from(&String::from(gender_string)).unwrap_err();
        assert!(format!("{error:?}").contains("Gender should be `Male` or `Female`."));
    }
}

#[test]
fn gender_try_from_quotes_the_value() {
    assert_eq!(
        Err(ApplicationError::WrongFormat(
            "Gender should be `Male` or `Female`. Got `male` instead.".to_string()
        )),
        Gender::try_from(&String::from("male"))
    );
}

#[test]
fn application_error_messages() {
    assert_eq!("The file has no header row.", ApplicationError::NoHeaders.message());
    assert_eq!("The row is misformatted.", ApplicationError::MisformattedRow.message());
    assert_eq!(
        "A cell has a wrong format: id has the wrong format",
        ApplicationError::WrongFormat("id has the wrong format".to_string()).message()
    );
}
