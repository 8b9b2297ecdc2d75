use convention_stats::registration::gender::Gender;
use convention_stats::registration::registrant::Registrant;
use convention_stats::statistics::events_registrants_dependency::compute_dependencies;
use convention_stats::statistics::events_registrants_dependency::compute_dependency;
use convention_stats::statistics::registrant_set::RegistrantSet;

fn test_registrants() -> (Registrant, Registrant, Registrant, Registrant) {
    let r1 = Registrant::new(
        1,
        "John".to_string(),
        "Doe".to_string(),
        "01.01.1970".to_string(),
        55,
        Gender::Male,
        None,
    );
    let r2 = Registrant::new(
        2,
        "Dominique".to_string(),
        "Jacques".to_string(),
        "12.10.1962".to_string(),
        63,
        Gender::Female,
        None,
    );
    let r3 = Registrant::new(
        3,
        "Jeanne".to_string(),
        "Marie".to_string(),
        "22.08.1957".to_string(),
        68,
        Gender::Female,
        None,
    );
    let r4 = Registrant::new(
        4,
        "Timéo".to_string(),
        "Bernard".to_string(),
        "18.03.2012".to_string(),
        13,
        Gender::Male,
        None,
    );
    (r1, r2, r3, r4)
}

fn set_of(registrants: Vec<&Registrant>) -> RegistrantSet {
    RegistrantSet::collect(&registrants.into_iter().cloned().collect())
}

#[test]
fn events_registrants_dependency_success() {
    let expected_result: Vec<Vec<(usize, usize)>> = vec![
        vec![(2, 2), (1, 3), (1, 3), (2, 4), (0, 0)],
        vec![(1, 2), (3, 3), (2, 3), (3, 4), (0, 0)],
        vec![(1, 2), (2, 3), (3, 3), (3, 4), (0, 0)],
        vec![(2, 2), (3, 3), (3, 3), (4, 4), (0, 0)],
        vec![(0, 2), (0, 3), (0, 3), (0, 4), (0, 0)],
    ];

    let (r1, r2, r3, r4) = test_registrants();

    let registrants_1 = set_of(vec![&r1, &r2]);
    let registrants_2 = set_of(vec![&r2, &r3, &r4]);
    let registrants_3 = set_of(vec![&r1, &r3, &r4]);
    let registrants_4 = set_of(vec![&r1, &r2, &r3, &r4]);
    let registrants_5 = set_of(vec![]);

    let result = compute_dependencies(&[
        registrants_1,
        registrants_2,
        registrants_3,
        registrants_4,
        registrants_5,
    ]);

    assert_eq!(expected_result, result);
}

#[test]
fn events_registrants_dependency_success_50_percents() {
    let (r1, r2, r3, r4) = test_registrants();

    let registrants_1 = set_of(vec![&r1, &r2, &r3, &r4]);
    let registrants_2 = set_of(vec![&r1, &r2]);

    assert_eq!((2, 2), compute_dependency(&registrants_1, &registrants_2));
}

#[test]
fn events_registrants_dependency_success_100_percents() {
    let (r1, r2, r3, r4) = test_registrants();

    let registrants_1 = set_of(vec![&r1, &r2]);
    let registrants_2 = set_of(vec![&r1, &r2, &r3, &r4]);

    assert_eq!((2, 4), compute_dependency(&registrants_1, &registrants_2));
}

#[test]
fn events_registrants_dependency_success_no_registrants() {
    let (r1, r2, r3, r4) = test_registrants();

    let registrants_1 = set_of(vec![]);
    let registrants_2 = set_of(vec![&r1, &r2, &r3, &r4]);

    assert_eq!((0, 4), compute_dependency(&registrants_1, &registrants_2));
}
