use convention_stats::registration::convention::Convention;
use convention_stats::registration::event::Event;
use convention_stats::registration::gender::Gender;
use convention_stats::registration::registrant::Registrant;
use convention_stats::statistics::error::DrawingError;
use convention_stats::statistics::gender_repartition::compute_longest_event_name_length;
use convention_stats::statistics::gender_repartition::compute_margin_bottom;
use convention_stats::statistics::gender_repartition::compute_max_participants_count;
use convention_stats::statistics::gender_repartition::compute_upper_y_bound;
use convention_stats::statistics::gender_repartition::create_caption;
use convention_stats::statistics::gender_repartition::group_by_gender_by_event;
use convention_stats::statistics::gender_repartition::GenderCount;

fn person(id: u16, gender: Gender) -> Registrant {
    Registrant::new(
        id,
        "John".to_string(),
        "Doe".to_string(),
        "01.01.1970".to_string(),
        55,
        gender,
        None,
    )
}

fn events(names: &[&str]) -> Vec<Event> {
    names.iter().enumerate().map(|(index, name)| Event::new(index, name.to_string())).collect()
}

fn convention() -> Convention {
    Convention::build(
        vec![
            (person(1, Gender::Male), vec![0, 1]),
            (person(2, Gender::Female), vec![0, 1, 3]),
            (person(3, Gender::Female), vec![1]),
            (person(4, Gender::Male), vec![3]),
            (person(5, Gender::Female), vec![1, 3]),
        ],
        events(&["Parcours IUF - All", "100m - All", "Trial - All", "Parcours IUF - All"]),
    )
}

#[test]
fn group_by_gender_by_event_counts_each_event_in_order() {
    let data = group_by_gender_by_event(&convention());

    assert_eq!(
        vec![
            (Event::new(1, "100m - All".to_string()), GenderCount { female: 3, male: 1 }),
            (Event::new(0, "Parcours IUF - All".to_string()), GenderCount { female: 1, male: 1 }),
            (Event::new(3, "Parcours IUF - All".to_string()), GenderCount { female: 2, male: 1 }),
            (Event::new(2, "Trial - All".to_string()), GenderCount { female: 0, male: 0 }),
        ],
        data
    );
}

#[test]
fn group_by_gender_by_event_of_no_event() {
    assert!(group_by_gender_by_event(&Convention::build(vec![], vec![])).is_empty());
}

#[test]
fn compute_max_participants_count_takes_the_largest_count() {
    let data = group_by_gender_by_event(&convention());

    // An event without participant weighs ten.
    assert_eq!(10, compute_max_participants_count(&data));
    assert_eq!(10, compute_max_participants_count(&vec![]));
    let event = Event::new(0, "a - b".to_string());
    assert_eq!(
        16,
        compute_max_participants_count(&vec![
            (event.clone(), GenderCount { female: 16, male: 12 }),
            (event.clone(), GenderCount { female: 3, male: 4 }),
        ])
    );
    assert_eq!(
        4,
        compute_max_participants_count(&vec![(event, GenderCount { female: 3, male: 4 })])
    );
}

#[test]
fn compute_upper_y_bound_is_the_next_multiple_of_ten() {
    let event = Event::new(0, "a - b".to_string());
    let with = |female: u64, male: u64| vec![(event.clone(), GenderCount { female, male })];

    assert_eq!(20, compute_upper_y_bound(&with(16, 12)));
    assert_eq!(30, compute_upper_y_bound(&with(1, 20)));
    assert_eq!(10, compute_upper_y_bound(&with(9, 0)));
    assert_eq!(20, compute_upper_y_bound(&with(0, 0)));
    assert_eq!(20, compute_upper_y_bound(&vec![]));
}

#[test]
fn compute_longest_event_name_length_counts_bytes() {
    assert_eq!(18, compute_longest_event_name_length(&convention()));
    assert_eq!(
        3,
        compute_longest_event_name_length(&Convention::build(vec![], events(&["é-", "a"])))
    );
    assert_eq!(10, compute_longest_event_name_length(&Convention::build(vec![], vec![])));
}

#[test]
fn compute_margin_bottom_grows_with_the_longest_name() {
    // 18 lies between 16 and 32.
    assert_eq!(200, compute_margin_bottom(&convention()));
    assert_eq!(150, compute_margin_bottom(&Convention::build(vec![], vec![])));
    assert_eq!(0, compute_margin_bottom(&Convention::build(vec![], events(&["a"]))));
    assert_eq!(
        250,
        compute_margin_bottom(&Convention::build(
            vec![],
            events(&["Lenteur avant (planche large) - All"])
        ))
    );
}

#[test]
fn create_caption_names_the_year() {
    assert_eq!("Répartition femmes/hommes par épreuve (2025)", create_caption(2025));
    assert_eq!("Répartition femmes/hommes par épreuve (0)", create_caption(0));
}

#[test]
fn drawing_error_messages() {
    assert_eq!(
        "Error while presenting the graph: disk full",
        DrawingError::Presentation("disk full".to_string()).message()
    );
    assert_eq!(
        "Error with the drawing area: x",
        DrawingError::DrawingArea("x".to_string()).message()
    );
    assert_eq!(
        "Error with the chart context: y",
        DrawingError::ChartContext("y".to_string()).message()
    );
    assert_eq!(
        "Error while drawing the chart: z",
        DrawingError::ChartDrawing("z".to_string()).message()
    );
}
