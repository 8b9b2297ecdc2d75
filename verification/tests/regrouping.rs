use convention_stats::configuration::events_configuration::EventsCategory;
use convention_stats::configuration::events_configuration::EventsConfiguration;
use convention_stats::configuration::events_mapping::CategoriesMapping;
use convention_stats::registration::convention::Convention;
use convention_stats::registration::event::Event;
use convention_stats::registration::gender::Gender;
use convention_stats::registration::registrant::Registrant;
use convention_stats::statistics::events_registrants_dependency::compute_dependencies;
use convention_stats::statistics::events_registrants_dependency::generate_csv_file;
use convention_stats::statistics::groups::Groups;
use convention_stats::statistics::regrouping::group_registrants;

fn person(id: u16, first_name: &str) -> Registrant {
    Registrant::new(
        id,
        first_name.to_string(),
        "Doe".to_string(),
        "01.01.1970".to_string(),
        55,
        Gender::Female,
        None,
    )
}

fn people() -> (Registrant, Registrant, Registrant, Registrant) {
    (person(1, "John"), person(2, "Dominique"), person(3, "Jeanne"), person(4, "Timéo"))
}

fn events(names: &[&str]) -> Vec<Event> {
    names.iter().enumerate().map(|(index, name)| Event::new(index, name.to_string())).collect()
}

fn category(name: &str, can_regroup: bool, keys: &[&str]) -> EventsCategory {
    EventsCategory::new(
        name.to_string(),
        can_regroup,
        keys.iter().map(|key| (key.to_string(), key.to_uppercase())).collect(),
    )
}

fn mapping(entries: &[(&str, &[(&str, &[&str])])]) -> CategoriesMapping {
    entries
        .iter()
        .map(|(category, keys)| {
            (
                category.to_string(),
                keys.iter()
                    .map(|(key, names)| {
                        (key.to_string(), names.iter().map(|name| name.to_string()).collect())
                    })
                    .collect(),
            )
        })
        .collect()
}

fn configuration() -> EventsConfiguration {
    EventsConfiguration::new(vec![
        ("athletisme".to_string(), category("Athlétisme", true, &["100m", "400m"])),
        ("tout-terrain".to_string(), category("Tout-terrain", true, &["cross-country"])),
        ("sports-co".to_string(), category("Sports collectifs", false, &["basket"])),
    ])
}

fn year_mapping() -> CategoriesMapping {
    mapping(&[
        ("athletisme", &[("100m", &["100m - All"]), ("stillstand", &[])]),
        ("tout-terrain", &[("cross-country", &["Cross court - All", "Cross long - All"])]),
        ("sports-co", &[("basket", &["Basket - All"])]),
    ])
}

fn convention() -> Convention {
    let (r1, r2, r3, r4) = people();
    Convention::build(
        vec![(r1, vec![0, 1]), (r2, vec![0, 2, 3]), (r3, vec![1, 2]), (r4, vec![3, 4])],
        events(&[
            "100m - All",
            "Cross court - All",
            "Cross long - All",
            "Basket - All",
            "Unlisted - All",
        ]),
    )
}

fn sizes(groups: &Groups) -> Vec<(String, usize)> {
    groups
        .labels()
        .iter()
        .cloned()
        .zip(groups.members().iter().map(|members| members.len()))
        .collect()
}

#[test]
fn generate_csv_file_of_a_small_convention() {
    let content = generate_csv_file(&convention(), &year_mapping(), &configuration());

    assert_eq!(
        ";Basket - All;athletisme;tout-terrain\n\
         Basket - All;2/2 (100.00%);1/2 (50.00%);1/3 (33.33%)\n\
         athletisme;1/2 (50.00%);2/2 (100.00%);2/3 (66.67%)\n\
         tout-terrain;1/2 (50.00%);2/2 (100.00%);3/3 (100.00%)",
        content
    );
}

#[test]
fn generate_csv_file_leaves_out_an_event_that_no_entry_lists() {
    let content = generate_csv_file(&convention(), &year_mapping(), &configuration());
    let header = content.lines().next().unwrap();

    assert!(!header.contains("Unlisted - All"));
    assert_eq!(4, content.lines().count());
    let groups = group_registrants(&convention(), &year_mapping(), &configuration());
    assert!(!groups.labels().contains(&"Unlisted - All".to_string()));
}

#[test]
fn generate_csv_file_does_not_depend_on_the_order_of_the_documents() {
    let reversed_mapping: CategoriesMapping = year_mapping()
        .into_iter()
        .rev()
        .map(|(category, keys)| (category, keys.into_iter().rev().collect()))
        .collect();
    let reversed_configuration = EventsConfiguration::new(
        configuration().categories().iter().rev().cloned().collect(),
    );

    assert_eq!(
        generate_csv_file(&convention(), &year_mapping(), &configuration()),
        generate_csv_file(&convention(), &reversed_mapping, &reversed_configuration)
    );
    assert_eq!(
        generate_csv_file(&convention(), &year_mapping(), &configuration()),
        generate_csv_file(&convention(), &year_mapping(), &configuration())
    );
}

#[test]
fn generate_csv_file_without_any_group() {
    let nothing_listed = mapping(&[("athletisme", &[("100m", &["200m - All"])])]);

    assert_eq!("", generate_csv_file(&convention(), &nothing_listed, &configuration()));
    assert_eq!("", generate_csv_file(&convention(), &vec![], &configuration()));
    assert_eq!(
        "",
        generate_csv_file(&Convention::build(vec![], vec![]), &year_mapping(), &configuration())
    );
}

#[test]
fn generate_csv_file_with_a_group_of_nobody() {
    let (r1, _, _, _) = people();
    let convention =
        Convention::build(vec![(r1, vec![0])], events(&["100m - All", "Basket - All"]));

    assert_eq!(
        ";Basket - All;athletisme\n\
         Basket - All;0/0 (0.00%);0/1 (0.00%)\n\
         athletisme;0/0 (0.00%);1/1 (100.00%)",
        generate_csv_file(&convention, &year_mapping(), &configuration())
    );
}

#[test]
fn merged_events_count_a_shared_registrant_once() {
    let (r1, r2, r3, _) = people();
    let groups = group_registrants(&convention(), &year_mapping(), &configuration());
    let position = groups.labels().iter().position(|label| label == "tout-terrain").unwrap();
    let merged = &groups.members()[position];

    // r3 ran both the short and the long cross.
    assert_eq!(3, merged.len());
    assert!(merged.contains(&r1));
    assert!(merged.contains(&r2));
    assert!(merged.contains(&r3));
}

#[test]
fn groups_come_in_the_order_of_their_labels() {
    let groups = group_registrants(&convention(), &year_mapping(), &configuration());

    assert_eq!(
        vec![
            ("Basket - All".to_string(), 2),
            ("athletisme".to_string(), 2),
            ("tout-terrain".to_string(), 3),
        ],
        sizes(&groups)
    );
    let mut sorted = groups.labels().clone();
    sorted.sort();
    assert_eq!(&sorted, groups.labels());
    assert_eq!(3, groups.len());
}

#[test]
fn a_category_that_cannot_regroup_leaves_its_events_apart() {
    let (r1, r2, r3, _) = people();
    let convention = Convention::build(
        vec![(r1, vec![0]), (r2, vec![0, 1]), (r3, vec![1])],
        events(&["Basket - All", "Hockey - All"]),
    );
    let year = mapping(&[(
        "sports-co",
        &[("basket", &["Basket - All"]), ("hockey", &["Hockey - All"])],
    )]);
    let groups = group_registrants(&convention, &year, &configuration());

    assert_eq!(
        vec![("Basket - All".to_string(), 2), ("Hockey - All".to_string(), 2)],
        sizes(&groups)
    );
}

#[test]
fn a_category_without_matching_event_forms_no_group() {
    let year = mapping(&[
        ("athletisme", &[("100m", &["100m - All"]), ("400m", &["400m - All"])]),
        ("natation", &[("crawl", &["Crawl - All"])]),
        ("sports-co", &[("hockey", &[])]),
    ]);
    let groups = group_registrants(&convention(), &year, &configuration());

    assert_eq!(vec![("athletisme".to_string(), 2)], sizes(&groups));
}

#[test]
fn an_event_listed_under_two_categories_feeds_both() {
    let (r1, r2, _, _) = people();
    let convention =
        Convention::build(vec![(r1, vec![0]), (r2, vec![0])], events(&["100m - All"]));
    let year = mapping(&[
        ("athletisme", &[("100m", &["100m - All"])]),
        ("tout-terrain", &[("cross-country", &["100m - All"])]),
        ("sports-co", &[("basket", &["100m - All"])]),
    ]);
    let groups = group_registrants(&convention, &year, &configuration());

    assert_eq!(
        vec![
            ("100m - All".to_string(), 2),
            ("athletisme".to_string(), 2),
            ("tout-terrain".to_string(), 2),
        ],
        sizes(&groups)
    );
}

#[test]
fn a_later_event_of_the_same_name_replaces_the_group_of_an_earlier_one() {
    let (r1, r2, r3, _) = people();
    let convention = Convention::build(
        vec![(r1, vec![0]), (r2.clone(), vec![1]), (r3.clone(), vec![0, 1])],
        vec![
            Event::new(0, "Parcours IUF - All".to_string()),
            Event::new(1, "Parcours IUF - All".to_string()),
        ],
    );
    let year = mapping(&[
        ("sports-co", &[("parcours", &["Parcours IUF - All"])]),
        ("artistique", &[("iuf", &["Parcours IUF - All"])]),
    ]);
    let groups = group_registrants(&convention, &year, &configuration());

    assert_eq!(vec![("Parcours IUF - All".to_string(), 2)], sizes(&groups));
    assert!(groups.members()[0].contains(&r2));
    assert!(groups.members()[0].contains(&r3));
    assert!(!groups.members()[0].contains(&people().0));
}

#[test]
fn a_key_merges_whatever_category_lists_it() {
    // The key decides whether an event merges; the group is named after the
    // category of the mapping.
    let (r1, _, _, _) = people();
    let convention = Convention::build(vec![(r1, vec![0])], events(&["400m - All"]));
    let year = mapping(&[("piste", &[("400m", &["400m - All"])])]);
    let groups = group_registrants(&convention, &year, &configuration());

    assert_eq!(vec![("piste".to_string(), 1)], sizes(&groups));
}

#[test]
fn configuration_gives_back_what_it_was_made_of() {
    let athletics = category("Athlétisme", true, &["100m"]);

    assert_eq!("Athlétisme", athletics.name());
    assert_eq!(&true, athletics.can_regroup());
    assert_eq!(&vec![("100m".to_string(), "100M".to_string())], athletics.events());
    let configuration = EventsConfiguration::new(vec![("athletisme".to_string(), athletics)]);
    assert_eq!(1, configuration.categories().len());
    assert_eq!("athletisme", configuration.categories()[0].0);
}

#[test]
fn dependencies_of_the_groups_of_a_convention() {
    let groups = group_registrants(&convention(), &year_mapping(), &configuration());

    assert_eq!(
        vec![
            vec![(2, 2), (1, 2), (1, 3)],
            vec![(1, 2), (2, 2), (2, 3)],
            vec![(1, 2), (2, 2), (3, 3)],
        ],
        compute_dependencies(groups.members())
    );
}
