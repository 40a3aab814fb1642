use navitia_model::collection::CollectionWithId;
use navitia_model::error::Error;
use navitia_model::gtfs::{
    get_modes_from_gtfs, id_less, make_lines, make_ntfs_vehicle_journeys, make_routes, read_agency, read_routes,
    Agency, DirectionType, Route, RouteType, Trip,
};
use navitia_model::model::Collections;
use navitia_model::objects::{Availability, Contributor, Dataset, Network};

fn s(x: &str) -> String {
    x.to_string()
}

fn route(id: &str, agency: &str, short: &str, long: &str, code: u16) -> Route {
    Route {
        id: s(id),
        agency_id: if agency.is_empty() { None } else { Some(s(agency)) },
        short_name: s(short),
        long_name: s(long),
        route_type: RouteType::from_code(code),
    }
}

fn trip(id: &str, route_id: &str, backward: bool, service: &str) -> Trip {
    Trip {
        id: s(id),
        route_id: s(route_id),
        service_id: s(service),
        direction: if backward { DirectionType::Backward } else { DirectionType::Forward },
        short_name: None,
        headsign: None,
        wheelchair_accessible: Availability::InformationNotAvailable,
        bikes_allowed: Availability::InformationNotAvailable,
    }
}

fn network(id: &str) -> Network {
    Network { id: s(id), name: s(id) }
}

/// The default contributor and dataset, and the networks of `agencies`.
fn collections_with(agencies: &[&str]) -> Collections {
    let mut c = Collections::default();
    c.contributors =
        CollectionWithId::new(vec![Contributor { id: s("default_contributor"), name: s("Default contributor") }])
            .unwrap();
    c.datasets =
        CollectionWithId::new(vec![Dataset { id: s("default_dataset"), contributor_id: s("default_contributor"), start_date: 0, end_date: 0 }])
            .unwrap();
    let records: Vec<Agency> = agencies.iter().map(|a| Agency { id: Some(s(a)), name: s(a) }).collect();
    c.networks = read_agency(&records).unwrap().0;
    c
}

fn sorted(mut v: Vec<String>) -> Vec<String> {
    v.sort();
    v
}

fn line_ids(c: &Collections) -> Vec<String> {
    sorted(c.lines.values().iter().map(|l| l.id.clone()).collect())
}

fn line_networks(c: &Collections) -> Vec<String> {
    sorted(c.lines.values().iter().map(|l| l.network_id.clone()).collect())
}

fn route_ids(c: &Collections) -> Vec<String> {
    sorted(c.routes.values().iter().map(|r| r.id.clone()).collect())
}

#[test]
fn identifier_order() {
    assert!(id_less(&s("route_1"), &s("route_2")));
    assert!(!id_less(&s("route_2"), &s("route_1")));
    assert!(id_less(&s("route"), &s("route_1")));
    assert!(!id_less(&s("route_1"), &s("route_1")));
    assert!(id_less(&s("B"), &s("a")));
}

#[test]
fn gtfs_routes_as_line() {
    let routes = vec![
        route("route_1", "agency_1", "1", "My line 1", 3),
        route("route_2", "agency_2", "", "My line 2", 2),
        route("route_3", "agency_3", "3", "My line 3", 8),
        route("route_4", "agency_4", "3", "My line 3 for agency 3", 8),
    ];
    let trips = vec![
        trip("1", "route_1", false, "service_1"),
        trip("2", "route_1", true, "service_1"),
        trip("3", "route_2", false, "service_2"),
        trip("4", "route_3", false, "service_3"),
        trip("5", "route_4", false, "service_4"),
    ];
    let mut c = collections_with(&[]);
    read_routes(routes, &trips, &mut c).unwrap();
    assert_eq!(4, c.lines.len());
    assert_eq!(line_networks(&c), vec!["agency_1", "agency_2", "agency_3", "agency_4"]);
    assert_eq!(2, c.commercial_modes.len());
    assert_eq!(sorted(c.commercial_modes.values().iter().map(|m| m.name.clone()).collect()), vec!["Bus", "Rail"]);
    let modes: Vec<String> = c.lines.values().iter().map(|l| l.commercial_mode_id.clone()).collect();
    assert!(modes.contains(&s("2")));
    assert!(modes.contains(&s("3")));
    assert!(!modes.contains(&s("8")));
    assert_eq!(2, c.physical_modes.len());
    assert_eq!(c.physical_modes.values().iter().map(|p| p.name.clone()).collect::<Vec<_>>(), vec!["Bus", "Train"]);
    assert_eq!(5, c.routes.len());
    assert_eq!(route_ids(&c), vec!["route_1", "route_1_R", "route_2", "route_3", "route_4"]);
    let line2 = c.lines.get("route_2").unwrap();
    assert_eq!(line2.code, None);
    assert_eq!(line2.name, "My line 2");
}

#[test]
fn gtfs_routes_without_agency_id_as_line() {
    let routes = vec![
        route("route_1", "", "1", "My line 1", 3),
        route("route_2", "", "2", "My line 2", 3),
        route("route_3", "", "3", "My line 3", 3),
        route("route_4", "", "3", "My line 3", 3),
    ];
    let trips = vec![
        trip("1", "route_1", false, "service_1"),
        trip("2", "route_1", true, "service_1"),
        trip("3", "route_2", false, "service_2"),
        trip("4", "route_3", false, "service_3"),
        trip("5", "route_4", false, "service_4"),
    ];
    let mut c = collections_with(&["id_agency"]);
    read_routes(routes, &trips, &mut c).unwrap();
    assert_eq!(3, c.lines.len());
    assert_eq!(5, c.routes.len());
    assert_eq!(line_networks(&c), vec!["id_agency", "id_agency", "id_agency"]);
    assert_eq!(c.vehicle_journeys.get("1").unwrap().company_id, "id_agency");
}

#[test]
fn gtfs_routes_without_agency_id_as_line_and_2_agencies() {
    let routes = vec![route("route_1", "", "1", "My line 1", 3), route("route_2", "", "2", "My line 2", 3)];
    let trips = vec![trip("1", "route_1", false, "service_1"), trip("2", "route_2", false, "service_2")];
    let mut c = collections_with(&["id_agency1", "id_agency2"]);
    assert_eq!(
        read_routes(routes, &trips, &mut c),
        Err(Error::AmbiguousForeignKey { relation: s("agency_id"), candidates: 2 })
    );
}

#[test]
fn gtfs_routes_without_agency_id_as_line_and_0_agencies() {
    let routes = vec![route("route_1", "", "1", "My line 1", 3)];
    let trips = vec![trip("1", "route_1", false, "service_1")];
    let mut c = collections_with(&[]);
    assert_eq!(
        read_routes(routes, &trips, &mut c),
        Err(Error::AmbiguousForeignKey { relation: s("agency_id"), candidates: 0 })
    );
}

#[test]
fn gtfs_routes_as_route() {
    let routes = vec![
        route("route_1", "agency_1", "1", "My line 1A", 3),
        route("route_2", "agency_1", "1", "My line 1B", 3),
        route("route_4", "agency_2", "1", "My line 1B", 3),
        route("route_3", "agency_2", "1", "My line 1B", 3),
        route("route_5", "", "1", "My line 1C", 3),
    ];
    let trips = vec![
        trip("1", "route_1", false, "service_1"),
        trip("2", "route_2", false, "service_1"),
        trip("3", "route_3", false, "service_2"),
        trip("4", "route_4", false, "service_2"),
        trip("5", "route_5", false, "service_3"),
    ];
    let mut c = collections_with(&["id_agency"]);
    read_routes(routes, &trips, &mut c).unwrap();
    assert_eq!(3, c.lines.len());
    assert_eq!(line_networks(&c), vec!["agency_1", "agency_2", "id_agency"]);
    assert_eq!(line_ids(&c), vec!["route_1", "route_3", "route_5"]);
    assert_eq!(5, c.routes.len());
    assert_eq!(
        sorted(c.routes.values().iter().map(|r| r.line_id.clone()).collect()),
        vec!["route_1", "route_1", "route_3", "route_3", "route_5"]
    );
}

#[test]
fn gtfs_routes_as_route_with_backward_trips() {
    let routes = vec![
        route("route_1", "agency_1", "1", "My line 1A", 3),
        route("route_2", "agency_1", "1", "My line 1B", 3),
        route("route_3", "agency_2", "", "My line 2", 2),
    ];
    let trips = vec![
        trip("1", "route_1", false, "service_1"),
        trip("2", "route_1", true, "service_1"),
        trip("3", "route_2", false, "service_2"),
        trip("4", "route_3", false, "service_3"),
        trip("5", "route_3", true, "service_3"),
    ];
    let mut c = collections_with(&[]);
    read_routes(routes, &trips, &mut c).unwrap();
    assert_eq!(2, c.lines.len());
    assert_eq!(5, c.routes.len());
    assert_eq!(route_ids(&c), vec!["route_1", "route_1_R", "route_2", "route_3", "route_3_R"]);
    let back = c.routes.get("route_3_R").unwrap();
    assert_eq!(back.direction_type, Some(s("backward")));
    assert_eq!(back.name, "My line 2");
}

#[test]
fn gtfs_routes_as_route_same_name_different_agency() {
    let routes = vec![
        route("route_1", "agency_1", "1", "My line 1A", 3),
        route("route_2", "agency_1", "1", "My line 1B", 3),
        route("route_3", "agency_2", "1", "My line 1 for agency 2", 3),
    ];
    let trips = vec![
        trip("1", "route_1", false, "service_1"),
        trip("2", "route_2", false, "service_2"),
        trip("3", "route_3", false, "service_3"),
    ];
    let mut c = collections_with(&[]);
    read_routes(routes, &trips, &mut c).unwrap();
    assert_eq!(line_ids(&c), vec!["route_1", "route_3"]);
    assert_eq!(route_ids(&c), vec!["route_1", "route_2", "route_3"]);
    assert_eq!(
        sorted(c.routes.values().iter().map(|r| r.line_id.clone()).collect()),
        vec!["route_1", "route_1", "route_3"]
    );
}

#[test]
fn gtfs_routes_with_no_trips() {
    let routes = vec![route("route_1", "agency_1", "1", "My line 1", 3), route("route_2", "agency_2", "2", "My line 2", 3)];
    let trips = vec![trip("1", "route_1", false, "service_1")];
    let mut c = collections_with(&[]);
    read_routes(routes, &trips, &mut c).unwrap();
    assert_eq!(1, c.lines.len());
    assert_eq!(1, c.routes.len());
}

#[test]
fn deduplicate_funicular_physical_mode() {
    let routes = vec![
        route("route:1", "agency:1", "S1", "S 1", 5),
        route("route:2", "agency:1", "L2", "L 2", 6),
        route("route:3", "agency:1", "L3", "L 3", 2),
        route("route:4", "agency:2", "57", "57", 7),
    ];
    let trips = vec![
        trip("trip:1", "route:1", false, "service:1"),
        trip("trip:2", "route:2", false, "service:1"),
        trip("trip:3", "route:3", false, "service:1"),
        trip("trip:4", "route:4", false, "service:1"),
    ];
    let mut c = collections_with(&[]);
    read_routes(routes, &trips, &mut c).unwrap();
    assert_eq!(4, c.lines.len());
    assert_eq!(4, c.commercial_modes.len());
    assert_eq!(c.physical_modes.values().iter().map(|p| p.id.clone()).collect::<Vec<_>>(), vec!["Funicular", "Train"]);
}

#[test]
fn read_routes_rejects_clashing_route_ids() {
    // The backward route of "a" is named like route "a_R".
    let routes = vec![route("a", "x", "1", "one", 3), route("a_R", "x", "2", "two", 3)];
    let trips = vec![trip("1", "a", true, "s"), trip("2", "a_R", false, "s")];
    let mut c = collections_with(&[]);
    assert_eq!(read_routes(routes, &trips, &mut c), Err(Error::DuplicateId(s("a_R"))));
}

#[test]
fn read_routes_rejects_unknown_route_and_missing_dataset() {
    let routes = vec![route("route_1", "agency_1", "1", "My line 1", 3)];
    let trips = vec![trip("1", "route_1", false, "s"), trip("2", "nowhere", false, "s")];
    let mut c = collections_with(&[]);
    assert_eq!(
        read_routes(routes.clone(), &trips, &mut c),
        Err(Error::ReferentialIntegrity { relation: s("trips_to_routes"), id: s("nowhere") })
    );
    let mut empty = Collections::default();
    assert_eq!(read_routes(routes, &vec![trip("1", "route_1", false, "s")], &mut empty), Err(Error::NoDataset));
}

#[test]
fn read_routes_rejects_duplicate_trip_ids() {
    let routes = vec![route("route_1", "agency_1", "1", "My line 1", 3)];
    let trips = vec![trip("1", "route_1", false, "s"), trip("1", "route_1", false, "s")];
    let mut c = collections_with(&[]);
    assert_eq!(read_routes(routes, &trips, &mut c), Err(Error::DuplicateId(s("1"))));
}

#[test]
fn building_blocks_of_route_import() {
    let routes = CollectionWithId::new(vec![route("route_1", "", "1", "My line 1", 3)]).unwrap();
    let trips = vec![trip("1", "route_1", false, "service_1")];
    let two = CollectionWithId::new(vec![network("n1"), network("n2")]).unwrap();
    assert_eq!(
        make_lines(&trips, &routes, &two),
        Err(Error::AmbiguousForeignKey { relation: s("agency_id"), candidates: 2 })
    );
    // Without any trip, no line is made, so no network is needed.
    assert_eq!(make_lines(&vec![], &routes, &two), Ok(vec![]));
    assert_eq!(make_routes(&trips, &routes).len(), 1);
    assert_eq!(get_modes_from_gtfs(&routes).0.len(), 1);
}

#[test]
fn gtfs_trips() {
    let routes = CollectionWithId::new(vec![
        route("route_1", "agency_1", "1", "My line 1", 3),
        route("route_2", "agency_2", "", "My line 2", 2),
        route("route_3", "", "3", "My line 3", 7),
    ])
    .unwrap();
    let mut trips = vec![
        trip("1", "route_1", false, "service_1"),
        trip("2", "route_2", true, "service_2"),
        trip("3", "route_3", false, "service_3"),
    ];
    trips[0].short_name = Some(s("short"));
    trips[0].headsign = Some(s("head"));
    trips[1].headsign = Some(s("head 2"));
    let datasets = CollectionWithId::new(vec![Dataset { id: s("default_dataset"), contributor_id: s("default_contributor"), start_date: 0, end_date: 0 }])
        .unwrap();
    let networks = CollectionWithId::new(vec![network("agency_3")]).unwrap();
    let (vjs, props) = make_ntfs_vehicle_journeys(&trips, &routes, &datasets, &networks).unwrap();
    assert!(props.is_empty());
    assert_eq!(vjs[0].trip_property_id, None);
    assert_eq!(vjs.len(), 3);
    assert_eq!(vjs[0].id, "1");
    assert_eq!(vjs[0].route_id, "route_1");
    assert_eq!(vjs[0].company_id, "agency_1");
    assert_eq!(vjs[0].physical_mode_id, "Bus");
    assert_eq!(vjs[0].headsign, Some(s("short")));
    assert_eq!(vjs[1].route_id, "route_2_R");
    assert_eq!(vjs[1].physical_mode_id, "Train");
    assert_eq!(vjs[1].service_id, "service_2");
    assert_eq!(vjs[1].headsign, Some(s("head 2")));
    assert_eq!(vjs[2].company_id, "agency_3");
    assert_eq!(vjs[2].physical_mode_id, "Funicular");
    assert_eq!(vjs[2].dataset_id, "default_dataset");
    assert_eq!(vjs[2].headsign, None);
    assert!(vjs[2].stop_times.is_empty());

    let none: CollectionWithId<Network> = CollectionWithId::empty();
    assert_eq!(
        make_ntfs_vehicle_journeys(&trips, &routes, &datasets, &none),
        Err(Error::AmbiguousForeignKey { relation: s("agency_id"), candidates: 0 })
    );
}

#[test]
fn gtfs_trips_with_accessibility_information() {
    let routes = CollectionWithId::new(vec![route("route_1", "agency_1", "1", "My line 1", 3)]).unwrap();
    let mut trips = vec![
        trip("1", "route_1", false, "s"),
        trip("2", "route_1", false, "s"),
        trip("3", "route_1", false, "s"),
        trip("4", "route_1", false, "s"),
    ];
    trips[0].wheelchair_accessible = Availability::Available;
    trips[1].bikes_allowed = Availability::NotAvailable;
    trips[3].wheelchair_accessible = Availability::Available;
    let datasets = CollectionWithId::new(vec![Dataset { id: s("default_dataset"), contributor_id: s("default_contributor"), start_date: 0, end_date: 0 }])
        .unwrap();
    let networks: CollectionWithId<Network> = CollectionWithId::empty();
    let (vjs, props) = make_ntfs_vehicle_journeys(&trips, &routes, &datasets, &networks).unwrap();
    assert_eq!(props.len(), 2);
    assert_eq!(props[0].id, "1");
    assert_eq!(props[0].wheelchair_accessible, Availability::Available);
    assert_eq!(props[0].bike_accepted, Availability::InformationNotAvailable);
    assert_eq!(props[1].id, "2");
    assert_eq!(props[1].bike_accepted, Availability::NotAvailable);
    assert_eq!(vjs[0].trip_property_id, Some(s("1")));
    assert_eq!(vjs[1].trip_property_id, Some(s("2")));
    assert_eq!(vjs[2].trip_property_id, None);
    assert_eq!(vjs[3].trip_property_id, Some(s("1")));
    let mut c = collections_with(&[]);
    read_routes(vec![route("route_1", "agency_1", "1", "My line 1", 3)], &trips, &mut c).unwrap();
    assert_eq!(c.trip_properties.len(), 2);
    assert_eq!(c.vehicle_journeys.get("4").unwrap().trip_property_id, Some(s("1")));
}

#[test]
fn gtfs_trips_with_no_accessibility_information() {
    let mut c = collections_with(&[]);
    let trips = vec![trip("1", "route_1", false, "s"), trip("2", "route_1", false, "s")];
    read_routes(vec![route("route_1", "agency_1", "1", "My line 1", 3)], &trips, &mut c).unwrap();
    assert_eq!(c.trip_properties.len(), 0);
    assert_eq!(c.vehicle_journeys.get("1").unwrap().trip_property_id, None);
}
