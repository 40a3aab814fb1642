use navitia_model::collection::CollectionWithId;
use navitia_model::error::Error;
use navitia_model::gtfs;
use navitia_model::gtfs::{
    manage_stop_times, read_agency, read_routes, Agency, DirectionType, Route, RouteType, StopTime, Trip,
};
use navitia_model::model::{Collections, Model};
use navitia_model::objects::{Availability, Calendar, Contributor, Dataset, Network, StopArea, StopPoint, StopTime as ModelStopTime};

fn s(x: &str) -> String {
    x.to_string()
}

fn agency(id: Option<&str>, name: &str) -> Agency {
    Agency { id: id.map(s), name: s(name) }
}

fn route(id: &str, agency: Option<&str>, short: &str, long: &str, code: u16) -> Route {
    Route {
        id: s(id),
        agency_id: agency.map(s),
        short_name: s(short),
        long_name: s(long),
        route_type: RouteType::from_code(code),
    }
}

fn trip(id: &str, route_id: &str, service: &str) -> Trip {
    Trip {
        id: s(id),
        route_id: s(route_id),
        service_id: s(service),
        direction: DirectionType::Forward,
        short_name: None,
        headsign: None,
        wheelchair_accessible: Availability::InformationNotAvailable,
        bikes_allowed: Availability::InformationNotAvailable,
    }
}

fn stop_time(trip: &str, stop: &str, sequence: u32) -> StopTime {
    StopTime {
        trip_id: s(trip),
        arrival_time: 0,
        departure_time: 0,
        stop_id: s(stop),
        stop_sequence: sequence,
        stop_headsign: None,
        pickup_type: 0,
        drop_off_type: 0,
        local_zone_id: None,
    }
}

fn base_collections() -> Collections {
    let mut c = Collections::default();
    c.contributors =
        CollectionWithId::new(vec![Contributor { id: s("default_contributor"), name: s("Default contributor") }])
            .unwrap();
    c.datasets =
        CollectionWithId::new(vec![Dataset { id: s("default_dataset"), contributor_id: s("default_contributor"), start_date: 0, end_date: 0 }])
            .unwrap();
    c
}

#[test]
fn load_minimal_agency() {
    let (networks, companies) = read_agency(&vec![agency(None, "My agency")]).unwrap();
    assert_eq!(1, networks.len());
    assert_eq!("default_agency_id", networks.values()[0].id);
    assert_eq!(1, companies.len());
}

#[test]
fn load_complete_agency() {
    let (networks, companies) = read_agency(&vec![agency(Some("id_1"), "My agency")]).unwrap();
    assert_eq!(1, networks.len());
    assert_eq!("id_1", networks.values()[0].id);
    assert_eq!("My agency", networks.values()[0].name);
    assert_eq!(1, companies.len());
    assert_eq!("id_1", companies.values()[0].id);
}

#[test]
#[should_panic]
fn load_2_agencies_with_no_id() {
    read_agency(&vec![agency(None, "My agency 1"), agency(None, "My agency 2")]).unwrap();
}

#[test]
fn two_agencies_without_id_share_the_default_id() {
    let r = read_agency(&vec![agency(None, "My agency 1"), agency(None, "My agency 2")]);
    assert_eq!(r.err(), Some(Error::DuplicateId(s("default_agency_id"))));
}

#[test]
fn gtfs_trips_with_routes_without_agency_id() {
    let mut c = base_collections();
    let (networks, _) = read_agency(&vec![agency(Some("id_agency"), "My agency")]).unwrap();
    c.networks = networks;
    let routes = vec![
        route("route_1", None, "1", "My line 1", 3),
        route("route_2", Some("agency_2"), "2", "My line 2", 2),
    ];
    let trips = vec![trip("1", "route_1", "service_1"), trip("2", "route_2", "service_2")];
    read_routes(routes, &trips, &mut c).unwrap();
    assert_eq!(c.lines.len(), 2);
    assert_eq!(c.routes.len(), 2);
    assert_eq!(c.vehicle_journeys.len(), 2);
    let vj = c.vehicle_journeys.get("1").unwrap();
    assert_eq!(vj.company_id, "id_agency");
    assert_eq!(vj.dataset_id, "default_dataset");
    assert_eq!(c.vehicle_journeys.get("2").unwrap().company_id, "agency_2");
    assert_eq!(c.commercial_modes.len(), 2);
    assert_eq!(c.physical_modes.len(), 2);
}

#[test]
fn read_routes_rejects_duplicate_route_ids() {
    let mut c = base_collections();
    let routes = vec![route("route_1", Some("a"), "1", "x", 3), route("route_1", Some("a"), "2", "y", 3)];
    let trips = vec![trip("1", "route_1", "service_1")];
    assert_eq!(read_routes(routes, &trips, &mut c), Err(Error::DuplicateId(s("route_1"))));
}

#[test]
fn gtfs_stop_times() {
    let mut c = base_collections();
    c.stop_areas = CollectionWithId::new(vec![StopArea { id: s("Navitia:sp:01"), name: s("area"), codes: vec![], equipment_id: None }]).unwrap();
    c.stop_points = CollectionWithId::new(vec![
        StopPoint { id: s("sp:01"), name: s("my stop point name 1"), stop_area_id: s("Navitia:sp:01"), codes: vec![], equipment_id: None },
        StopPoint { id: s("sp:02"), name: s("my stop point name 2"), stop_area_id: s("Navitia:sp:01"), codes: vec![], equipment_id: None },
    ])
    .unwrap();
    read_routes(vec![route("route_1", Some("agency_1"), "1", "My line 1", 3)], &vec![trip("1", "route_1", "service_1")], &mut c)
        .unwrap();
    // Records out of order are sorted by sequence.
    let records = vec![
        StopTime {
            trip_id: s("1"),
            arrival_time: 6 * 3600 + 6 * 60 + 27,
            departure_time: 6 * 3600 + 6 * 60 + 27,
            stop_id: s("sp:02"),
            stop_sequence: 2,
            stop_headsign: None,
            pickup_type: 2,
            drop_off_type: 1,
            local_zone_id: None,
        },
        StopTime {
            trip_id: s("1"),
            arrival_time: 6 * 3600,
            departure_time: 6 * 3600,
            stop_id: s("sp:01"),
            stop_sequence: 1,
            stop_headsign: Some(s("over there")),
            pickup_type: 0,
            drop_off_type: 0,
            local_zone_id: None,
        },
    ];
    manage_stop_times(&mut c, &records).unwrap();
    let headsigns: Vec<String> = c.stop_time_headsigns.iter().map(|h| h.2.clone()).collect();
    assert_eq!(headsigns, vec![s("over there")]);
    assert_eq!(c.stop_time_headsigns[0].0, "1");
    assert_eq!(c.stop_time_headsigns[0].1, 1);
    let vj = &c.vehicle_journeys.into_vec()[0];
    assert_eq!(
        vj.stop_times,
        vec![
            ModelStopTime {
                stop_point_id: s("sp:01"),
                sequence: 1,
                arrival_time: 6 * 3600,
                departure_time: 6 * 3600,
                boarding_duration: 0,
                alighting_duration: 0,
                pickup_type: 0,
                drop_off_type: 0,
                datetime_estimated: false,
                local_zone_id: None,
            },
            ModelStopTime {
                stop_point_id: s("sp:02"),
                sequence: 2,
                arrival_time: 6 * 3600 + 6 * 60 + 27,
                departure_time: 6 * 3600 + 6 * 60 + 27,
                boarding_duration: 0,
                alighting_duration: 0,
                pickup_type: 2,
                drop_off_type: 1,
                datetime_estimated: false,
                local_zone_id: None,
            },
        ]
    );
}

#[test]
fn stop_times_with_unknown_stop_change_nothing() {
    let mut c = base_collections();
    c.stop_points = CollectionWithId::new(vec![StopPoint { id: s("sp:01"), name: s("a"), stop_area_id: s("sa"), codes: vec![], equipment_id: None }])
        .unwrap();
    read_routes(vec![route("route_1", Some("agency_1"), "1", "My line 1", 3)], &vec![trip("1", "route_1", "service_1")], &mut c)
        .unwrap();
    let records = vec![stop_time("1", "sp:01", 1), stop_time("1", "sp:99", 2)];
    assert_eq!(
        manage_stop_times(&mut c, &records),
        Err(Error::ReferentialIntegrity { relation: s("stop_times_to_stop_points"), id: s("sp:99") })
    );
    assert!(c.vehicle_journeys.get("1").unwrap().stop_times.is_empty());
    let records = vec![stop_time("2", "sp:01", 1)];
    assert_eq!(
        manage_stop_times(&mut c, &records),
        Err(Error::ReferentialIntegrity { relation: s("stop_times_to_vehicle_journeys"), id: s("2") })
    );
}

#[test]
fn imported_feed_builds_a_model() {
    let mut c = base_collections();
    let (networks, companies) = read_agency(&vec![agency(Some("agency_1"), "My agency")]).unwrap();
    c.networks = networks;
    c.companies = companies;
    c.stop_areas = CollectionWithId::new(vec![StopArea { id: s("sa"), name: s("area"), codes: vec![], equipment_id: None }]).unwrap();
    c.stop_points = CollectionWithId::new(vec![
        StopPoint { id: s("sp:01"), name: s("one"), stop_area_id: s("sa"), codes: vec![], equipment_id: None },
        StopPoint { id: s("sp:02"), name: s("two"), stop_area_id: s("sa"), codes: vec![], equipment_id: None },
    ])
    .unwrap();
    read_routes(vec![route("route_1", Some("agency_1"), "1", "My line 1", 3)], &vec![trip("1", "route_1", "service_1")], &mut c)
        .unwrap();
    manage_stop_times(&mut c, &vec![stop_time("1", "sp:01", 1), stop_time("1", "sp:02", 2)]).unwrap();
    let model = Model::new(c).unwrap();
    assert_eq!(model.collections().lines.values()[0].network_id, "agency_1");
    let _: Network = model.collections().networks.values()[0].clone();
}

fn calendar(id: &str, dates: Vec<u32>) -> Calendar {
    Calendar { id: s(id), dates }
}

#[test]
fn set_dataset_validity_period() {
    let mut datasets = base_collections().datasets;
    let calendars = CollectionWithId::new(vec![
        calendar("1", vec![20180501, 20180502, 20180503, 20180504, 20180507, 20180508]),
        calendar("2", vec![20180519]),
    ])
    .unwrap();
    gtfs::set_dataset_validity_period(&mut datasets, &calendars);
    let d = &datasets.values()[0];
    assert_eq!(d.id, "default_dataset");
    assert_eq!(d.contributor_id, "default_contributor");
    assert_eq!(d.start_date, 20180501);
    assert_eq!(d.end_date, 20180519);
}

#[test]
fn set_dataset_validity_period_with_only_one_date() {
    let mut datasets = base_collections().datasets;
    let calendars = CollectionWithId::new(vec![calendar("1", vec![20180501])]).unwrap();
    gtfs::set_dataset_validity_period(&mut datasets, &calendars);
    assert_eq!(datasets.values()[0].start_date, 20180501);
    assert_eq!(datasets.values()[0].end_date, 20180501);
}

#[test]
fn validity_period_without_dates_leaves_datasets() {
    let mut datasets = base_collections().datasets;
    let calendars = CollectionWithId::new(vec![calendar("1", vec![])]).unwrap();
    gtfs::set_dataset_validity_period(&mut datasets, &calendars);
    assert_eq!(datasets.values()[0].start_date, 0);
    assert_eq!(datasets.values()[0].end_date, 0);
}
