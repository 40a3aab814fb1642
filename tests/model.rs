use navitia_model::collection::{Collection, CollectionWithId, Idx, IdxSet};
use navitia_model::error::Error;
use navitia_model::model::{Collections, GetCorresponding, Model};
use navitia_model::objects::{
    CommercialMode, Company, Contributor, Dataset, Line, Network, PhysicalMode, Route, StopArea, StopPoint,
    StopTime, Transfer, VehicleJourney,
};

fn s(x: &str) -> String {
    x.to_string()
}

fn vj(id: &str, route: &str, mode: &str, stops: &[&str]) -> VehicleJourney {
    VehicleJourney {
        id: s(id),
        route_id: s(route),
        physical_mode_id: s(mode),
        dataset_id: s("ds"),
        company_id: s("co"),
        service_id: s("service"),
        headsign: None,
        trip_property_id: None,
        stop_times: stops
            .iter()
            .enumerate()
            .map(|(i, sp)| StopTime {
                stop_point_id: s(sp),
                sequence: i as u32,
                arrival_time: 3600 * i as u32,
                departure_time: 3600 * i as u32,
                boarding_duration: 0,
                alighting_duration: 0,
                pickup_type: 0,
                drop_off_type: 0,
                datetime_estimated: false,
                local_zone_id: None,
            })
            .collect(),
    }
}

fn stop_point(id: &str) -> StopPoint {
    StopPoint { id: s(id), name: s(id), stop_area_id: s("sa"), codes: vec![], equipment_id: None }
}

fn transfer(from: &str, to: &str) -> Transfer {
    Transfer { from_stop_id: s(from), to_stop_id: s(to), min_transfer_time: Some(60), real_min_transfer_time: Some(60) }
}

/// One network, line and route; two vehicle journeys on the route, with
/// physical modes bus and tram, touching three stop points in all.
fn fixture() -> Collections {
    let mut c = Collections::default();
    c.contributors = CollectionWithId::new(vec![Contributor { id: s("contrib"), name: s("contrib") }]).unwrap();
    c.datasets = CollectionWithId::new(vec![Dataset { id: s("ds"), contributor_id: s("contrib"), start_date: 0, end_date: 0 }]).unwrap();
    c.networks = CollectionWithId::new(vec![Network { id: s("net"), name: s("net") }]).unwrap();
    c.commercial_modes = CollectionWithId::new(vec![CommercialMode { id: s("3"), name: s("Bus") }]).unwrap();
    c.lines = CollectionWithId::new(vec![Line {
        id: s("line"),
        code: Some(s("L")),
        name: s("line"),
        network_id: s("net"),
        commercial_mode_id: s("3"),
    }])
    .unwrap();
    c.routes = CollectionWithId::new(vec![
        Route { id: s("route"), name: s("route"), direction_type: Some(s("forward")), line_id: s("line") },
        Route { id: s("other"), name: s("other"), direction_type: None, line_id: s("line") },
    ])
    .unwrap();
    c.physical_modes = CollectionWithId::new(vec![
        PhysicalMode { id: s("Bus"), name: s("Bus") },
        PhysicalMode { id: s("Tramway"), name: s("Tramway") },
    ])
    .unwrap();
    c.companies = CollectionWithId::new(vec![Company { id: s("co"), name: s("co") }]).unwrap();
    c.stop_areas = CollectionWithId::new(vec![StopArea { id: s("sa"), name: s("sa"), codes: vec![], equipment_id: None }]).unwrap();
    c.stop_points =
        CollectionWithId::new(vec![stop_point("sp1"), stop_point("sp2"), stop_point("sp3"), stop_point("sp4")])
            .unwrap();
    c.vehicle_journeys = CollectionWithId::new(vec![
        vj("vj1", "route", "Bus", &["sp1", "sp2"]),
        vj("vj2", "route", "Tramway", &["sp2", "sp3"]),
    ])
    .unwrap();
    c
}

fn set<T>(items: &[usize]) -> IdxSet<T> {
    let mut r = IdxSet::new();
    for &i in items {
        r.insert(Idx::new(i));
    }
    r
}

fn sorted<T>(x: &IdxSet<T>) -> Vec<usize> {
    let mut v: Vec<usize> = x.to_vec().iter().map(|i| i.get()).collect();
    v.sort();
    v
}

#[test]
fn model_from_empty_collections() {
    assert!(Model::new(Collections::default()).is_ok());
}

#[test]
fn invalid_transfer_is_rejected() {
    let mut c = Collections::default();
    c.transfers = Collection::new(vec![transfer("invalid", "also_invalid")]);
    assert_eq!(
        Model::new(c).err(),
        Some(Error::ReferentialIntegrity { relation: s("transfers_to_stop_points"), id: s("invalid") })
    );
}

#[test]
fn transfer_to_missing_stop_point_is_rejected() {
    let mut c = fixture();
    c.transfers = Collection::new(vec![transfer("sp1", "sp2"), transfer("sp2", "sp9")]);
    assert_eq!(
        Model::new(c).err(),
        Some(Error::ReferentialIntegrity { relation: s("transfers_to_stop_points"), id: s("sp9") })
    );
}

#[test]
fn valid_transfers_give_a_model() {
    let mut c = fixture();
    c.transfers = Collection::new(vec![transfer("sp1", "sp3"), transfer("sp4", "sp4")]);
    let model = Model::new(c).unwrap();
    let sps: IdxSet<StopPoint> = model.get_corresponding(&set::<Transfer>(&[0]));
    assert_eq!(sorted(&sps), vec![0, 2]);
    let back: IdxSet<Transfer> = model.get_corresponding(&set::<StopPoint>(&[3]));
    assert_eq!(sorted(&back), vec![1]);
}

#[test]
fn dangling_stop_time_is_rejected() {
    let mut c = fixture();
    c.vehicle_journeys = CollectionWithId::new(vec![vj("vj1", "route", "Bus", &["sp1", "nowhere"])]).unwrap();
    assert_eq!(
        Model::new(c).err(),
        Some(Error::ReferentialIntegrity { relation: s("vehicle_journeys_to_stop_points"), id: s("nowhere") })
    );
}

#[test]
fn dangling_foreign_key_is_rejected() {
    let mut c = fixture();
    c.routes = CollectionWithId::new(vec![
        Route { id: s("route"), name: s("route"), direction_type: None, line_id: s("no_line") },
    ])
    .unwrap();
    assert_eq!(
        Model::new(c).err(),
        Some(Error::ReferentialIntegrity { relation: s("lines_to_routes"), id: s("no_line") })
    );
}

#[test]
fn route_stop_points_by_chain() {
    let model = Model::new(fixture()).unwrap();
    let sps: IdxSet<StopPoint> = model.get_corresponding(&set::<Route>(&[0]));
    assert_eq!(sorted(&sps), vec![0, 1, 2]);
    // Same as going through the vehicle journeys.
    let vjs: IdxSet<VehicleJourney> = model.get_corresponding(&set::<Route>(&[0]));
    let via: IdxSet<StopPoint> = model.get_corresponding(&vjs);
    assert_eq!(sorted(&via), sorted(&sps));
    // A route without vehicle journeys has no stop point.
    let none: IdxSet<StopPoint> = model.get_corresponding(&set::<Route>(&[1]));
    assert_eq!(none.len(), 0);
    let routes: IdxSet<Route> = model.get_corresponding(&set::<StopPoint>(&[2, 3]));
    assert_eq!(sorted(&routes), vec![0]);
}

#[test]
fn physical_modes_to_route_by_sink() {
    let model = Model::new(fixture()).unwrap();
    let routes: IdxSet<Route> = model.get_corresponding(&set::<PhysicalMode>(&[0]));
    assert_eq!(sorted(&routes), vec![0]);
    let routes: IdxSet<Route> = model.get_corresponding(&set::<PhysicalMode>(&[1]));
    assert_eq!(sorted(&routes), vec![0]);
    let modes: IdxSet<PhysicalMode> = model.get_corresponding(&set::<Route>(&[0]));
    assert_eq!(sorted(&modes), vec![0, 1]);
    let sps: IdxSet<StopPoint> = model.get_corresponding(&set::<PhysicalMode>(&[1]));
    assert_eq!(sorted(&sps), vec![1, 2]);
}

#[test]
fn one_to_many_lookups() {
    let model = Model::new(fixture()).unwrap();
    let lines: IdxSet<Line> = model.get_corresponding(&set::<Network>(&[0]));
    assert_eq!(sorted(&lines), vec![0]);
    let routes: IdxSet<Route> = model.get_corresponding(&lines);
    assert_eq!(sorted(&routes), vec![0, 1]);
    let line_back: IdxSet<Line> = model.get_corresponding(&set::<Route>(&[1]));
    assert_eq!(sorted(&line_back), vec![0]);
    let ds: IdxSet<Dataset> = model.get_corresponding(&set::<Contributor>(&[0]));
    assert_eq!(sorted(&ds), vec![0]);
    let routes: IdxSet<Route> = model.get_corresponding(&ds);
    assert_eq!(sorted(&routes), vec![0]);
    let modes: IdxSet<PhysicalMode> = model.get_corresponding(&ds);
    assert_eq!(sorted(&modes), vec![0, 1]);
    let sps: IdxSet<StopPoint> = model.get_corresponding(&ds);
    assert_eq!(sorted(&sps), vec![0, 1, 2]);
    let sa: IdxSet<StopArea> = model.get_corresponding(&set::<StopPoint>(&[3]));
    assert_eq!(sorted(&sa), vec![0]);
    let vjs: IdxSet<VehicleJourney> = model.get_corresponding(&set::<Company>(&[0]));
    assert_eq!(sorted(&vjs), vec![0, 1]);
    let cm: IdxSet<CommercialMode> = model.get_corresponding(&set::<Line>(&[0]));
    assert_eq!(sorted(&cm), vec![0]);
}

#[test]
fn into_collections_gives_back_the_bag() {
    let model = Model::new(fixture()).unwrap();
    assert_eq!(model.collections().stop_points.len(), 4);
    let mut c = model.into_collections();
    c.feed_infos.insert(s("foo"), s("bar"));
    assert_eq!(c.feed_infos.to_vec(), vec![(s("foo"), s("bar"))]);
    assert_eq!(c.routes.len(), 2);
}

#[test]
fn merge_collections() {
    let mut a = fixture();
    let mut b = Collections::default();
    b.stop_points = CollectionWithId::new(vec![stop_point("sp5")]).unwrap();
    a.feed_infos.insert(s("k"), s("old"));
    a.feed_infos.insert(s("kept"), s("x"));
    b.feed_infos.insert(s("k"), s("v"));
    assert_eq!(a.merge(b), Ok(()));
    assert_eq!(a.stop_points.len(), 5);
    assert_eq!(a.feed_infos.len(), 2);
    assert_eq!(a.feed_infos.get("k"), Some(&s("v")));
    assert_eq!(a.feed_infos.get("kept"), Some(&s("x")));
    let mut c = Collections::default();
    c.networks = CollectionWithId::new(vec![Network { id: s("net"), name: s("again") }]).unwrap();
    assert_eq!(a.merge(c), Err(Error::DuplicateId(s("net"))));
}

#[test]
fn merge_stops_at_first_clash_in_field_order() {
    let mut a = Collections::default();
    a.contributors = CollectionWithId::new(vec![Contributor { id: s("a"), name: s("first") }]).unwrap();
    let mut b = Collections::default();
    b.contributors = CollectionWithId::new(vec![Contributor { id: s("a"), name: s("second") }]).unwrap();
    b.networks = CollectionWithId::new(vec![Network { id: s("n"), name: s("n") }]).unwrap();
    assert_eq!(a.merge(b), Err(Error::DuplicateId(s("a"))));
    assert_eq!(a.contributors.len(), 1);
    assert_eq!(a.contributors.values()[0].name, "first");
    // Later collections are left as they were.
    assert_eq!(a.networks.len(), 0);
}

#[test]
fn transfer_error_comes_before_later_checks() {
    let mut c = fixture();
    c.transfers = Collection::new(vec![transfer("sp1", "gone")]);
    c.routes = CollectionWithId::new(vec![
        Route { id: s("route"), name: s("route"), direction_type: None, line_id: s("no_line") },
    ])
    .unwrap();
    assert_eq!(
        Model::new(c).err(),
        Some(Error::ReferentialIntegrity { relation: s("transfers_to_stop_points"), id: s("gone") })
    );
}
