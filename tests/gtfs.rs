use navitia_model::collection::CollectionWithId;
use navitia_model::error::Error;
use navitia_model::gtfs::{
    default_agency_id, get_agency_id, get_commercial_mode, get_commercial_mode_label, get_physical_mode,
    DirectionType, Route, RouteType,
};
use navitia_model::objects::Network;

fn route(id: &str, agency: Option<&str>, short: &str, long: &str) -> Route {
    Route {
        id: id.to_string(),
        agency_id: agency.map(|a| a.to_string()),
        short_name: short.to_string(),
        long_name: long.to_string(),
        route_type: RouteType::Bus,
    }
}

fn network(id: &str) -> Network {
    Network { id: id.to_string(), name: id.to_string() }
}

#[test]
fn default_agency_identifier() {
    assert_eq!(default_agency_id(), "default_agency_id");
}

#[test]
fn route_type_codes() {
    assert_eq!(RouteType::Tramway_LightRail.to_gtfs_value(), "0");
    assert_eq!(RouteType::Metro.to_gtfs_value(), "1");
    assert_eq!(RouteType::Rail.to_gtfs_value(), "2");
    assert_eq!(RouteType::Bus.to_gtfs_value(), "3");
    assert_eq!(RouteType::Ferry.to_gtfs_value(), "4");
    assert_eq!(RouteType::CableCar.to_gtfs_value(), "5");
    assert_eq!(RouteType::Gondola_SuspendedCableCar.to_gtfs_value(), "6");
    assert_eq!(RouteType::Funicular.to_gtfs_value(), "7");
    assert_eq!(RouteType::Other(99).to_gtfs_value(), "99");
    assert_eq!(RouteType::Other(1200).to_gtfs_value(), "1200");
    assert_eq!(RouteType::Other(65535).to_gtfs_value(), "65535");
}

#[test]
fn route_type_from_code() {
    assert_eq!(RouteType::from_code(0), RouteType::Tramway_LightRail);
    assert_eq!(RouteType::from_code(3), RouteType::Bus);
    assert_eq!(RouteType::from_code(7), RouteType::Funicular);
    // Codes between 8 and 98 fall back to bus.
    assert_eq!(RouteType::from_code(8), RouteType::Bus);
    assert_eq!(RouteType::from_code(98), RouteType::Bus);
    assert_eq!(RouteType::from_code(99), RouteType::Other(99));
    assert_eq!(RouteType::from_code(700), RouteType::Other(700));
}

#[test]
fn commercial_modes() {
    assert_eq!(get_commercial_mode_label(&RouteType::Tramway_LightRail), "Tram, Streetcar, Light rail");
    assert_eq!(get_commercial_mode_label(&RouteType::Gondola_SuspendedCableCar), "Gondola, Suspended cable car");
    assert_eq!(get_commercial_mode_label(&RouteType::Other(200)), "Unknown Mode");
    let m = get_commercial_mode(&RouteType::Rail);
    assert_eq!(m.id, "2");
    assert_eq!(m.name, "Rail");
}

#[test]
fn cable_modes_share_funicular_physical_mode() {
    // Cable car, gondola and funicular share one physical mode; rail is train.
    for t in [RouteType::CableCar, RouteType::Gondola_SuspendedCableCar, RouteType::Funicular] {
        let m = get_physical_mode(&t);
        assert_eq!(m.id, "Funicular");
        assert_eq!(m.name, "Funicular");
    }
    assert_eq!(get_physical_mode(&RouteType::Rail).id, "Train");
    let shuttle = get_physical_mode(&RouteType::Tramway_LightRail);
    assert_eq!(shuttle.id, "RailShuttle");
    assert_eq!(shuttle.name, "Rail Shuttle");
    assert_eq!(get_physical_mode(&RouteType::Other(1500)).id, "Bus");
}

#[test]
fn line_key_and_direction_ids() {
    let r = route("route_1", Some("agency_1"), "1", "long 1");
    assert_eq!(r.get_line_key(), (Some("agency_1".to_string()), "1".to_string()));
    let r2 = route("route_2", None, "", "long 2");
    assert_eq!(r2.get_line_key(), (None, "long 2".to_string()));
    assert_eq!(r.get_id_by_direction(&DirectionType::Forward), "route_1");
    assert_eq!(r.get_id_by_direction(&DirectionType::Backward), "route_1_R");
}

#[test]
fn agency_id_given_by_route() {
    let networks = CollectionWithId::new(vec![network("n1"), network("n2")]).unwrap();
    let r = route("route_1", Some("agency_1"), "1", "");
    assert_eq!(get_agency_id(&r, &networks), Ok("agency_1".to_string()));
}

#[test]
fn agency_id_from_single_network() {
    let networks = CollectionWithId::new(vec![network("id_agency")]).unwrap();
    let r = route("route_1", None, "1", "");
    assert_eq!(get_agency_id(&r, &networks), Ok("id_agency".to_string()));
}

#[test]
fn agency_id_with_two_networks() {
    let networks = CollectionWithId::new(vec![network("n1"), network("n2")]).unwrap();
    let r = route("route_1", None, "1", "");
    assert_eq!(
        get_agency_id(&r, &networks),
        Err(Error::AmbiguousForeignKey { relation: "agency_id".to_string(), candidates: 2 })
    );
}

#[test]
fn agency_id_without_network() {
    let networks: CollectionWithId<Network> = CollectionWithId::empty();
    let r = route("route_1", None, "1", "");
    assert_eq!(
        get_agency_id(&r, &networks),
        Err(Error::AmbiguousForeignKey { relation: "agency_id".to_string(), candidates: 0 })
    );
}
