use navitia_model::error::Error;
use navitia_model::collection::CollectionWithId;
use navitia_model::gtfs::{read_config, read_stops, read_transfers, EquipmentList, Stop, StopLocationType, TransferRecord, TransferType};
use navitia_model::objects::{Availability, Contributor, StopPoint};

fn stop(id: &str, name: &str, code: Option<&str>, parent: Option<&str>, location_type: StopLocationType) -> Stop {
    Stop {
        id: id.to_string(),
        name: name.to_string(),
        code: code.map(|c| c.to_string()),
        parent_station: parent.map(|p| p.to_string()),
        location_type,
        wheelchair_boarding: Availability::InformationNotAvailable,
    }
}

#[test]
fn load_one_stop_point() {
    let stops = vec![stop("id1", "my stop name", None, None, StopLocationType::StopPoint)];
    let (stop_areas, stop_points) = read_stops(&stops, &mut EquipmentList::new()).unwrap();
    assert_eq!(1, stop_areas.len());
    assert_eq!(1, stop_points.len());
    assert_eq!("Navitia:id1", stop_areas.iter()[0].1.id);
    assert_eq!("my stop name", stop_areas.iter()[0].1.name);
    assert_eq!("Navitia:id1", stop_points.iter()[0].1.stop_area_id);
}

#[test]
fn stop_code_on_stops() {
    let stops = vec![
        stop("stoppoint_id", "my stop name", Some("1234"), Some("stop_area_id"), StopLocationType::StopPoint),
        stop("stoparea_id", "stop area name", Some("5678"), None, StopLocationType::StopArea),
    ];
    let (stop_areas, stop_points) = read_stops(&stops, &mut EquipmentList::new()).unwrap();
    assert_eq!(1, stop_points.len());
    let stop_point = stop_points.iter()[0].1;
    assert_eq!(stop_point.codes, vec![("gtfs_stop_code".to_string(), "1234".to_string())]);
    assert_eq!(stop_point.stop_area_id, "stop_area_id");
    assert_eq!(1, stop_areas.len());
    let stop_area = stop_areas.iter()[0].1;
    assert_eq!(stop_area.codes, vec![("gtfs_stop_code".to_string(), "5678".to_string())]);
}

#[test]
fn no_stop_code_on_autogenerated_stoparea() {
    let stops = vec![stop("stoppoint_id", "my stop name", Some("1234"), None, StopLocationType::StopPoint)];
    let (stop_areas, _) = read_stops(&stops, &mut EquipmentList::new()).unwrap();
    assert_eq!(1, stop_areas.len());
    assert_eq!(0, stop_areas.iter()[0].1.codes.len());
}

#[test]
fn location_type_default_value() {
    let stops = vec![stop("stop:1", "Tornio pouet", None, None, StopLocationType::StopPoint)];
    let (stop_areas, stop_points) = read_stops(&stops, &mut EquipmentList::new()).unwrap();
    assert_eq!(1, stop_points.len());
    assert_eq!(1, stop_areas.len());
    assert_eq!("Navitia:stop:1", stop_areas.iter()[0].1.id);
    assert_eq!("stop:1", stop_points.iter()[0].1.id);
}

#[test]
fn entrances_are_skipped() {
    let stops = vec![
        stop("e1", "entrance", None, Some("sa"), StopLocationType::StopEntrance),
        stop("sa", "area", None, None, StopLocationType::StopArea),
    ];
    let (stop_areas, stop_points) = read_stops(&stops, &mut EquipmentList::new()).unwrap();
    assert_eq!(1, stop_areas.len());
    assert_eq!(0, stop_points.len());
}

#[test]
fn generated_area_clashing_with_a_stop_area() {
    let stops = vec![
        stop("Navitia:p", "area", None, None, StopLocationType::StopArea),
        stop("p", "point", None, None, StopLocationType::StopPoint),
    ];
    assert_eq!(read_stops(&stops, &mut EquipmentList::new()).err(), Some(Error::DuplicateId("Navitia:p".to_string())));
}

#[test]
fn stops_generates_equipments() {
    let mut stops = vec![
        stop("sp:01", "one", None, Some("sa:01"), StopLocationType::StopPoint),
        stop("sa:01", "area", None, None, StopLocationType::StopArea),
        stop("sp:02", "two", None, Some("sa:01"), StopLocationType::StopPoint),
        stop("sp:03", "three", None, Some("sa:01"), StopLocationType::StopPoint),
    ];
    stops[0].wheelchair_boarding = Availability::Available;
    stops[1].wheelchair_boarding = Availability::NotAvailable;
    stops[2].wheelchair_boarding = Availability::Available;
    let mut equipments = EquipmentList::new();
    let (stop_areas, stop_points) = read_stops(&stops, &mut equipments).unwrap();
    assert_eq!(stop_points.get("sp:01").unwrap().equipment_id, Some("0".to_string()));
    assert_eq!(stop_areas.get("sa:01").unwrap().equipment_id, Some("1".to_string()));
    assert_eq!(stop_points.get("sp:02").unwrap().equipment_id, Some("0".to_string()));
    assert_eq!(stop_points.get("sp:03").unwrap().equipment_id, None);
    let eqs = equipments.into_equipments();
    assert_eq!(eqs.len(), 2);
    assert_eq!(eqs[0].id, "0");
    assert_eq!(eqs[0].wheelchair_boarding, Availability::Available);
    assert_eq!(eqs[1].id, "1");
    assert_eq!(eqs[1].wheelchair_boarding, Availability::NotAvailable);
}

#[test]
fn stops_do_not_generate_duplicate_equipments() {
    let mut stops = vec![
        stop("sp:01", "one", None, Some("sa"), StopLocationType::StopPoint),
        stop("sp:02", "two", None, Some("sa"), StopLocationType::StopPoint),
    ];
    stops[0].wheelchair_boarding = Availability::Available;
    stops[1].wheelchair_boarding = Availability::Available;
    let mut equipments = EquipmentList::new();
    let (_, stop_points) = read_stops(&stops, &mut equipments).unwrap();
    assert_eq!(stop_points.get("sp:01").unwrap().equipment_id, Some("0".to_string()));
    assert_eq!(stop_points.get("sp:02").unwrap().equipment_id, Some("0".to_string()));
    assert_eq!(equipments.into_equipments().len(), 1);
}

fn transfer(from: &str, to: &str, transfer_type: TransferType, min: Option<u32>) -> TransferRecord {
    TransferRecord { from_stop_id: from.to_string(), to_stop_id: to.to_string(), transfer_type, min_transfer_time: min }
}

#[test]
fn read_tranfers() {
    let sp = |id: &str| StopPoint {
        id: id.to_string(),
        name: id.to_string(),
        stop_area_id: "sa".to_string(),
        codes: vec![],
        equipment_id: None,
    };
    let stop_points = CollectionWithId::new(vec![sp("sp:01"), sp("sp:02"), sp("sp:03")]).unwrap();
    let records = vec![
        transfer("sp:01", "sp:01", TransferType::Timed, None),
        transfer("sp:01", "sp:02", TransferType::Recommended, None),
        transfer("sp:01", "sp:03", TransferType::WithTransferTime, Some(60)),
        transfer("sp:02", "sp:01", TransferType::Recommended, None),
        transfer("sp:02", "sp:02", TransferType::Timed, None),
        transfer("sp:02", "sp:03", TransferType::NotPossible, None),
        transfer("sp:03", "sp:01", TransferType::Recommended, None),
        transfer("sp:03", "sp:02", TransferType::WithTransferTime, None),
        transfer("sp:03", "sp:03", TransferType::Recommended, None),
        transfer("sp:03", "sp:99", TransferType::Timed, None),
    ];
    let walking = vec![0, 160, 0, 160, 0, 0, 247, 0, 0, 0];
    let transfers = read_transfers(&records, &walking, &stop_points).into_vec();
    let got: Vec<(String, String, Option<u32>, Option<u32>)> = transfers
        .iter()
        .map(|t| (t.from_stop_id.clone(), t.to_stop_id.clone(), t.min_transfer_time, t.real_min_transfer_time))
        .collect();
    let e = |f: &str, t: &str, a: Option<u32>, b: Option<u32>| (f.to_string(), t.to_string(), a, b);
    assert_eq!(
        got,
        vec![
            e("sp:01", "sp:01", Some(0), Some(0)),
            e("sp:01", "sp:02", Some(160), Some(280)),
            e("sp:01", "sp:03", Some(60), Some(60)),
            e("sp:02", "sp:01", Some(160), Some(280)),
            e("sp:02", "sp:02", Some(0), Some(0)),
            e("sp:02", "sp:03", Some(86400), Some(86400)),
            e("sp:03", "sp:01", Some(247), Some(367)),
            e("sp:03", "sp:02", None, None),
            e("sp:03", "sp:03", Some(0), Some(120)),
        ]
    );
}

#[test]
fn default_config() {
    let (contributors, datasets) = read_config(None);
    assert_eq!(contributors.values()[0].id, "default_contributor");
    assert_eq!(datasets.values()[0].id, "default_dataset");
    assert_eq!(datasets.values()[0].contributor_id, "default_contributor");
    let c = Contributor { id: "c".to_string(), name: "C".to_string() };
    let (contributors, datasets) = read_config(Some((c.clone(), "d".to_string())));
    assert_eq!(contributors.values()[0], c);
    assert_eq!(datasets.values()[0].id, "d");
    assert_eq!(datasets.values()[0].contributor_id, "c");
}
