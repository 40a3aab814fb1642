//! The entities of the transit model. Entities refer to one another by
//! identifier; the model resolves those references into relations.

use vstd::prelude::*;
use crate::collection::Id;
use crate::relations::GetId;

verus! {

/// A stop of a vehicle journey at a stop point. Times are in seconds after
/// the midnight that starts the service day.
#[derive(Debug, Clone, PartialEq, Eq)]
pub struct StopTime {
    pub stop_point_id: String,
    pub sequence: u32,
    pub arrival_time: u32,
    pub departure_time: u32,
    pub boarding_duration: u16,
    pub alighting_duration: u16,
    pub pickup_type: u8,
    pub drop_off_type: u8,
    pub datetime_estimated: bool,
    pub local_zone_id: Option<u16>,
}

/// Whether a service is offered, as far as the data tells.
#[derive(Debug, Clone, Copy, PartialEq, Eq, Structural, Hash)]
pub enum Availability {
    InformationNotAvailable,
    Available,
    NotAvailable,
}

/// Accessibility equipment of stops, shared by the stops that have the same.
#[derive(Debug, Clone, PartialEq, Eq)]
pub struct Equipment {
    pub id: String,
    pub wheelchair_boarding: Availability,
}

impl Id for Equipment {
    open spec fn spec_id(&self) -> Seq<char> {
        self.id@
    }

    fn id(&self) -> (r: &String) {
        &self.id
    }
}

/// Accessibility properties shared by vehicle journeys.
#[derive(Debug, Clone, PartialEq, Eq)]
pub struct TripProperty {
    pub id: String,
    pub wheelchair_accessible: Availability,
    pub bike_accepted: Availability,
}

impl Id for TripProperty {
    open spec fn spec_id(&self) -> Seq<char> {
        self.id@
    }

    fn id(&self) -> (r: &String) {
        &self.id
    }
}

/// A connection on foot between two stop points. Transfers carry no
/// identifier of their own.
#[derive(Debug, Clone, PartialEq, Eq)]
pub struct Transfer {
    pub from_stop_id: String,
    pub to_stop_id: String,
    pub min_transfer_time: Option<u32>,
    pub real_min_transfer_time: Option<u32>,
}

/// A source of data.
#[derive(Debug, Clone, PartialEq, Eq)]
pub struct Contributor {
    pub id: String,
    pub name: String,
}

impl Id for Contributor {
    open spec fn spec_id(&self) -> Seq<char> {
        self.id@
    }

    fn id(&self) -> (r: &String) {
        &self.id
    }
}

/// A set of data published by a contributor, valid over a period of days
/// given as day numbers.
#[derive(Debug, Clone, PartialEq, Eq)]
pub struct Dataset {
    pub id: String,
    pub contributor_id: String,
    pub start_date: u32,
    pub end_date: u32,
}

impl Id for Dataset {
    open spec fn spec_id(&self) -> Seq<char> {
        self.id@
    }

    fn id(&self) -> (r: &String) {
        &self.id
    }
}

/// A transport network, run by one agency.
#[derive(Debug, Clone, PartialEq, Eq)]
pub struct Network {
    pub id: String,
    pub name: String,
}

impl Id for Network {
    open spec fn spec_id(&self) -> Seq<char> {
        self.id@
    }

    fn id(&self) -> (r: &String) {
        &self.id
    }
}

/// A mode as presented to travellers (bus, tram, ...).
#[derive(Debug, Clone, PartialEq, Eq)]
pub struct CommercialMode {
    pub id: String,
    pub name: String,
}

impl Id for CommercialMode {
    open spec fn spec_id(&self) -> Seq<char> {
        self.id@
    }

    fn id(&self) -> (r: &String) {
        &self.id
    }
}

/// A commercial line of a network.
#[derive(Debug, Clone, PartialEq, Eq)]
pub struct Line {
    pub id: String,
    pub code: Option<String>,
    pub name: String,
    pub network_id: String,
    pub commercial_mode_id: String,
}

impl Id for Line {
    open spec fn spec_id(&self) -> Seq<char> {
        self.id@
    }

    fn id(&self) -> (r: &String) {
        &self.id
    }
}

/// One direction of a line.
#[derive(Debug, Clone, PartialEq, Eq)]
pub struct Route {
    pub id: String,
    pub name: String,
    pub direction_type: Option<String>,
    pub line_id: String,
}

impl Id for Route {
    open spec fn spec_id(&self) -> Seq<char> {
        self.id@
    }

    fn id(&self) -> (r: &String) {
        &self.id
    }
}

/// A trip of a vehicle along a route, stopping at stop points in order.
#[derive(Debug, Clone, PartialEq, Eq)]
pub struct VehicleJourney {
    pub id: String,
    pub route_id: String,
    pub physical_mode_id: String,
    pub dataset_id: String,
    pub company_id: String,
    pub service_id: String,
    pub headsign: Option<String>,
    pub trip_property_id: Option<String>,
    pub stop_times: Vec<StopTime>,
}

impl Id for VehicleJourney {
    open spec fn spec_id(&self) -> Seq<char> {
        self.id@
    }

    fn id(&self) -> (r: &String) {
        &self.id
    }
}

/// The kind of vehicle (bus, train, ...).
#[derive(Debug, Clone, PartialEq, Eq)]
pub struct PhysicalMode {
    pub id: String,
    pub name: String,
}

impl Id for PhysicalMode {
    open spec fn spec_id(&self) -> Seq<char> {
        self.id@
    }

    fn id(&self) -> (r: &String) {
        &self.id
    }
}

/// A group of stop points that travellers see as one stop, with its codes
/// in other systems as (system, code) pairs.
#[derive(Debug, Clone, PartialEq, Eq)]
pub struct StopArea {
    pub id: String,
    pub name: String,
    pub codes: Vec<(String, String)>,
    pub equipment_id: Option<String>,
}

impl Id for StopArea {
    open spec fn spec_id(&self) -> Seq<char> {
        self.id@
    }

    fn id(&self) -> (r: &String) {
        &self.id
    }
}

/// A place where vehicles stop, within a stop area, with its codes in
/// other systems as (system, code) pairs.
#[derive(Debug, Clone, PartialEq, Eq)]
pub struct StopPoint {
    pub id: String,
    pub name: String,
    pub stop_area_id: String,
    pub codes: Vec<(String, String)>,
    pub equipment_id: Option<String>,
}

impl Id for StopPoint {
    open spec fn spec_id(&self) -> Seq<char> {
        self.id@
    }

    fn id(&self) -> (r: &String) {
        &self.id
    }
}

/// A company that operates vehicle journeys.
#[derive(Debug, Clone, PartialEq, Eq)]
pub struct Company {
    pub id: String,
    pub name: String,
}

impl Id for Company {
    open spec fn spec_id(&self) -> Seq<char> {
        self.id@
    }

    fn id(&self) -> (r: &String) {
        &self.id
    }
}

/// A set of days on which services run, as day numbers.
#[derive(Debug, Clone, PartialEq, Eq)]
pub struct Calendar {
    pub id: String,
    pub dates: Vec<u32>,
}

impl Id for Calendar {
    open spec fn spec_id(&self) -> Seq<char> {
        self.id@
    }

    fn id(&self) -> (r: &String) {
        &self.id
    }
}

impl GetId<Contributor> for Dataset {
    open spec fn spec_fk(&self) -> Seq<char> {
        self.contributor_id@
    }

    fn get_id(&self) -> (r: &String) {
        &self.contributor_id
    }
}

impl GetId<Network> for Line {
    open spec fn spec_fk(&self) -> Seq<char> {
        self.network_id@
    }

    fn get_id(&self) -> (r: &String) {
        &self.network_id
    }
}

impl GetId<CommercialMode> for Line {
    open spec fn spec_fk(&self) -> Seq<char> {
        self.commercial_mode_id@
    }

    fn get_id(&self) -> (r: &String) {
        &self.commercial_mode_id
    }
}

impl GetId<Line> for Route {
    open spec fn spec_fk(&self) -> Seq<char> {
        self.line_id@
    }

    fn get_id(&self) -> (r: &String) {
        &self.line_id
    }
}

impl GetId<Route> for VehicleJourney {
    open spec fn spec_fk(&self) -> Seq<char> {
        self.route_id@
    }

    fn get_id(&self) -> (r: &String) {
        &self.route_id
    }
}

impl GetId<PhysicalMode> for VehicleJourney {
    open spec fn spec_fk(&self) -> Seq<char> {
        self.physical_mode_id@
    }

    fn get_id(&self) -> (r: &String) {
        &self.physical_mode_id
    }
}

impl GetId<Dataset> for VehicleJourney {
    open spec fn spec_fk(&self) -> Seq<char> {
        self.dataset_id@
    }

    fn get_id(&self) -> (r: &String) {
        &self.dataset_id
    }
}

impl GetId<Company> for VehicleJourney {
    open spec fn spec_fk(&self) -> Seq<char> {
        self.company_id@
    }

    fn get_id(&self) -> (r: &String) {
        &self.company_id
    }
}

impl GetId<StopArea> for StopPoint {
    open spec fn spec_fk(&self) -> Seq<char> {
        self.stop_area_id@
    }

    fn get_id(&self) -> (r: &String) {
        &self.stop_area_id
    }
}

/// A stop point of an administrative area's own referential.
#[derive(Debug, Clone, PartialEq, Eq)]
pub struct AdminStation {
    pub admin_id: String,
    pub admin_name: String,
    pub stop_id: String,
}

/// A free-text comment attached to entities.
#[derive(Debug, Clone, PartialEq, Eq)]
pub struct Comment {
    pub id: String,
    pub name: String,
}

impl Id for Comment {
    open spec fn spec_id(&self) -> Seq<char> {
        self.id@
    }

    fn id(&self) -> (r: &String) {
        &self.id
    }
}

} // verus!
