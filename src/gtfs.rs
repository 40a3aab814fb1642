//! Import of GTFS records into model entities: agencies into networks and
//! companies, stops into stop areas and points, routes and trips into
//! modes, lines, routes and vehicle journeys, and stop times into the
//! vehicle journeys. Reading the files is left to the caller.

use vstd::prelude::*;
use vstd::multiset::Multiset;
use vstd::string::StringExecFns;
use vstd::utf8::{encode_utf8, encode_utf8_decode_utf8};
use crate::collection::{ids_of, position_of, reversed, Collection, CollectionWithId, Id};
use crate::model::Collections;
use crate::error::Error;
use crate::objects;
use crate::objects::{
    Availability, Calendar, CommercialMode, Company, Contributor, Dataset, Equipment, Line, Network, PhysicalMode, StopArea, StopPoint,
    Transfer, TripProperty, VehicleJourney,
};

verus! {

/// The decimal digit for `d`.
pub open spec fn digit_char(d: nat) -> char {
    if d == 0 { '0' } else if d == 1 { '1' } else if d == 2 { '2' } else if d == 3 { '3' }
    else if d == 4 { '4' } else if d == 5 { '5' } else if d == 6 { '6' } else if d == 7 { '7' }
    else if d == 8 { '8' } else { '9' }
}

/// The decimal writing of `n`, without leading zeros.
pub open spec fn decimal(n: nat) -> Seq<char>
    decreases n,
{
    if n < 10 {
        seq![digit_char(n)]
    } else {
        decimal(n / 10) + seq![digit_char(n % 10)]
    }
}

/// The one-character string of the decimal digit `d`.
fn digit_str(d: u16) -> (r: &'static str)
    requires
        d < 10,
    ensures
        r@ == seq![digit_char(d as nat)],
{
    proof {
        reveal_strlit("0");
        reveal_strlit("1");
        reveal_strlit("2");
        reveal_strlit("3");
        reveal_strlit("4");
        reveal_strlit("5");
        reveal_strlit("6");
        reveal_strlit("7");
        reveal_strlit("8");
        reveal_strlit("9");
    }
    match d {
        0 => "0",
        1 => "1",
        2 => "2",
        3 => "3",
        4 => "4",
        5 => "5",
        6 => "6",
        7 => "7",
        8 => "8",
        _ => "9",
    }
}

/// Appends the decimal writing of `n` to `s`.
fn append_decimal(s: &mut String, n: u64)
    ensures
        final(s)@ == old(s)@ + decimal(n as nat),
    decreases n,
{
    if n >= 10 {
        append_decimal(s, n / 10);
        s.append(digit_str((n % 10) as u16));
        proof {
            assert(final(s)@ =~= old(s)@ + decimal(n as nat)) by {
                assert(decimal(n as nat) == decimal((n / 10) as nat) + seq![digit_char((n % 10) as nat)]);
            }
        }
    } else {
        s.append(digit_str(n as u16));
    }
}

/// The decimal writing of `n`.
fn decimal_string(n: u64) -> (r: String)
    ensures
        r@ == decimal(n as nat),
{
    let mut s = String::new();
    append_decimal(&mut s, n);
    proof {
        assert(s@ =~= decimal(n as nat));
    }
    s
}

/// A decimal writing is never empty.
proof fn lemma_decimal_nonempty(n: nat)
    ensures
        decimal(n).len() >= 1,
    decreases n,
{
    if n >= 10 {
        lemma_decimal_nonempty(n / 10);
    }
}

/// Distinct numbers have distinct decimal writings.
pub proof fn lemma_decimal_injective(a: nat, b: nat)
    requires
        decimal(a) == decimal(b),
    ensures
        a == b,
    decreases a,
{
    if a < 10 && b < 10 {
        assert(decimal(a) == seq![digit_char(a)]);
        assert(decimal(b) == seq![digit_char(b)]);
        assert(seq![digit_char(a)][0] == digit_char(a));
        assert(seq![digit_char(b)][0] == digit_char(b));
        assert(decimal(a)[0] == decimal(b)[0]);
    } else if a < 10 {
        lemma_decimal_nonempty(b / 10);
        assert(decimal(b).len() >= 2);
    } else if b < 10 {
        lemma_decimal_nonempty(a / 10);
        assert(decimal(a).len() >= 2);
    } else {
        let da = decimal(a);
        let db = decimal(b);
        assert(da[da.len() - 1] == digit_char(a % 10));
        assert(db[db.len() - 1] == digit_char(b % 10));
        assert(a % 10 == b % 10);
        assert(decimal(a / 10) =~= da.drop_last());
        assert(decimal(b / 10) =~= db.drop_last());
        lemma_decimal_injective(a / 10, b / 10);
        assert(a == 10 * (a / 10) + a % 10);
        assert(b == 10 * (b / 10) + b % 10);
    }
}

/// The identifier given to the network of a feed that names no agency.
pub fn default_agency_id() -> (r: String)
    ensures
        r@ == "default_agency_id"@,
{
    "default_agency_id".to_owned()
}

/// The kind of transport of a GTFS route.
#[allow(non_camel_case_types)]
#[derive(Debug, Clone, Copy, PartialEq, Eq, Structural, Hash)]
pub enum RouteType {
    Tramway_LightRail,
    Metro,
    Rail,
    Bus,
    Ferry,
    CableCar,
    Gondola_SuspendedCableCar,
    Funicular,
    Other(u16),
}

/// The GTFS code of a route type.
pub open spec fn gtfs_value(t: RouteType) -> Seq<char> {
    match t {
        RouteType::Tramway_LightRail => "0"@,
        RouteType::Metro => "1"@,
        RouteType::Rail => "2"@,
        RouteType::Bus => "3"@,
        RouteType::Ferry => "4"@,
        RouteType::CableCar => "5"@,
        RouteType::Gondola_SuspendedCableCar => "6"@,
        RouteType::Funicular => "7"@,
        RouteType::Other(i) => decimal(i as nat),
    }
}

/// The route type read from GTFS code `i`; codes between 8 and 98 are not
/// valid and fall back to bus.
pub open spec fn route_type_of(i: u16) -> RouteType {
    if i == 0 { RouteType::Tramway_LightRail }
    else if i == 1 { RouteType::Metro }
    else if i == 2 { RouteType::Rail }
    else if i == 3 || (8 <= i < 99) { RouteType::Bus }
    else if i == 4 { RouteType::Ferry }
    else if i == 5 { RouteType::CableCar }
    else if i == 6 { RouteType::Gondola_SuspendedCableCar }
    else if i == 7 { RouteType::Funicular }
    else { RouteType::Other(i) }
}

impl RouteType {
    /// The route type for GTFS code `i`.
    pub fn from_code(i: u16) -> (r: RouteType)
        ensures
            r == route_type_of(i),
    {
        let i = if i > 7 && i < 99 { 3 } else { i };
        match i {
            0 => RouteType::Tramway_LightRail,
            1 => RouteType::Metro,
            2 => RouteType::Rail,
            3 => RouteType::Bus,
            4 => RouteType::Ferry,
            5 => RouteType::CableCar,
            6 => RouteType::Gondola_SuspendedCableCar,
            7 => RouteType::Funicular,
            _ => RouteType::Other(i),
        }
    }

    /// The GTFS code of this route type.
    pub fn to_gtfs_value(&self) -> (r: String)
        ensures
            r@ == gtfs_value(*self),
    {
        match *self {
            RouteType::Tramway_LightRail => "0".to_owned(),
            RouteType::Metro => "1".to_owned(),
            RouteType::Rail => "2".to_owned(),
            RouteType::Bus => "3".to_owned(),
            RouteType::Ferry => "4".to_owned(),
            RouteType::CableCar => "5".to_owned(),
            RouteType::Gondola_SuspendedCableCar => "6".to_owned(),
            RouteType::Funicular => "7".to_owned(),
            RouteType::Other(i) => {
                decimal_string(i as u64)
            },
        }
    }
}

/// The label of the commercial mode of a route type.
pub open spec fn commercial_mode_label(t: RouteType) -> Seq<char> {
    match t {
        RouteType::Tramway_LightRail => "Tram, Streetcar, Light rail"@,
        RouteType::Metro => "Subway, Metro"@,
        RouteType::Rail => "Rail"@,
        RouteType::Bus => "Bus"@,
        RouteType::Ferry => "Ferry"@,
        RouteType::CableCar => "Cable car"@,
        RouteType::Gondola_SuspendedCableCar => "Gondola, Suspended cable car"@,
        RouteType::Funicular => "Funicular"@,
        RouteType::Other(_) => "Unknown Mode"@,
    }
}

/// The identifier of the physical mode of a route type.
pub open spec fn physical_mode_id(t: RouteType) -> Seq<char> {
    match t {
        RouteType::Tramway_LightRail => "RailShuttle"@,
        RouteType::Metro => "Metro"@,
        RouteType::Rail => "Train"@,
        RouteType::Ferry => "Ferry"@,
        RouteType::CableCar | RouteType::Gondola_SuspendedCableCar | RouteType::Funicular => "Funicular"@,
        RouteType::Bus | RouteType::Other(_) => "Bus"@,
    }
}

/// The name of the physical mode of a route type.
pub open spec fn physical_mode_name(t: RouteType) -> Seq<char> {
    match t {
        RouteType::Tramway_LightRail => "Rail Shuttle"@,
        _ => physical_mode_id(t),
    }
}

/// The label of the commercial mode of `route_type`.
pub fn get_commercial_mode_label(route_type: &RouteType) -> (r: String)
    ensures
        r@ == commercial_mode_label(*route_type),
{
    let label = match *route_type {
        RouteType::Tramway_LightRail => "Tram, Streetcar, Light rail",
        RouteType::Metro => "Subway, Metro",
        RouteType::Rail => "Rail",
        RouteType::Bus => "Bus",
        RouteType::Ferry => "Ferry",
        RouteType::CableCar => "Cable car",
        RouteType::Gondola_SuspendedCableCar => "Gondola, Suspended cable car",
        RouteType::Funicular => "Funicular",
        RouteType::Other(_) => "Unknown Mode",
    };
    label.to_owned()
}

/// The commercial mode of `route_type`, identified by its GTFS code.
pub fn get_commercial_mode(route_type: &RouteType) -> (r: CommercialMode)
    ensures
        r.id@ == gtfs_value(*route_type),
        r.name@ == commercial_mode_label(*route_type),
{
    CommercialMode { id: route_type.to_gtfs_value(), name: get_commercial_mode_label(route_type) }
}

/// The physical mode of `route_type`.
pub fn get_physical_mode(route_type: &RouteType) -> (r: PhysicalMode)
    ensures
        r.id@ == physical_mode_id(*route_type),
        r.name@ == physical_mode_name(*route_type),
{
    let (id, name) = match *route_type {
        RouteType::Tramway_LightRail => ("RailShuttle", "Rail Shuttle"),
        RouteType::Metro => ("Metro", "Metro"),
        RouteType::Rail => ("Train", "Train"),
        RouteType::Ferry => ("Ferry", "Ferry"),
        RouteType::CableCar | RouteType::Gondola_SuspendedCableCar | RouteType::Funicular => ("Funicular", "Funicular"),
        RouteType::Bus | RouteType::Other(_) => ("Bus", "Bus"),
    };
    PhysicalMode { id: id.to_owned(), name: name.to_owned() }
}

/// Direction of a trip along its route.
#[derive(Debug, Clone, Copy, PartialEq, Eq, Hash)]
pub enum DirectionType {
    Forward,
    Backward,
}

/// A route record of a GTFS feed.
#[derive(Debug, Clone, PartialEq, Eq)]
pub struct Route {
    pub id: String,
    pub agency_id: Option<String>,
    pub short_name: String,
    pub long_name: String,
    pub route_type: RouteType,
}

impl Id for Route {
    open spec fn spec_id(&self) -> Seq<char> {
        self.id@
    }

    fn id(&self) -> (r: &String) {
        &self.id
    }
}

/// The name under which a route is grouped into a line: its short name, or
/// its long name when the short one is empty.
pub open spec fn line_name(r: Route) -> Seq<char> {
    if r.short_name@.len() == 0 { r.long_name@ } else { r.short_name@ }
}

/// The identifier of the model route for direction `d` of GTFS route `r`.
pub open spec fn id_by_direction(r: Route, d: DirectionType) -> Seq<char> {
    match d {
        DirectionType::Forward => r.id@,
        DirectionType::Backward => r.id@ + "_R"@,
    }
}

/// Clones an optional string.
fn clone_opt(o: &Option<String>) -> (r: Option<String>)
    ensures
        r.is_some() == o.is_some(),
        r.is_some() ==> r.unwrap()@ == o.unwrap()@,
{
    match o {
        Some(s) => Some(s.clone()),
        None => None,
    }
}

impl Route {
    /// The key that groups routes into lines: the agency and the line name.
    pub fn get_line_key(&self) -> (r: (Option<String>, String))
        ensures
            r.0.is_some() == self.agency_id.is_some(),
            r.0.is_some() ==> r.0.unwrap()@ == self.agency_id.unwrap()@,
            r.1@ == line_name(*self),
    {
        let name = if self.short_name.as_str().is_empty() {
            self.long_name.clone()
        } else {
            self.short_name.clone()
        };
        (clone_opt(&self.agency_id), name)
    }

    /// The identifier of the model route for direction `d`: the GTFS
    /// identifier, suffixed with `_R` for the backward direction.
    pub fn get_id_by_direction(&self, d: &DirectionType) -> (r: String)
        ensures
            r@ == id_by_direction(*self, *d),
    {
        let id = self.id.clone();
        match *d {
            DirectionType::Forward => id,
            DirectionType::Backward => id.concat("_R"),
        }
    }
}

/// The network of `route`: the agency it names, or, when it names none, the
/// one network of the feed. With no network or several, the agency cannot be
/// chosen and the route is rejected.
pub fn get_agency_id(route: &Route, networks: &CollectionWithId<Network>) -> (r: Result<String, Error>)
    ensures
        route.agency_id matches Some(a) ==> r matches Ok(s) && s@ == a@,
        route.agency_id is None && networks@.len() == 1 ==> (r matches Ok(s) && s@ == networks@[0].id@),
        route.agency_id is None && networks@.len() != 1 ==> (r matches Err(e)
            && e.is_ambiguous("agency_id"@, networks@.len())),
{
    match &route.agency_id {
        Some(a) => Ok(a.clone()),
        None => {
            let n = networks.len();
            if n == 1 {
                Ok(networks.values()[0].id.clone())
            } else {
                Err(Error::AmbiguousForeignKey { relation: "agency_id".to_owned(), candidates: n })
            }
        },
    }
}

/// `a` comes strictly before `b` in lexicographic order.
pub open spec fn bytes_less(a: Seq<u8>, b: Seq<u8>) -> bool {
    exists|i: int| {
        &&& 0 <= i <= a.len()
        &&& i <= b.len()
        &&& a.take(i) == b.take(i)
        &&& (i == a.len() < b.len() || (i < a.len() && i < b.len() && a[i] < b[i]))
    }
}

/// Identifier `a` sorts strictly before identifier `b`, comparing their
/// UTF-8 encodings byte by byte, as strings are ordered.
pub open spec fn id_before(a: Seq<char>, b: Seq<char>) -> bool {
    bytes_less(encode_utf8(a), encode_utf8(b))
}

/// Two distinct byte sequences are ordered one way or the other.
proof fn lemma_bytes_less_total(a: Seq<u8>, b: Seq<u8>)
    requires
        a != b,
    ensures
        bytes_less(a, b) || bytes_less(b, a),
    decreases a.len(),
{
    if a.len() == 0 || b.len() == 0 {
        assert(a.take(0) =~= b.take(0));
        if a.len() == 0 {
            assert(b.len() > 0) by {
                if b.len() == 0 {
                    assert(a =~= b);
                }
            }
        }
    } else if a[0] != b[0] {
        assert(a.take(0) =~= b.take(0));
    } else {
        let a1 = a.drop_first();
        let b1 = b.drop_first();
        assert(a1 != b1) by {
            if a1 == b1 {
                assert(a.len() == b.len());
                assert(a =~= b) by {
                    assert forall|k: int| 0 <= k < a.len() implies a[k] == b[k] by {
                        if k > 0 {
                            assert(a1[k - 1] == a[k]);
                            assert(b1[k - 1] == b[k]);
                        }
                    }
                }
            }
        }
        lemma_bytes_less_total(a1, b1);
        if bytes_less(a1, b1) {
            let i = choose|i: int| 0 <= i <= a1.len() && i <= b1.len() && a1.take(i) == b1.take(i)
                && (i == a1.len() < b1.len() || (i < a1.len() && i < b1.len() && a1[i] < b1[i]));
            assert(a.take(i + 1) =~= b.take(i + 1)) by {
                assert forall|k: int| 0 <= k < i + 1 implies a[k] == b[k] by {
                    if k > 0 {
                        assert(a1.take(i)[k - 1] == b1.take(i)[k - 1]);
                    }
                }
            }
            if i < a1.len() {
                assert(a[i + 1] == a1[i]);
            }
        } else {
            let i = choose|i: int| 0 <= i <= b1.len() && i <= a1.len() && b1.take(i) == a1.take(i)
                && (i == b1.len() < a1.len() || (i < b1.len() && i < a1.len() && b1[i] < a1[i]));
            assert(b.take(i + 1) =~= a.take(i + 1)) by {
                assert forall|k: int| 0 <= k < i + 1 implies a[k] == b[k] by {
                    if k > 0 {
                        assert(a1.take(i)[k - 1] == b1.take(i)[k - 1]);
                    }
                }
            }
            if i < b1.len() {
                assert(b[i + 1] == b1[i]);
            }
        }
    }
}

/// The order of byte sequences is transitive.
proof fn lemma_bytes_less_transitive(a: Seq<u8>, b: Seq<u8>, c: Seq<u8>)
    requires
        bytes_less(a, b),
        bytes_less(b, c),
    ensures
        bytes_less(a, c),
{
    let i = choose|i: int| 0 <= i <= a.len() && i <= b.len() && a.take(i) == b.take(i)
        && (i == a.len() < b.len() || (i < a.len() && i < b.len() && a[i] < b[i]));
    let j = choose|j: int| 0 <= j <= b.len() && j <= c.len() && b.take(j) == c.take(j)
        && (j == b.len() < c.len() || (j < b.len() && j < c.len() && b[j] < c[j]));
    let m = if i < j { i } else { j };
    assert(a.take(m) =~= c.take(m)) by {
        assert forall|k: int| 0 <= k < m implies a[k] == c[k] by {
            assert(a.take(i)[k] == b.take(i)[k]);
            assert(b.take(j)[k] == c.take(j)[k]);
        }
    }
    if i < j {
        assert(b.take(j)[i] == c.take(j)[i]);
    } else if j < i {
        assert(a.take(i)[j] == b.take(i)[j]);
    }
}

/// Distinct identifiers are ordered one way or the other.
pub proof fn lemma_id_before_total(a: Seq<char>, b: Seq<char>)
    requires
        a != b,
    ensures
        id_before(a, b) || id_before(b, a),
{
    encode_utf8_decode_utf8(a);
    encode_utf8_decode_utf8(b);
    lemma_bytes_less_total(encode_utf8(a), encode_utf8(b));
}

/// The order of identifiers is transitive.
pub proof fn lemma_id_before_transitive(a: Seq<char>, b: Seq<char>, c: Seq<char>)
    requires
        id_before(a, b),
        id_before(b, c),
    ensures
        id_before(a, c),
{
    lemma_bytes_less_transitive(encode_utf8(a), encode_utf8(b), encode_utf8(c));
}

/// Whether `a` sorts strictly before `b`.
pub fn id_less(a: &String, b: &String) -> (r: bool)
    ensures
        r == id_before(a@, b@),
{
    let x = a.as_str().as_bytes();
    let y = b.as_str().as_bytes();
    let ghost xs = x@;
    let ghost ys = y@;
    let mut i: usize = 0;
    while i < x.len() && i < y.len() && x[i] == y[i]
        invariant
            i <= xs.len(),
            i <= ys.len(),
            xs == x@,
            ys == y@,
            xs.take(i as int) == ys.take(i as int),
        decreases xs.len() - i,
    {
        proof {
            assert(xs.take(i + 1) =~= xs.take(i as int).push(xs[i as int]));
            assert(ys.take(i + 1) =~= ys.take(i as int).push(ys[i as int]));
        }
        i = i + 1;
    }
    let r = if i < x.len() && i < y.len() {
        x[i] < y[i]
    } else {
        i == x.len() && i < y.len()
    };
    proof {
        let k = i as int;
        if r {
            assert(bytes_less(xs, ys));
        } else {
            assert forall|j: int| 0 <= j <= xs.len() && j <= ys.len() && xs.take(j) == ys.take(j)
                implies !(j == xs.len() < ys.len() || (j < xs.len() && j < ys.len() && xs[j] < ys[j])) by {
                if j < k {
                    assert(xs.take(k)[j] == ys.take(k)[j]);
                } else if j > k {
                    assert(xs.take(j)[k] == ys.take(j)[k]);
                }
            }
        }
    }
    r
}

/// A trip record of a GTFS feed.
#[derive(Debug, Clone, PartialEq, Eq)]
pub struct Trip {
    pub id: String,
    pub route_id: String,
    pub service_id: String,
    pub direction: DirectionType,
    pub short_name: Option<String>,
    pub headsign: Option<String>,
    pub wheelchair_accessible: Availability,
    pub bikes_allowed: Availability,
}

/// The view of an optional string.
pub open spec fn opt_view(o: Option<String>) -> Option<Seq<char>> {
    match o {
        Some(s) => Some(s@),
        None => None,
    }
}

/// Routes `a` and `b` belong to the same line: same agency, same line name.
pub open spec fn same_line(a: Route, b: Route) -> bool {
    opt_view(a.agency_id) == opt_view(b.agency_id) && line_name(a) == line_name(b)
}

/// `rs[i]` has the smallest identifier among the routes of its line.
pub open spec fn is_line_head(rs: Seq<Route>, i: int) -> bool {
    forall|j: int| 0 <= j < rs.len() && j != i && #[trigger] same_line(rs[j], rs[i]) ==> id_before(rs[i].id@, rs[j].id@)
}

/// Some trip runs on the route with identifier `id`.
pub open spec fn serves(trips: Seq<Trip>, id: Seq<char>) -> bool {
    exists|t: int| 0 <= t < trips.len() && #[trigger] trips[t].route_id@ == id
}

/// `rs[i]` gives rise to a line: it heads its line and some trip runs on it.
pub open spec fn makes_line(rs: Seq<Route>, trips: Seq<Trip>, i: int) -> bool {
    0 <= i < rs.len() && is_line_head(rs, i) && serves(trips, rs[i].id@)
}

/// The network of route `r` can be told: the route names it, or the feed
/// has exactly one.
pub open spec fn agency_resolves(r: Route, networks: Seq<Network>) -> bool {
    r.agency_id.is_some() || networks.len() == 1
}

/// The network of route `r`, when it can be told.
pub open spec fn agency_of(r: Route, networks: Seq<Network>) -> Seq<char> {
    match r.agency_id {
        Some(a) => a@,
        None => networks[0].id@,
    }
}

/// `l` is the line made from route `r`.
pub open spec fn line_from(l: Line, r: Route, networks: Seq<Network>) -> bool {
    &&& l.id@ == r.id@
    &&& l.name@ == r.long_name@
    &&& opt_view(l.code) == (if r.short_name@.len() == 0 { None } else { Some(r.short_name@) })
    &&& l.network_id@ == agency_of(r, networks)
    &&& l.commercial_mode_id@ == gtfs_value(r.route_type)
}

/// `l` is the line made from some route of `rs` that gives rise to one.
pub open spec fn line_made(l: Line, rs: Seq<Route>, trips: Seq<Trip>, networks: Seq<Network>) -> bool {
    exists|i: int| makes_line(rs, trips, i) && #[trigger] line_from(l, rs[i], networks)
}

/// Whether two optional strings are equal.
fn opt_eq(a: &Option<String>, b: &Option<String>) -> (r: bool)
    ensures
        r == (opt_view(*a) == opt_view(*b)),
{
    match (a, b) {
        (Some(x), Some(y)) => x.eq(y),
        (None, None) => true,
        _ => false,
    }
}

/// Whether routes `a` and `b` belong to the same line.
fn same_line_key(a: &Route, b: &Route) -> (r: bool)
    ensures
        r == same_line(*a, *b),
{
    let (agency_a, name_a) = a.get_line_key();
    let (agency_b, name_b) = b.get_line_key();
    let r = opt_eq(&agency_a, &agency_b) && name_a.eq(&name_b);
    proof {
        assert(opt_view(agency_a) == opt_view(a.agency_id));
        assert(opt_view(agency_b) == opt_view(b.agency_id));
    }
    r
}

/// Whether `rs[i]` has the smallest identifier among the routes of its line.
fn is_head(rs: &Vec<Route>, i: usize) -> (r: bool)
    requires
        i < rs@.len(),
    ensures
        r == is_line_head(rs@, i as int),
{
    let mut j: usize = 0;
    while j < rs.len()
        invariant
            i < rs@.len(),
            j <= rs@.len(),
            forall|k: int| 0 <= k < j && k != i && #[trigger] same_line(rs@[k], rs@[i as int])
                ==> id_before(rs@[i as int].id@, rs@[k].id@),
        decreases rs@.len() - j,
    {
        if j != i && same_line_key(&rs[j], &rs[i]) && !id_less(&rs[i].id, &rs[j].id) {
            return false;
        }
        j = j + 1;
    }
    true
}

/// Whether some trip runs on the route with identifier `id`.
fn serves_route(trips: &Vec<Trip>, id: &String) -> (r: bool)
    ensures
        r == serves(trips@, id@),
{
    let mut t: usize = 0;
    while t < trips.len()
        invariant
            t <= trips@.len(),
            forall|k: int| 0 <= k < t ==> trips@[k].route_id@ != id@,
        decreases trips@.len() - t,
    {
        if trips[t].route_id.eq(id) {
            assert(trips@[t as int].route_id@ == id@);
            return true;
        }
        t = t + 1;
    }
    false
}

/// Makes one line for each group of routes with the same agency and line
/// name that some trip runs on, from the route of the group with the
/// smallest identifier. Fails when the network of such a route cannot be
/// told.
#[verifier::spinoff_prover]
pub fn make_lines(
    gtfs_trips: &Vec<Trip>,
    routes: &CollectionWithId<Route>,
    networks: &CollectionWithId<Network>,
) -> (r: Result<Vec<Line>, Error>)
    ensures
        r.is_ok() <==> forall|i: int| #[trigger] makes_line(routes@, gtfs_trips@, i)
            ==> agency_resolves(routes@[i], networks@),
        r matches Err(e) ==> e.is_ambiguous("agency_id"@, networks@.len()),
        r matches Ok(lines) ==> {
            &&& ids_of(lines@).no_duplicates()
            &&& forall|k: int| 0 <= k < lines@.len() ==> #[trigger] line_made(lines@[k], routes@, gtfs_trips@, networks@)
            &&& forall|i: int| #[trigger] makes_line(routes@, gtfs_trips@, i) ==>
                exists|k: int| 0 <= k < lines@.len() && lines@[k].id@ == routes@[i].id@
        },
{
    let rs = routes.values();
    let mut lines: Vec<Line> = Vec::new();
    let ghost mut src: Seq<int> = Seq::empty();
    let mut i: usize = 0;
    while i < rs.len()
        invariant
            i <= rs@.len(),
            rs@ == routes@,
            ids_of(rs@).no_duplicates(),
            src.len() == lines@.len(),
            forall|k: int| 0 <= k < src.len() ==> 0 <= #[trigger] src[k] < i,
            forall|k: int, m: int| 0 <= k < m < src.len() ==> src[k] < src[m],
            forall|k: int| 0 <= k < src.len() ==> makes_line(rs@, gtfs_trips@, #[trigger] src[k])
                && line_from(lines@[k], rs@[src[k]], networks@),
            forall|j: int| 0 <= j < i && #[trigger] makes_line(rs@, gtfs_trips@, j) ==>
                agency_resolves(rs@[j], networks@) && exists|k: int| 0 <= k < src.len() && src[k] == j,
        decreases rs@.len() - i,
    {
        let ghost src0 = src;
        let r = &rs[i];
        let head = is_head(rs, i);
        let served = serves_route(gtfs_trips, &r.id);
        if head && served {
            let network_id = match get_agency_id(r, networks) {
                Ok(id) => {
                    proof {
                        assert(agency_resolves(rs@[i as int], networks@));
                    }
                    id
                },
                Err(e) => {
                    proof {
                        assert(makes_line(routes@, gtfs_trips@, i as int));
                    }
                    return Err(e);
                },
            };
            let code = if r.short_name.as_str().is_empty() {
                None
            } else {
                Some(r.short_name.clone())
            };
            let line = Line {
                id: r.id.clone(),
                code,
                name: r.long_name.clone(),
                network_id,
                commercial_mode_id: r.route_type.to_gtfs_value(),
            };
            lines.push(line);
            proof {
                src = src.push(i as int);
                assert(src[src.len() - 1] == i as int);
            }
        }
        proof {
            assert forall|j: int| 0 <= j < i + 1 && #[trigger] makes_line(rs@, gtfs_trips@, j) implies
                agency_resolves(rs@[j], networks@) && exists|k: int| 0 <= k < src.len() && src[k] == j by {
                if j == i {
                    assert(head && served);
                    assert(src[src.len() - 1] == j);
                } else {
                    let k = choose|k: int| 0 <= k < src0.len() && src0[k] == j;
                    assert(src[k] == j);
                }
            }
        }
        i = i + 1;
    }
    proof {
        assert forall|k: int| 0 <= k < lines@.len() implies #[trigger] line_made(lines@[k], routes@, gtfs_trips@, networks@) by {
            assert(makes_line(routes@, gtfs_trips@, src[k]));
        }
        assert forall|i: int| #[trigger] makes_line(routes@, gtfs_trips@, i) implies
            exists|k: int| 0 <= k < lines@.len() && lines@[k].id@ == routes@[i].id@ by {
            let k = choose|k: int| 0 <= k < src.len() && src[k] == i;
            assert(lines@[k].id@ == routes@[i].id@);
        }
        assert forall|k: int, m: int| 0 <= k < lines@.len() && 0 <= m < lines@.len() && k != m
            implies ids_of(lines@)[k] != ids_of(lines@)[m] by {
            assert(ids_of(rs@)[src[k]] == lines@[k].id@);
            assert(ids_of(rs@)[src[m]] == lines@[m].id@);
        }
        assert(ids_of(lines@).no_duplicates());
    }
    Ok(lines)
}

/// Position of the route heading the line of `rs[i]`: the one with the
/// smallest identifier among the routes of that line.
fn line_head(rs: &Vec<Route>, i: usize) -> (h: usize)
    requires
        i < rs@.len(),
        ids_of(rs@).no_duplicates(),
    ensures
        h < rs@.len(),
        same_line(rs@[h as int], rs@[i as int]),
        is_line_head(rs@, h as int),
{
    let mut best: usize = i;
    let mut k: usize = 0;
    while k < rs.len()
        invariant
            i < rs@.len(),
            best < rs@.len(),
            k <= rs@.len(),
            ids_of(rs@).no_duplicates(),
            same_line(rs@[best as int], rs@[i as int]),
            forall|j: int| 0 <= j < k && j != best && #[trigger] same_line(rs@[j], rs@[i as int])
                ==> id_before(rs@[best as int].id@, rs@[j].id@),
        decreases rs@.len() - k,
    {
        if k != best && same_line_key(&rs[k], &rs[i]) && id_less(&rs[k].id, &rs[best].id) {
            proof {
                assert forall|j: int| 0 <= j < k + 1 && j != k && #[trigger] same_line(rs@[j], rs@[i as int])
                    implies id_before(rs@[k as int].id@, rs@[j].id@) by {
                    if j != best {
                        lemma_id_before_transitive(rs@[k as int].id@, rs@[best as int].id@, rs@[j].id@);
                    }
                }
            }
            best = k;
        } else {
            proof {
                if k != best && same_line(rs@[k as int], rs@[i as int]) {
                    assert(ids_of(rs@)[k as int] != ids_of(rs@)[best as int]);
                    lemma_id_before_total(rs@[k as int].id@, rs@[best as int].id@);
                }
            }
        }
        k = k + 1;
    }
    proof {
        assert forall|j: int| 0 <= j < rs@.len() && j != best && #[trigger] same_line(rs@[j], rs@[best as int])
            implies id_before(rs@[best as int].id@, rs@[j].id@) by {
            assert(same_line(rs@[j], rs@[i as int]));
        }
    }
    best
}

/// Some trip runs on the route with identifier `id` in direction `d`.
pub open spec fn serves_in(trips: Seq<Trip>, id: Seq<char>, d: DirectionType) -> bool {
    exists|t: int| 0 <= t < trips.len() && (#[trigger] trips[t]).route_id@ == id && trips[t].direction == d
}

/// The name of a direction in the model.
pub open spec fn direction_name(d: DirectionType) -> Seq<char> {
    match d {
        DirectionType::Forward => "forward"@,
        DirectionType::Backward => "backward"@,
    }
}

/// `o` is the model route made from direction `d` of `rs[i]`, attached to
/// the line of the route heading its group.
pub open spec fn route_from(o: objects::Route, rs: Seq<Route>, i: int, d: DirectionType) -> bool {
    &&& o.id@ == id_by_direction(rs[i], d)
    &&& o.name@ == rs[i].long_name@
    &&& opt_view(o.direction_type) == Some(direction_name(d))
    &&& exists|h: int| 0 <= h < rs.len() && #[trigger] same_line(rs[h], rs[i]) && is_line_head(rs, h)
        && o.line_id@ == rs[h].id@
}

/// `o` is made from a direction of a route of `rs` that some trip runs in.
pub open spec fn route_made(o: objects::Route, rs: Seq<Route>, trips: Seq<Trip>) -> bool {
    exists|i: int, d: DirectionType| 0 <= i < rs.len() && serves_in(trips, rs[i].id@, d)
        && #[trigger] route_from(o, rs, i, d)
}

/// Whether some trip runs on the route with identifier `id` in direction `d`.
fn serves_route_in(trips: &Vec<Trip>, id: &String, d: DirectionType) -> (r: bool)
    ensures
        r == serves_in(trips@, id@, d),
{
    let mut t: usize = 0;
    while t < trips.len()
        invariant
            t <= trips@.len(),
            forall|k: int| 0 <= k < t ==> !((#[trigger] trips@[k]).route_id@ == id@ && trips@[k].direction == d),
        decreases trips@.len() - t,
    {
        let same_dir = match (trips[t].direction, d) {
            (DirectionType::Forward, DirectionType::Forward) => true,
            (DirectionType::Backward, DirectionType::Backward) => true,
            _ => false,
        };
        if trips[t].route_id.eq(id) && same_dir {
            assert(trips@[t as int].route_id@ == id@ && trips@[t as int].direction == d);
            return true;
        }
        t = t + 1;
    }
    false
}

/// The identifier of the route heading the line of `rs[i]`.
pub open spec fn head_id(rs: Seq<Route>, i: int) -> Seq<char> {
    rs[choose|h: int| 0 <= h < rs.len() && same_line(rs[h], rs[i]) && is_line_head(rs, h)].id@
}

/// No identifier sorts strictly before itself.
proof fn lemma_id_before_irreflexive(a: Seq<char>)
    ensures
        !id_before(a, a),
{
}

/// Among routes with distinct identifiers, a line has one head.
proof fn lemma_head_id(rs: Seq<Route>, i: int, h: int)
    requires
        ids_of(rs).no_duplicates(),
        0 <= i < rs.len(),
        0 <= h < rs.len(),
        same_line(rs[h], rs[i]),
        is_line_head(rs, h),
    ensures
        head_id(rs, i) == rs[h].id@,
{
    let h2 = choose|h2: int| 0 <= h2 < rs.len() && same_line(rs[h2], rs[i]) && is_line_head(rs, h2);
    if h2 != h {
        assert(same_line(rs[h2], rs[h]));
        assert(same_line(rs[h], rs[h2]));
        lemma_id_before_transitive(rs[h].id@, rs[h2].id@, rs[h].id@);
        lemma_id_before_irreflexive(rs[h].id@);
    }
}

/// A model route seen as identifier, name, direction and line.
pub open spec fn route_view(o: objects::Route) -> (Seq<char>, Seq<char>, Option<Seq<char>>, Seq<char>) {
    (o.id@, o.name@, opt_view(o.direction_type), o.line_id@)
}

/// The model route for direction `d` of `rs[i]`.
pub open spec fn route_entry(rs: Seq<Route>, i: int, d: DirectionType) -> (Seq<char>, Seq<char>, Option<Seq<char>>, Seq<char>) {
    (id_by_direction(rs[i], d), rs[i].long_name@, Some(direction_name(d)), head_id(rs, i))
}

/// The model routes made from the first `n` routes of `rs`, in order: for
/// each route, forward then backward, each when some trip runs that way.
pub open spec fn expected_routes(rs: Seq<Route>, trips: Seq<Trip>, n: int) -> Seq<(Seq<char>, Seq<char>, Option<Seq<char>>, Seq<char>)>
    decreases n,
{
    if n <= 0 {
        Seq::empty()
    } else {
        let i = n - 1;
        let prev = expected_routes(rs, trips, i);
        let fwd = if serves_in(trips, rs[i].id@, DirectionType::Forward) {
            prev.push(route_entry(rs, i, DirectionType::Forward))
        } else {
            prev
        };
        if serves_in(trips, rs[i].id@, DirectionType::Backward) {
            fwd.push(route_entry(rs, i, DirectionType::Backward))
        } else {
            fwd
        }
    }
}

/// Makes one model route for each direction in which trips run on a GTFS
/// route, in route order, forward first, attached to the line made for the
/// route's group.
#[verifier::spinoff_prover]
pub fn make_routes(gtfs_trips: &Vec<Trip>, routes: &CollectionWithId<Route>) -> (r: Vec<objects::Route>)
    ensures
        r@.map_values(|o: objects::Route| route_view(o)) == expected_routes(routes@, gtfs_trips@, routes@.len() as int),
{
    let rs = routes.values();
    let mut out: Vec<objects::Route> = Vec::new();
    let mut i: usize = 0;
    proof {
        assert(out@.map_values(|o: objects::Route| route_view(o)) =~= expected_routes(routes@, gtfs_trips@, 0));
    }
    while i < rs.len()
        invariant
            i <= rs@.len(),
            rs@ == routes@,
            ids_of(rs@).no_duplicates(),
            out@.map_values(|o: objects::Route| route_view(o)) == expected_routes(routes@, gtfs_trips@, i as int),
        decreases rs@.len() - i,
    {
        let r = &rs[i];
        let h = line_head(rs, i);
        proof {
            lemma_head_id(rs@, i as int, h as int);
        }
        let ghost out0 = out@;
        let fwd = serves_route_in(gtfs_trips, &r.id, DirectionType::Forward);
        if fwd {
            let o = objects::Route {
                id: r.get_id_by_direction(&DirectionType::Forward),
                name: r.long_name.clone(),
                direction_type: Some("forward".to_owned()),
                line_id: rs[h].id.clone(),
            };
            out.push(o);
            proof {
                assert(out@.map_values(|o: objects::Route| route_view(o))
                    =~= out0.map_values(|o: objects::Route| route_view(o)).push(route_entry(routes@, i as int, DirectionType::Forward)));
            }
        }
        let ghost out1 = out@;
        let bwd = serves_route_in(gtfs_trips, &r.id, DirectionType::Backward);
        if bwd {
            let o = objects::Route {
                id: r.get_id_by_direction(&DirectionType::Backward),
                name: r.long_name.clone(),
                direction_type: Some("backward".to_owned()),
                line_id: rs[h].id.clone(),
            };
            out.push(o);
            proof {
                assert(out@.map_values(|o: objects::Route| route_view(o))
                    =~= out1.map_values(|o: objects::Route| route_view(o)).push(route_entry(routes@, i as int, DirectionType::Backward)));
            }
        }
        proof {
            assert(out@.map_values(|o: objects::Route| route_view(o)) =~= expected_routes(routes@, gtfs_trips@, i + 1));
        }
        i = i + 1;
    }
    out
}

/// `vj` is the vehicle journey made from trip `t` on GTFS route `r`.
pub open spec fn vehicle_journey_from(
    vj: VehicleJourney,
    t: Trip,
    r: Route,
    dataset: Dataset,
    networks: Seq<Network>,
) -> bool {
    &&& vj.id@ == t.id@
    &&& vj.route_id@ == id_by_direction(r, t.direction)
    &&& vj.physical_mode_id@ == physical_mode_id(r.route_type)
    &&& vj.dataset_id@ == dataset.id@
    &&& vj.company_id@ == agency_of(r, networks)
    &&& vj.service_id@ == t.service_id@
    &&& opt_view(vj.headsign) == (if t.short_name.is_some() { opt_view(t.short_name) } else { opt_view(t.headsign) })
    &&& vj.stop_times@.len() == 0
}

/// The GTFS route that trip `t` runs on.
pub open spec fn route_of_trip(routes: Seq<Route>, t: Trip) -> Route {
    routes[position_of(routes, t.route_id@)]
}

/// Trip `t` runs on a known route whose network can be told.
pub open spec fn trip_resolves(routes: Seq<Route>, networks: Seq<Network>, t: Trip) -> bool {
    ids_of(routes).contains(t.route_id@) && agency_resolves(route_of_trip(routes, t), networks)
}

/// `e` is the error for trip `t`: its route is unknown, or else the
/// network of its route cannot be told.
pub open spec fn trip_error(routes: Seq<Route>, networks: Seq<Network>, t: Trip, e: Error) -> bool {
    if !ids_of(routes).contains(t.route_id@) {
        e.is_dangling("trips_to_routes"@, t.route_id@)
    } else {
        e.is_ambiguous("agency_id"@, networks.len())
    }
}

impl Trip {
    /// The vehicle journey of this trip, in `dataset`, with no stop time
    /// yet; its headsign is the trip's short name, or else its headsign.
    /// Fails when the trip's route is unknown or the network of that route
    /// cannot be told.
    pub fn to_ntfs_vehicle_journey(
        &self,
        routes: &CollectionWithId<Route>,
        dataset: &Dataset,
        trip_property_id: &Option<String>,
        networks: &CollectionWithId<Network>,
    ) -> (r: Result<VehicleJourney, Error>)
        ensures
            r.is_ok() == trip_resolves(routes@, networks@, *self),
            r matches Ok(vj) ==> vehicle_journey_from(vj, *self, route_of_trip(routes@, *self), *dataset, networks@)
                && opt_view(vj.trip_property_id) == opt_view(*trip_property_id),
            r matches Err(e) ==> trip_error(routes@, networks@, *self, e),
    {
        let route = match routes.get(self.route_id.as_str()) {
            Some(route) => route,
            None => {
                return Err(Error::ReferentialIntegrity {
                    relation: "trips_to_routes".to_owned(),
                    id: self.route_id.clone(),
                });
            },
        };
        let physical_mode = get_physical_mode(&route.route_type);
        let company_id = match get_agency_id(route, networks) {
            Ok(id) => id,
            Err(e) => return Err(e),
        };
        let headsign = match &self.short_name {
            Some(n) => Some(n.clone()),
            None => clone_opt(&self.headsign),
        };
        Ok(VehicleJourney {
            id: self.id.clone(),
            route_id: route.get_id_by_direction(&self.direction),
            physical_mode_id: physical_mode.id,
            dataset_id: dataset.id.clone(),
            company_id,
            service_id: self.service_id.clone(),
            headsign,
            trip_property_id: clone_opt(trip_property_id),
            stop_times: Vec::new(),
        })
    }
}

/// Trip `t` states some accessibility information.
pub open spec fn needs_property(t: Trip) -> bool {
    !(t.wheelchair_accessible == Availability::InformationNotAvailable
        && t.bikes_allowed == Availability::InformationNotAvailable)
}

/// The accessibility pair of trip `t`.
pub open spec fn property_pair(t: Trip) -> (Availability, Availability) {
    (t.wheelchair_accessible, t.bikes_allowed)
}

/// The distinct accessibility pairs stated by `trips`, in order of first
/// statement.
pub open spec fn property_pairs(trips: Seq<Trip>) -> Seq<(Availability, Availability)>
    decreases trips.len(),
{
    if trips.len() == 0 {
        Seq::empty()
    } else {
        let prev = property_pairs(trips.drop_last());
        let t = trips.last();
        if needs_property(t) && !prev.contains(property_pair(t)) {
            prev.push(property_pair(t))
        } else {
            prev
        }
    }
}

/// The trip property identifier of the `k`-th trip: the rank, from 1, of
/// its accessibility pair, or none when it states nothing.
pub open spec fn property_id_of(trips: Seq<Trip>, k: int) -> Option<Seq<char>> {
    if needs_property(trips[k]) {
        Some(decimal((property_pairs(trips.take(k + 1)).index_of(property_pair(trips[k])) + 1) as nat))
    } else {
        None
    }
}

/// In a sequence without duplicates, an element's index is its position.
proof fn lemma_index_of_unique<A>(s: Seq<A>, i: int)
    requires
        s.no_duplicates(),
        0 <= i < s.len(),
    ensures
        s.index_of(s[i]) == i,
{
    assert(s.contains(s[i]));
}

/// Makes the vehicle journeys of `gtfs_trips`, in order, all in the first
/// dataset, and one trip property per distinct accessibility pair that a
/// trip states, numbered from 1 in order of first statement. Fails when
/// there is no dataset, else on the first trip whose route is unknown or
/// whose route's network cannot be told.
#[verifier::spinoff_prover]
pub fn make_ntfs_vehicle_journeys(
    gtfs_trips: &Vec<Trip>,
    routes: &CollectionWithId<Route>,
    datasets: &CollectionWithId<Dataset>,
    networks: &CollectionWithId<Network>,
) -> (r: Result<(Vec<VehicleJourney>, Vec<TripProperty>), Error>)
    ensures
        r.is_ok() <==> datasets@.len() > 0 && forall|t: int| 0 <= t < gtfs_trips@.len()
            ==> trip_resolves(routes@, networks@, #[trigger] gtfs_trips@[t]),
        r matches Ok((vjs, props)) ==> {
            &&& vjs@.len() == gtfs_trips@.len()
            &&& forall|t: int| 0 <= t < vjs@.len() ==> vehicle_journey_from(#[trigger] vjs@[t], gtfs_trips@[t],
                route_of_trip(routes@, gtfs_trips@[t]), datasets@[0], networks@)
            &&& forall|t: int| 0 <= t < vjs@.len() ==> opt_view((#[trigger] vjs@[t]).trip_property_id)
                == property_id_of(gtfs_trips@, t)
            &&& props@.len() == property_pairs(gtfs_trips@).len()
            &&& forall|k: int| 0 <= k < props@.len() ==> {
                &&& (#[trigger] props@[k]).id@ == decimal((k + 1) as nat)
                &&& (props@[k].wheelchair_accessible, props@[k].bike_accepted) == property_pairs(gtfs_trips@)[k]
            }
        },
        r matches Err(e) ==> if datasets@.len() == 0 {
            e is NoDataset
        } else {
            exists|t: int| {
                &&& 0 <= t < gtfs_trips@.len()
                &&& forall|k: int| 0 <= k < t ==> trip_resolves(routes@, networks@, #[trigger] gtfs_trips@[k])
                &&& !trip_resolves(routes@, networks@, gtfs_trips@[t])
                &&& trip_error(routes@, networks@, gtfs_trips@[t], e)
            }
        },
{
    if datasets.is_empty() {
        return Err(Error::NoDataset);
    }
    let dataset = &datasets.values()[0];
    let mut vjs: Vec<VehicleJourney> = Vec::new();
    let mut pairs: Vec<(Availability, Availability)> = Vec::new();
    let mut props: Vec<TripProperty> = Vec::new();
    let mut t: usize = 0;
    while t < gtfs_trips.len()
        invariant
            t <= gtfs_trips@.len(),
            datasets@.len() > 0,
            *dataset == datasets@[0],
            vjs@.len() == t,
            pairs@ == property_pairs(gtfs_trips@.take(t as int)),
            pairs@.no_duplicates(),
            pairs@.len() <= t,
            props@.len() == pairs@.len(),
            forall|k: int| 0 <= k < props@.len() ==> {
                &&& (#[trigger] props@[k]).id@ == decimal((k + 1) as nat)
                &&& (props@[k].wheelchair_accessible, props@[k].bike_accepted) == pairs@[k]
            },
            forall|k: int| 0 <= k < t ==> trip_resolves(routes@, networks@, #[trigger] gtfs_trips@[k]),
            forall|k: int| 0 <= k < t ==> vehicle_journey_from(#[trigger] vjs@[k], gtfs_trips@[k],
                route_of_trip(routes@, gtfs_trips@[k]), datasets@[0], networks@),
            forall|k: int| 0 <= k < t ==> opt_view((#[trigger] vjs@[k]).trip_property_id)
                == property_id_of(gtfs_trips@, k),
        decreases gtfs_trips@.len() - t,
    {
        let trip = &gtfs_trips[t];
        let pair = (trip.wheelchair_accessible, trip.bikes_allowed);
        proof {
            assert(gtfs_trips@.take(t + 1).drop_last() =~= gtfs_trips@.take(t as int));
            assert(gtfs_trips@.take(t + 1).last() == *trip);
        }
        let needs = !(trip.wheelchair_accessible == Availability::InformationNotAvailable
            && trip.bikes_allowed == Availability::InformationNotAvailable);
        let mut property_id: Option<String> = None;
        if needs {
            let mut p: usize = 0;
            while p < pairs.len() && !(pairs[p].0 == pair.0 && pairs[p].1 == pair.1)
                invariant
                    p <= pairs@.len(),
                    forall|q: int| 0 <= q < p ==> pairs@[q] != pair,
                decreases pairs@.len() - p,
            {
                p = p + 1;
            }
            let ghost pairs0 = pairs@;
            if p == pairs.len() {
                proof {
                    assert(!pairs0.contains(pair));
                }
                pairs.push(pair);
                props.push(TripProperty {
                    id: decimal_string((p + 1) as u64),
                    wheelchair_accessible: pair.0,
                    bike_accepted: pair.1,
                });
                proof {
                    assert forall|a: int, b: int| 0 <= a < pairs@.len() && 0 <= b < pairs@.len() && a != b
                        implies pairs@[a] != pairs@[b] by {
                        if a == p as int {
                            assert(pairs0[b] != pair);
                        } else if b == p as int {
                            assert(pairs0[a] != pair);
                        }
                    }
                }
            } else {
                proof {
                    assert(pairs0.contains(pair));
                }
            }
            proof {
                assert(pairs@ == property_pairs(gtfs_trips@.take(t + 1)));
                assert(pairs@[p as int] == pair);
                lemma_index_of_unique(pairs@, p as int);
            }
            property_id = Some(decimal_string((p + 1) as u64));
        } else {
            proof {
                assert(pairs@ =~= property_pairs(gtfs_trips@.take(t + 1)));
            }
        }
        match trip.to_ntfs_vehicle_journey(routes, dataset, &property_id, networks) {
            Ok(vj) => vjs.push(vj),
            Err(e) => {
                proof {
                    assert(!trip_resolves(routes@, networks@, gtfs_trips@[t as int]));
                }
                return Err(e);
            },
        }
        t = t + 1;
    }
    proof {
        assert(gtfs_trips@.take(t as int) =~= gtfs_trips@);
    }
    Ok((vjs, props))
}

/// `cm` is the commercial mode of some route of `rs`.
pub open spec fn commercial_mode_made(cm: CommercialMode, rs: Seq<Route>) -> bool {
    exists|i: int| 0 <= i < rs.len() && cm.id@ == gtfs_value(#[trigger] rs[i].route_type)
        && cm.name@ == commercial_mode_label(rs[i].route_type)
}

/// `pm` is the physical mode of some route of `rs`.
pub open spec fn physical_mode_made(pm: PhysicalMode, rs: Seq<Route>) -> bool {
    exists|i: int| 0 <= i < rs.len() && pm.id@ == physical_mode_id(#[trigger] rs[i].route_type)
        && pm.name@ == physical_mode_name(rs[i].route_type)
}

/// Some commercial mode of `cms` is that of route type `t`.
pub open spec fn has_commercial_mode(cms: Seq<CommercialMode>, t: RouteType) -> bool {
    exists|k: int| 0 <= k < cms.len() && (#[trigger] cms[k]).id@ == gtfs_value(t)
}

/// Some physical mode of `pms` is that of route type `t`.
pub open spec fn has_physical_mode(pms: Seq<PhysicalMode>, t: RouteType) -> bool {
    exists|k: int| 0 <= k < pms.len() && (#[trigger] pms[k]).id@ == physical_mode_id(t)
}

/// Route type `t` occurs in `types`.
spec fn type_listed(types: Seq<RouteType>, t: RouteType) -> bool {
    exists|k: int| 0 <= k < types.len() && types[k] == t
}

/// Route type `t` is that of one of the first `n` routes of `rs`.
spec fn type_used(rs: Seq<Route>, n: int, t: RouteType) -> bool {
    exists|j: int| 0 <= j < n && rs[j].route_type == t
}

/// Adds the commercial mode of `t` to `commercial`, unless one with the
/// same code stands there already.
fn add_commercial_mode(commercial: &mut Vec<CommercialMode>, t: RouteType)
    requires
        ids_of(old(commercial)@).no_duplicates(),
    ensures
        ids_of(final(commercial)@).no_duplicates(),
        has_commercial_mode(final(commercial)@, t),
        final(commercial)@.len() >= old(commercial)@.len(),
        forall|k: int| 0 <= k < old(commercial)@.len() ==> final(commercial)@[k] == old(commercial)@[k],
        final(commercial)@.len() > old(commercial)@.len() ==> {
            &&& final(commercial)@.len() == old(commercial)@.len() + 1
            &&& final(commercial)@[old(commercial)@.len() as int].id@ == gtfs_value(t)
            &&& final(commercial)@[old(commercial)@.len() as int].name@ == commercial_mode_label(t)
        },
{
    let code = t.to_gtfs_value();
    let mut k: usize = 0;
    while k < commercial.len()
        invariant
            k <= commercial@.len(),
            code@ == gtfs_value(t),
            commercial@ == old(commercial)@,
            ids_of(old(commercial)@).no_duplicates(),
            forall|q: int| 0 <= q < k ==> commercial@[q].id@ != gtfs_value(t),
        decreases commercial@.len() - k,
    {
        if commercial[k].id.eq(&code) {
            assert(commercial@[k as int].id@ == gtfs_value(t));
            assert(ids_of(commercial@).no_duplicates());
            return;
        }
        k = k + 1;
    }
    let ghost com0 = commercial@;
    commercial.push(get_commercial_mode(&t));
    proof {
        assert(commercial@[com0.len() as int].id@ == gtfs_value(t));
        assert(ids_of(commercial@) =~= ids_of(com0).push(gtfs_value(t)));
        assert forall|a: int, b: int| 0 <= a < ids_of(commercial@).len() && 0 <= b < ids_of(commercial@).len() && a != b
            implies ids_of(commercial@)[a] != ids_of(commercial@)[b] by {
            if a == com0.len() {
                assert(com0[b].id@ != gtfs_value(t));
            } else if b == com0.len() {
                assert(com0[a].id@ != gtfs_value(t));
            } else {
                assert(ids_of(commercial@)[a] == ids_of(com0)[a]);
                assert(ids_of(commercial@)[b] == ids_of(com0)[b]);
                assert(ids_of(com0).no_duplicates());
            }
        }
    }
}

/// The modes of `routes`: one commercial mode per route type used, in order
/// of first use, and one physical mode per physical mode used, sorted by
/// identifier.
#[verifier::rlimit(60)]
#[verifier::spinoff_prover]
pub fn get_modes_from_gtfs(routes: &CollectionWithId<Route>) -> (r: (Vec<CommercialMode>, Vec<PhysicalMode>))
    ensures
        forall|k: int| 0 <= k < r.0@.len() ==> #[trigger] commercial_mode_made(r.0@[k], routes@),
        forall|i: int| 0 <= i < routes@.len() ==> has_commercial_mode(r.0@, (#[trigger] routes@[i]).route_type),
        forall|k: int| 0 <= k < r.1@.len() ==> #[trigger] physical_mode_made(r.1@[k], routes@),
        forall|i: int| 0 <= i < routes@.len() ==> has_physical_mode(r.1@, (#[trigger] routes@[i]).route_type),
        forall|k: int, m: int| 0 <= k < m < r.1@.len() ==> id_before(r.1@[k].id@, r.1@[m].id@),
        ids_of(r.0@).no_duplicates(),
        ids_of(r.1@).no_duplicates(),
{
    let rs = routes.values();
    let mut commercial: Vec<CommercialMode> = Vec::new();
    let mut physical: Vec<PhysicalMode> = Vec::new();
    let mut i: usize = 0;
    while i < rs.len()
        invariant
            i <= rs@.len(),
            rs@ == routes@,
            forall|k: int| 0 <= k < commercial@.len() ==> #[trigger] commercial_mode_made(commercial@[k], routes@),
            forall|j: int| 0 <= j < i ==> has_commercial_mode(commercial@, (#[trigger] rs@[j]).route_type),
            ids_of(commercial@).no_duplicates(),
            forall|k: int| 0 <= k < physical@.len() ==> #[trigger] physical_mode_made(physical@[k], routes@),
            forall|j: int| 0 <= j < i ==> has_physical_mode(physical@, (#[trigger] rs@[j]).route_type),
            forall|k: int, m: int| 0 <= k < m < physical@.len() ==> id_before(physical@[k].id@, physical@[m].id@),
        decreases rs@.len() - i,
    {
        let t = rs[i].route_type;
        // Commercial modes: one per GTFS code.
        let ghost com0 = commercial@;
        add_commercial_mode(&mut commercial, t);
        proof {
            assert(commercial_mode_made(commercial@[commercial@.len() - 1], routes@)) by {
                if commercial@.len() > com0.len() {
                    assert(rs@[i as int].route_type == t);
                }
            }
            assert forall|k: int| 0 <= k < commercial@.len() implies #[trigger] commercial_mode_made(commercial@[k], routes@) by {
                if k < com0.len() {
                    assert(commercial@[k] == com0[k]);
                }
            }
            assert forall|j: int| 0 <= j < i + 1 implies has_commercial_mode(commercial@, (#[trigger] rs@[j]).route_type) by {
                if j < i {
                    assert(has_commercial_mode(com0, rs@[j].route_type));
                    let k = choose|k: int| 0 <= k < com0.len() && (#[trigger] com0[k]).id@ == gtfs_value(rs@[j].route_type);
                    assert(commercial@[k] == com0[k]);
                }
            }
        }
        // Physical modes: sorted by identifier, each once.
        let pm = get_physical_mode(&t);
        let ghost phys0 = physical@;
        let mut p: usize = 0;
        let mut present = false;
        while p < physical.len() && !present && !id_less(&pm.id, &physical[p].id)
            invariant
                p <= physical@.len(),
                present ==> p < physical@.len() && physical@[p as int].id@ == pm.id@,
                !present ==> forall|q: int| 0 <= q < p ==> id_before(physical@[q].id@, pm.id@),
            decreases physical@.len() - p + (if present { 0int } else { 1int }),
        {
            if physical[p].id.eq(&pm.id) {
                present = true;
            } else {
                proof {
                    lemma_id_before_total(pm.id@, physical@[p as int].id@);
                }
                p = p + 1;
            }
        }
        proof {
            assert(physical_mode_made(pm, routes@)) by {
                assert(pm.id@ == physical_mode_id(rs@[i as int].route_type));
            }
        }
        if !present {
            proof {
                if p < physical@.len() {
                    assert(id_before(pm.id@, physical@[p as int].id@));
                }
            }
            physical.insert(p, pm);
            proof {
                assert forall|k: int, m: int| 0 <= k < m < physical@.len() implies
                    id_before(physical@[k].id@, physical@[m].id@) by {
                    if k < p as int && m == p as int {
                    } else if k == p as int && m > p as int {
                        if m - 1 > p as int {
                            lemma_id_before_transitive(pm.id@, phys0[p as int].id@, phys0[m - 1].id@);
                        }
                    } else if k < p as int && m > p as int {
                        assert(physical@[m] == phys0[m - 1]);
                    } else if k > p as int {
                        assert(physical@[k] == phys0[k - 1]);
                        assert(physical@[m] == phys0[m - 1]);
                    }
                }
            }
        }
        proof {
            assert forall|k: int| 0 <= k < physical@.len() implies #[trigger] physical_mode_made(physical@[k], routes@) by {
                if !present {
                    if k < p as int {
                        assert(physical@[k] == phys0[k]);
                    } else if k > p as int {
                        assert(physical@[k] == phys0[k - 1]);
                    }
                }
            }
            assert forall|j: int| 0 <= j < i + 1 implies has_physical_mode(physical@, (#[trigger] rs@[j]).route_type) by {
                if j < i {
                    assert(has_physical_mode(phys0, rs@[j].route_type));
                    let k = choose|k: int| 0 <= k < phys0.len() && phys0[k].id@ == physical_mode_id(rs@[j].route_type);
                    if !present {
                        if k < p as int {
                            assert(physical@[k] == phys0[k]);
                        } else {
                            assert(physical@[k + 1] == phys0[k]);
                        }
                    }
                } else {
                    if present {
                        assert(physical@[p as int].id@ == physical_mode_id(rs@[j].route_type));
                    } else {
                        assert(physical@[p as int] == pm);
                    }
                }
            }
        }
        i = i + 1;
    }
    proof {
        assert forall|a: int, b: int| 0 <= a < ids_of(physical@).len() && 0 <= b < ids_of(physical@).len() && a != b
            implies ids_of(physical@)[a] != ids_of(physical@)[b] by {
            lemma_id_before_irreflexive(physical@[a].id@);
            lemma_id_before_irreflexive(physical@[b].id@);
        }
    }
    (commercial, physical)
}

/// An agency record of a GTFS feed.
#[derive(Debug, Clone, PartialEq, Eq)]
pub struct Agency {
    pub id: Option<String>,
    pub name: String,
}

/// The identifier of the network and company of agency `a`.
pub open spec fn agency_id_of(a: Agency) -> Seq<char> {
    match a.id {
        Some(id) => id@,
        None => "default_agency_id"@,
    }
}

/// The identifier of agency `a`, or the default one.
fn agency_identifier(a: &Agency) -> (r: String)
    ensures
        r@ == agency_id_of(*a),
{
    match &a.id {
        Some(id) => id.clone(),
        None => default_agency_id(),
    }
}

/// Makes one network and one company per agency, in order, under the
/// agency's identifier or the default one. Fails when two agencies share an
/// identifier.
pub fn read_agency(gtfs_agencies: &Vec<Agency>) -> (r: Result<(CollectionWithId<Network>, CollectionWithId<Company>), Error>)
    ensures
        r.is_ok() <==> gtfs_agencies@.map_values(|a: Agency| agency_id_of(a)).no_duplicates(),
        r matches Ok((networks, companies)) ==> {
            &&& networks@.len() == gtfs_agencies@.len()
            &&& companies@.len() == gtfs_agencies@.len()
            &&& forall|k: int| 0 <= k < gtfs_agencies@.len() ==> {
                &&& (#[trigger] networks@[k]).id@ == agency_id_of(gtfs_agencies@[k])
                &&& networks@[k].name@ == gtfs_agencies@[k].name@
                &&& companies@[k].id@ == agency_id_of(gtfs_agencies@[k])
                &&& companies@[k].name@ == gtfs_agencies@[k].name@
            }
        },
        r matches Err(e) ==> exists|i: int, j: int| 0 <= i < j < gtfs_agencies@.len()
            && agency_id_of(gtfs_agencies@[i]) == agency_id_of(gtfs_agencies@[j])
            && e.is_duplicate_id(agency_id_of(gtfs_agencies@[j])),
{
    let ghost ids = gtfs_agencies@.map_values(|a: Agency| agency_id_of(a));
    let mut networks: Vec<Network> = Vec::new();
    let mut companies: Vec<Company> = Vec::new();
    let mut k: usize = 0;
    while k < gtfs_agencies.len()
        invariant
            k <= gtfs_agencies@.len(),
            ids == gtfs_agencies@.map_values(|a: Agency| agency_id_of(a)),
            networks@.len() == k,
            companies@.len() == k,
            forall|j: int| 0 <= j < k ==> {
                &&& (#[trigger] networks@[j]).id@ == agency_id_of(gtfs_agencies@[j])
                &&& networks@[j].name@ == gtfs_agencies@[j].name@
                &&& companies@[j].id@ == agency_id_of(gtfs_agencies@[j])
                &&& companies@[j].name@ == gtfs_agencies@[j].name@
            },
        decreases gtfs_agencies@.len() - k,
    {
        let a = &gtfs_agencies[k];
        networks.push(Network { id: agency_identifier(a), name: a.name.clone() });
        companies.push(Company { id: agency_identifier(a), name: a.name.clone() });
        k = k + 1;
    }
    proof {
        assert(ids_of(networks@) =~= ids);
        assert(ids_of(companies@) =~= ids);
    }
    let networks = match CollectionWithId::new(networks) {
        Ok(c) => c,
        Err(e) => return Err(e),
    };
    let companies = match CollectionWithId::new(companies) {
        Ok(c) => c,
        Err(e) => return Err(e),
    };
    Ok((networks, companies))
}

/// The stop times of `v` are in order of sequence.
pub open spec fn sorted_by_sequence(v: Seq<objects::StopTime>) -> bool {
    forall|i: int, j: int| 0 <= i < j < v.len() ==> v[i].sequence <= v[j].sequence
}

/// The stop times of `v`, in order of sequence.
#[verifier::spinoff_prover]
fn sort_by_sequence(v: Vec<objects::StopTime>) -> (r: Vec<objects::StopTime>)
    ensures
        r@.to_multiset() == v@.to_multiset(),
        sorted_by_sequence(r@),
{
    let ghost all = v@;
    let mut rest = v;
    let mut out: Vec<objects::StopTime> = Vec::new();
    proof {
        out@.to_multiset_ensures();
        assert(out@.to_multiset() =~= Multiset::<objects::StopTime>::empty()) by {
            assert forall|a: objects::StopTime| out@.to_multiset().count(a) == 0 by {
                assert(!out@.contains(a));
            }
        }
        assert(out@.to_multiset().add(rest@.to_multiset()) =~= all.to_multiset());
    }
    while rest.len() > 0
        invariant
            out@.to_multiset().add(rest@.to_multiset()) == all.to_multiset(),
            sorted_by_sequence(out@),
        decreases rest@.len(),
    {
        let ghost rest0 = rest@;
        let x = rest.pop().unwrap();
        proof {
            assert(rest0 == rest@.push(x));
        }
        let mut p: usize = 0;
        while p < out.len() && out[p].sequence <= x.sequence
            invariant
                p <= out@.len(),
                forall|q: int| 0 <= q < p ==> out@[q].sequence <= x.sequence,
            decreases out@.len() - p,
        {
            p = p + 1;
        }
        let ghost out0 = out@;
        out.insert(p, x);
        proof {
            out@.to_multiset_ensures();
            rest@.to_multiset_ensures();
            assert(out@.remove(p as int) =~= out0);
            assert(out@[p as int] == x);
            assert(out@.remove(p as int).to_multiset() == out@.to_multiset().remove(x));
            assert(out@.contains(x));
            assert(out@.to_multiset().count(x) > 0);
            assert(out@.to_multiset() =~= out0.to_multiset().insert(x));
            assert(rest0.to_multiset() =~= rest@.to_multiset().insert(x)) by {
                assert(rest@.push(x).to_multiset() =~= rest@.to_multiset().insert(x));
            }
            assert(out@.to_multiset().add(rest@.to_multiset()) =~= all.to_multiset());
            assert forall|i: int, j: int| 0 <= i < j < out@.len() implies out@[i].sequence <= out@[j].sequence by {
                if j < p {
                } else if i < p && j == p {
                } else if i < p && j > p {
                    assert(out@[j] == out0[j - 1]);
                    if p < out0.len() {
                        assert(x.sequence < out0[p as int].sequence);
                    }
                } else if i == p {
                    assert(out@[j] == out0[j - 1]);
                    assert(x.sequence < out0[p as int].sequence);
                } else {
                    assert(out@[i] == out0[i - 1]);
                    assert(out@[j] == out0[j - 1]);
                }
            }
        }
    }
    proof {
        assert(rest@ =~= Seq::<objects::StopTime>::empty());
        rest@.to_multiset_ensures();
        assert(rest@.to_multiset() =~= Multiset::<objects::StopTime>::empty()) by {
            assert forall|a: objects::StopTime| rest@.to_multiset().count(a) == 0 by {
                assert(!rest@.contains(a));
            }
        }
        assert(out@.to_multiset() =~= all.to_multiset());
    }
    out
}

/// A stop-time record of a GTFS feed.
#[derive(Debug, Clone, PartialEq, Eq)]
pub struct StopTime {
    pub trip_id: String,
    pub arrival_time: u32,
    pub departure_time: u32,
    pub stop_id: String,
    pub stop_sequence: u32,
    pub stop_headsign: Option<String>,
    pub pickup_type: u8,
    pub drop_off_type: u8,
    pub local_zone_id: Option<u16>,
}

/// The model stop time of record `r`.
pub open spec fn model_stop_time(r: StopTime) -> objects::StopTime {
    objects::StopTime {
        stop_point_id: r.stop_id,
        sequence: r.stop_sequence,
        arrival_time: r.arrival_time,
        departure_time: r.departure_time,
        boarding_duration: 0,
        alighting_duration: 0,
        pickup_type: r.pickup_type,
        drop_off_type: r.drop_off_type,
        datetime_estimated: false,
        local_zone_id: r.local_zone_id,
    }
}

/// The stop-time headsigns of `records`, in record order: the trip, the
/// sequence and the headsign of each record that has one.
pub open spec fn headsigns_of(records: Seq<StopTime>) -> Seq<(Seq<char>, u32, Seq<char>)>
    decreases records.len(),
{
    if records.len() == 0 {
        Seq::empty()
    } else {
        let prev = headsigns_of(records.drop_last());
        let r = records.last();
        match r.stop_headsign {
            Some(h) => prev.push((r.trip_id@, r.stop_sequence, h@)),
            None => prev,
        }
    }
}

/// Stop-time headsigns seen as trip, sequence and headsign.
pub open spec fn headsign_views(h: Seq<(String, u32, String)>) -> Seq<(Seq<char>, u32, Seq<char>)> {
    h.map_values(|x: (String, u32, String)| (x.0@, x.1, x.2@))
}

/// The model stop times of the records of trip `trip`, in record order.
pub open spec fn stop_times_of(records: Seq<StopTime>, trip: Seq<char>) -> Seq<objects::StopTime>
    decreases records.len(),
{
    if records.len() == 0 {
        Seq::empty()
    } else {
        let prev = stop_times_of(records.drop_last(), trip);
        if records.last().trip_id@ == trip {
            prev.push(model_stop_time(records.last()))
        } else {
            prev
        }
    }
}

/// Every record names a stop point and a vehicle journey.
pub open spec fn stop_time_records_resolve(
    records: Seq<StopTime>,
    sps: Seq<StopPoint>,
    vjs: Seq<VehicleJourney>,
) -> bool {
    forall|k: int| 0 <= k < records.len() ==> ids_of(sps).contains(#[trigger] records[k].stop_id@)
        && ids_of(vjs).contains(records[k].trip_id@)
}

/// `b` is vehicle journey `a` with the stop times of its records added, all
/// in order of sequence.
pub open spec fn with_stop_times(a: VehicleJourney, b: VehicleJourney, records: Seq<StopTime>) -> bool {
    &&& b.id == a.id
    &&& b.route_id == a.route_id
    &&& b.physical_mode_id == a.physical_mode_id
    &&& b.dataset_id == a.dataset_id
    &&& b.company_id == a.company_id
    &&& b.service_id == a.service_id
    &&& b.stop_times@.to_multiset() == (a.stop_times@ + stop_times_of(records, a.id@)).to_multiset()
    &&& sorted_by_sequence(b.stop_times@)
}

/// The collections `a` and `b` agree but for their vehicle journeys and
/// stop-time headsigns.
pub open spec fn same_but_vehicle_journeys(a: Collections, b: Collections) -> bool {
    &&& a.contributors == b.contributors
    &&& a.datasets == b.datasets
    &&& a.networks == b.networks
    &&& a.commercial_modes == b.commercial_modes
    &&& a.lines == b.lines
    &&& a.routes == b.routes
    &&& a.physical_modes == b.physical_modes
    &&& a.stop_areas == b.stop_areas
    &&& a.stop_points == b.stop_points
    &&& a.calendars == b.calendars
    &&& a.companies == b.companies
    &&& a.comments == b.comments
    &&& a.equipments == b.equipments
    &&& a.trip_properties == b.trip_properties
    &&& a.transfers == b.transfers
    &&& a.admin_stations == b.admin_stations
    &&& a.feed_infos == b.feed_infos
}

/// Adds the stop times of `stop_times` to their vehicle journeys, then
/// orders the stop times of every vehicle journey by sequence; the
/// headsigns of the records become the stop-time headsigns. Fails,
/// changing nothing, on the first record that names no stop point or no
/// vehicle journey.
#[verifier::spinoff_prover]
pub fn manage_stop_times(collections: &mut Collections, stop_times: &Vec<StopTime>) -> (r: Result<(), Error>)
    ensures
        r.is_ok() <==> stop_time_records_resolve(
            stop_times@,
            old(collections).stop_points@,
            old(collections).vehicle_journeys@,
        ),
        r is Err ==> *final(collections) == *old(collections),
        r matches Err(e) ==> exists|k: int| 0 <= k < stop_times@.len() && {
            ||| !ids_of(old(collections).stop_points@).contains(#[trigger] stop_times@[k].stop_id@)
                && e.is_dangling("stop_times_to_stop_points"@, stop_times@[k].stop_id@)
            ||| !ids_of(old(collections).vehicle_journeys@).contains(stop_times@[k].trip_id@)
                && e.is_dangling("stop_times_to_vehicle_journeys"@, stop_times@[k].trip_id@)
        },
        r is Ok ==> {
            &&& same_but_vehicle_journeys(*old(collections), *final(collections))
            &&& final(collections).vehicle_journeys@.len() == old(collections).vehicle_journeys@.len()
            &&& forall|v: int| 0 <= v < old(collections).vehicle_journeys@.len() ==> with_stop_times(
                old(collections).vehicle_journeys@[v],
                #[trigger] final(collections).vehicle_journeys@[v],
                stop_times@,
            )
        },
{
    let mut k: usize = 0;
    while k < stop_times.len()
        invariant
            k <= stop_times@.len(),
            *collections == *old(collections),
            forall|j: int| 0 <= j < k ==> ids_of(collections.stop_points@).contains(#[trigger] stop_times@[j].stop_id@)
                && ids_of(collections.vehicle_journeys@).contains(stop_times@[j].trip_id@),
        decreases stop_times@.len() - k,
    {
        let record = &stop_times[k];
        if collections.stop_points.get_idx(record.stop_id.as_str()).is_none() {
            return Err(Error::ReferentialIntegrity {
                relation: "stop_times_to_stop_points".to_owned(),
                id: record.stop_id.clone(),
            });
        }
        if collections.vehicle_journeys.get_idx(record.trip_id.as_str()).is_none() {
            return Err(Error::ReferentialIntegrity {
                relation: "stop_times_to_vehicle_journeys".to_owned(),
                id: record.trip_id.clone(),
            });
        }
        proof {
            assert forall|j: int| 0 <= j < k + 1 implies ids_of(collections.stop_points@).contains(#[trigger] stop_times@[j].stop_id@)
                && ids_of(collections.vehicle_journeys@).contains(stop_times@[j].trip_id@) by {
                if j < k {
                    assert(ids_of(collections.stop_points@).contains(stop_times@[j].stop_id@));
                }
            }
        }
        k = k + 1;
    }
    let vjs = collections.vehicle_journeys.take();
    let ghost all = vjs@;
    let mut rev = reversed(vjs);
    let mut out: Vec<VehicleJourney> = Vec::new();
    while rev.len() > 0
        invariant
            out@.len() + rev@.len() == all.len(),
            all == old(collections).vehicle_journeys@,
            ids_of(all).no_duplicates(),
            forall|j: int| 0 <= j < rev@.len() ==> rev@[j] == all[all.len() - 1 - j],
            forall|j: int| 0 <= j < out@.len() ==> with_stop_times(all[j], #[trigger] out@[j], stop_times@),
            same_but_vehicle_journeys(*old(collections), *collections),
        decreases rev@.len(),
    {
        let mut vj = rev.pop().unwrap();
        let ghost original = vj;
        proof {
            assert(original == all[out@.len() as int]);
        }
        let mut sts: Vec<objects::StopTime> = Vec::new();
        std::mem::swap(&mut sts, &mut vj.stop_times);
        let mut k: usize = 0;
        while k < stop_times.len()
            invariant
                k <= stop_times@.len(),
                vj.id == original.id,
                sts@ == original.stop_times@ + stop_times_of(stop_times@.take(k as int), original.id@),
            decreases stop_times@.len() - k,
        {
            proof {
                assert(stop_times@.take(k + 1).drop_last() =~= stop_times@.take(k as int));
            }
            if stop_times[k].trip_id.eq(&vj.id) {
                sts.push(objects::StopTime {
                    stop_point_id: stop_times[k].stop_id.clone(),
                    sequence: stop_times[k].stop_sequence,
                    arrival_time: stop_times[k].arrival_time,
                    departure_time: stop_times[k].departure_time,
                    boarding_duration: 0,
                    alighting_duration: 0,
                    pickup_type: stop_times[k].pickup_type,
                    drop_off_type: stop_times[k].drop_off_type,
                    datetime_estimated: false,
                    local_zone_id: stop_times[k].local_zone_id,
                });
            }
            proof {
                assert(sts@ =~= original.stop_times@ + stop_times_of(stop_times@.take(k + 1), original.id@));
            }
            k = k + 1;
        }
        proof {
            assert(stop_times@.take(k as int) =~= stop_times@);
        }
        vj.stop_times = sort_by_sequence(sts);
        out.push(vj);
    }
    proof {
        assert(ids_of(out@) =~= ids_of(all)) by {
            assert forall|j: int| 0 <= j < out@.len() implies ids_of(out@)[j] == ids_of(all)[j] by {
                assert(with_stop_times(all[j], out@[j], stop_times@));
            }
        }
    }
    collections.vehicle_journeys = match CollectionWithId::new(out) {
        Ok(c) => c,
        Err(e) => return Err(e),
    };
    let mut headsigns: Vec<(String, u32, String)> = Vec::new();
    let mut k: usize = 0;
    proof {
        assert(headsign_views(headsigns@) =~= headsigns_of(stop_times@.take(0)));
    }
    while k < stop_times.len()
        invariant
            k <= stop_times@.len(),
            headsign_views(headsigns@) == headsigns_of(stop_times@.take(k as int)),
        decreases stop_times@.len() - k,
    {
        proof {
            assert(stop_times@.take(k + 1).drop_last() =~= stop_times@.take(k as int));
        }
        let ghost h0 = headsigns@;
        if let Some(h) = &stop_times[k].stop_headsign {
            headsigns.push((stop_times[k].trip_id.clone(), stop_times[k].stop_sequence, h.clone()));
            proof {
                assert(headsign_views(headsigns@) =~= headsign_views(h0).push(
                    (stop_times@[k as int].trip_id@, stop_times@[k as int].stop_sequence, h@)));
            }
        }
        proof {
            assert(headsign_views(headsigns@) =~= headsigns_of(stop_times@.take(k + 1)));
        }
        k = k + 1;
    }
    proof {
        assert(stop_times@.take(k as int) =~= stop_times@);
    }
    collections.stop_time_headsigns = headsigns;
    Ok(())
}

/// The collections `a` and `b` agree but for the modes, lines, routes and
/// vehicle journeys that the route records give.
pub open spec fn same_but_route_data(a: Collections, b: Collections) -> bool {
    &&& a.contributors == b.contributors
    &&& a.datasets == b.datasets
    &&& a.networks == b.networks
    &&& a.stop_areas == b.stop_areas
    &&& a.stop_points == b.stop_points
    &&& a.calendars == b.calendars
    &&& a.companies == b.companies
    &&& a.comments == b.comments
    &&& a.equipments == b.equipments
    &&& a.transfers == b.transfers
    &&& a.admin_stations == b.admin_stations
    &&& a.feed_infos == b.feed_infos
    &&& a.stop_time_headsigns == b.stop_time_headsigns
}

/// The identifiers of the model routes made from `rs` are distinct.
pub open spec fn route_ids_distinct(rs: Seq<Route>, trips: Seq<Trip>) -> bool {
    expected_routes(rs, trips, rs.len() as int).map_values(
        |t: (Seq<char>, Seq<char>, Option<Seq<char>>, Seq<char>)| t.0,
    ).no_duplicates()
}

/// The identifiers of `trips` are distinct.
pub open spec fn trip_ids_distinct(trips: Seq<Trip>) -> bool {
    trips.map_values(|t: Trip| t.id@).no_duplicates()
}

/// The network of every route that gives rise to a line can be told.
pub open spec fn lines_resolve(rs: Seq<Route>, trips: Seq<Trip>, networks: Seq<Network>) -> bool {
    forall|i: int| #[trigger] makes_line(rs, trips, i) ==> agency_resolves(rs[i], networks)
}

/// Every trip runs on a known route whose network can be told.
pub open spec fn trips_resolve(rs: Seq<Route>, trips: Seq<Trip>, networks: Seq<Network>) -> bool {
    forall|t: int| 0 <= t < trips.len() ==> trip_resolves(rs, networks, #[trigger] trips[t])
}

/// The route and trip records can be imported against `networks` and
/// `n_datasets` datasets.
pub open spec fn routes_import_ok(rs: Seq<Route>, trips: Seq<Trip>, networks: Seq<Network>, n_datasets: nat) -> bool {
    &&& ids_of(rs).no_duplicates()
    &&& lines_resolve(rs, trips, networks)
    &&& route_ids_distinct(rs, trips)
    &&& n_datasets > 0
    &&& trips_resolve(rs, trips, networks)
    &&& trip_ids_distinct(trips)
}

/// Fills the modes, lines, routes, vehicle journeys and trip properties of
/// `collections`
/// from the route and trip records of a feed, against its networks and its
/// first dataset. The checks come in this order, the first that fails
/// giving the error: route identifiers distinct; the network of every route
/// giving rise to a line can be told; model route identifiers distinct; a
/// dataset exists; every trip runs on a known route whose network can be
/// told; trip identifiers distinct.
#[verifier::spinoff_prover]
pub fn read_routes(gtfs_routes: Vec<Route>, gtfs_trips: &Vec<Trip>, collections: &mut Collections) -> (r: Result<(), Error>)
    ensures
        same_but_route_data(*old(collections), *final(collections)),
        r.is_ok() <==> routes_import_ok(
            gtfs_routes@,
            gtfs_trips@,
            old(collections).networks@,
            old(collections).datasets@.len(),
        ),
        r is Ok ==> {
            let c = *final(collections);
            let rs = gtfs_routes@;
            &&& forall|k: int| 0 <= k < c.commercial_modes@.len() ==> #[trigger] commercial_mode_made(c.commercial_modes@[k], rs)
            &&& forall|i: int| 0 <= i < rs.len() ==> has_commercial_mode(c.commercial_modes@, (#[trigger] rs[i]).route_type)
            &&& forall|k: int| 0 <= k < c.physical_modes@.len() ==> #[trigger] physical_mode_made(c.physical_modes@[k], rs)
            &&& forall|i: int| 0 <= i < rs.len() ==> has_physical_mode(c.physical_modes@, (#[trigger] rs[i]).route_type)
            &&& forall|k: int, m: int| 0 <= k < m < c.physical_modes@.len()
                ==> id_before(c.physical_modes@[k].id@, c.physical_modes@[m].id@)
            &&& forall|k: int| 0 <= k < c.lines@.len() ==> #[trigger] line_made(c.lines@[k], rs, gtfs_trips@, c.networks@)
            &&& forall|i: int| #[trigger] makes_line(rs, gtfs_trips@, i) ==>
                exists|k: int| 0 <= k < c.lines@.len() && c.lines@[k].id@ == rs[i].id@
            &&& c.routes@.map_values(|o: objects::Route| route_view(o)) == expected_routes(rs, gtfs_trips@, rs.len() as int)
            &&& c.vehicle_journeys@.len() == gtfs_trips@.len()
            &&& forall|t: int| 0 <= t < gtfs_trips@.len() ==> vehicle_journey_from(
                #[trigger] c.vehicle_journeys@[t],
                gtfs_trips@[t],
                route_of_trip(rs, gtfs_trips@[t]),
                c.datasets@[0],
                c.networks@,
            )
            &&& forall|t: int| 0 <= t < gtfs_trips@.len() ==> opt_view((#[trigger] c.vehicle_journeys@[t]).trip_property_id)
                == property_id_of(gtfs_trips@, t)
            &&& c.trip_properties@.len() == property_pairs(gtfs_trips@).len()
            &&& forall|k: int| 0 <= k < c.trip_properties@.len() ==> {
                &&& (#[trigger] c.trip_properties@[k]).id@ == decimal((k + 1) as nat)
                &&& (c.trip_properties@[k].wheelchair_accessible, c.trip_properties@[k].bike_accepted)
                    == property_pairs(gtfs_trips@)[k]
            }
        },
        r matches Err(e) ==> {
            let rs = gtfs_routes@;
            let networks = old(collections).networks@;
            if !ids_of(rs).no_duplicates() {
                e is DuplicateId
            } else if !lines_resolve(rs, gtfs_trips@, networks) {
                e.is_ambiguous("agency_id"@, networks.len())
            } else if !route_ids_distinct(rs, gtfs_trips@) {
                e is DuplicateId
            } else if old(collections).datasets@.len() == 0 {
                e is NoDataset
            } else if !trips_resolve(rs, gtfs_trips@, networks) {
                exists|t: int| {
                    &&& 0 <= t < gtfs_trips@.len()
                    &&& forall|k: int| 0 <= k < t ==> trip_resolves(rs, networks, #[trigger] gtfs_trips@[k])
                    &&& !trip_resolves(rs, networks, gtfs_trips@[t])
                    &&& trip_error(rs, networks, gtfs_trips@[t], e)
                }
            } else {
                e is DuplicateId
            }
        },
{
    let ghost rs = gtfs_routes@;
    let routes = match CollectionWithId::new(gtfs_routes) {
        Ok(c) => c,
        Err(e) => return Err(e),
    };
    let (commercial_modes, physical_modes) = get_modes_from_gtfs(&routes);
    collections.commercial_modes = match CollectionWithId::new(commercial_modes) {
        Ok(c) => c,
        Err(e) => return Err(e),
    };
    collections.physical_modes = match CollectionWithId::new(physical_modes) {
        Ok(c) => c,
        Err(e) => return Err(e),
    };
    let lines = match make_lines(gtfs_trips, &routes, &collections.networks) {
        Ok(l) => l,
        Err(e) => return Err(e),
    };
    collections.lines = match CollectionWithId::new(lines) {
        Ok(c) => c,
        Err(e) => return Err(e),
    };
    let model_routes = make_routes(gtfs_trips, &routes);
    proof {
        let ex = expected_routes(rs, gtfs_trips@, rs.len() as int);
        assert(ids_of(model_routes@) =~= ex.map_values(
            |t: (Seq<char>, Seq<char>, Option<Seq<char>>, Seq<char>)| t.0)) by {
            assert forall|k: int| 0 <= k < model_routes@.len() implies ids_of(model_routes@)[k] == ex[k].0 by {
                assert(model_routes@.map_values(|o: objects::Route| route_view(o))[k] == ex[k]);
            }
        }
    }
    collections.routes = match CollectionWithId::new(model_routes) {
        Ok(c) => c,
        Err(e) => return Err(e),
    };
    let (vehicle_journeys, trip_properties) = match make_ntfs_vehicle_journeys(
        gtfs_trips,
        &routes,
        &collections.datasets,
        &collections.networks,
    ) {
        Ok(v) => v,
        Err(e) => return Err(e),
    };
    proof {
        assert(ids_of(vehicle_journeys@) =~= gtfs_trips@.map_values(|t: Trip| t.id@)) by {
            assert forall|k: int| 0 <= k < vehicle_journeys@.len() implies
                ids_of(vehicle_journeys@)[k] == gtfs_trips@[k].id@ by {
                assert(vehicle_journey_from(vehicle_journeys@[k], gtfs_trips@[k], route_of_trip(rs, gtfs_trips@[k]),
                    collections.datasets@[0], collections.networks@));
            }
        }
    }
    collections.vehicle_journeys = match CollectionWithId::new(vehicle_journeys) {
        Ok(c) => c,
        Err(e) => return Err(e),
    };
    proof {
        assert forall|a: int, b: int| 0 <= a < ids_of(trip_properties@).len() && 0 <= b < ids_of(trip_properties@).len()
            && a != b implies ids_of(trip_properties@)[a] != ids_of(trip_properties@)[b] by {
            if ids_of(trip_properties@)[a] == ids_of(trip_properties@)[b] {
                assert(trip_properties@[a].id@ == decimal((a + 1) as nat));
                assert(trip_properties@[b].id@ == decimal((b + 1) as nat));
                lemma_decimal_injective((a + 1) as nat, (b + 1) as nat);
            }
        }
    }
    collections.trip_properties = match CollectionWithId::new(trip_properties) {
        Ok(c) => c,
        Err(e) => return Err(e),
    };
    proof {
        let c = *collections;
        assert(routes@ == rs);
        assert(forall|k: int| 0 <= k < c.commercial_modes@.len() ==> #[trigger] commercial_mode_made(c.commercial_modes@[k], rs));
        assert(forall|i: int| 0 <= i < rs.len() ==> has_commercial_mode(c.commercial_modes@, (#[trigger] rs[i]).route_type));
        assert(forall|k: int| 0 <= k < c.physical_modes@.len() ==> #[trigger] physical_mode_made(c.physical_modes@[k], rs));
        assert(forall|i: int| 0 <= i < rs.len() ==> has_physical_mode(c.physical_modes@, (#[trigger] rs[i]).route_type));
        assert(forall|k: int| 0 <= k < c.lines@.len() ==> #[trigger] line_made(c.lines@[k], rs, gtfs_trips@, c.networks@));
        assert(c.routes@.map_values(|o: objects::Route| route_view(o)) == expected_routes(rs, gtfs_trips@, rs.len() as int));
        assert(c.vehicle_journeys@.len() == gtfs_trips@.len());
    }
    Ok(())
}

/// The equipment values met so far, after meeting `w`: unchanged when met
/// before, else with `w` added last.
pub open spec fn with_equipment(s: Seq<Availability>, w: Availability) -> Seq<Availability> {
    if s.contains(w) {
        s
    } else {
        s.push(w)
    }
}

/// The identifier of equipment value `w` once met after `s`: its rank,
/// from 0, in order of first meeting.
pub open spec fn equipment_id(s: Seq<Availability>, w: Availability) -> Seq<char> {
    decimal(with_equipment(s, w).index_of(w) as nat)
}

/// The equipments met while reading stops, each once, numbered from 0 in
/// order of first meeting.
pub struct EquipmentList {
    values: Vec<Availability>,
}

impl View for EquipmentList {
    type V = Seq<Availability>;

    closed spec fn view(&self) -> Seq<Availability> {
        self.values@
    }
}

/// Some equipment of `r` has identifier `k` and value `w`.
pub open spec fn lists_equipment(r: Seq<Equipment>, k: nat, w: Availability) -> bool {
    exists|j: int| 0 <= j < r.len() && r[j].id@ == decimal(k) && r[j].wheelchair_boarding == w
}

/// Equipment `e` is the `k`-th of `vals`, with identifier `k`, for some `k`.
pub open spec fn known_equipment(e: Equipment, vals: Seq<Availability>) -> bool {
    exists|k: int| 0 <= k < vals.len() && e.id@ == decimal(k as nat) && e.wheelchair_boarding == vals[k]
}

/// `v` is in order of identifier.
pub open spec fn sorted_by_id(v: Seq<Equipment>) -> bool {
    forall|i: int, j: int| 0 <= i < j < v.len() ==> !id_before(v[j].id@, v[i].id@)
}

/// The equipments of `v`, in order of identifier.
fn sort_by_id(v: Vec<Equipment>) -> (r: Vec<Equipment>)
    ensures
        r@.to_multiset() == v@.to_multiset(),
        sorted_by_id(r@),
{
    let ghost all = v@;
    let mut rest = v;
    let mut out: Vec<Equipment> = Vec::new();
    proof {
        out@.to_multiset_ensures();
        assert(out@.to_multiset() =~= Multiset::<Equipment>::empty()) by {
            assert forall|a: Equipment| out@.to_multiset().count(a) == 0 by {
                assert(!out@.contains(a));
            }
        }
        assert(out@.to_multiset().add(rest@.to_multiset()) =~= all.to_multiset());
    }
    while rest.len() > 0
        invariant
            out@.to_multiset().add(rest@.to_multiset()) == all.to_multiset(),
            sorted_by_id(out@),
        decreases rest@.len(),
    {
        let ghost rest0 = rest@;
        let x = rest.pop().unwrap();
        proof {
            assert(rest0 == rest@.push(x));
        }
        let mut p: usize = 0;
        while p < out.len() && !id_less(&x.id, &out[p].id)
            invariant
                p <= out@.len(),
                forall|q: int| 0 <= q < p ==> !id_before(x.id@, out@[q].id@),
            decreases out@.len() - p,
        {
            p = p + 1;
        }
        let ghost out0 = out@;
        out.insert(p, x);
        proof {
            out@.to_multiset_ensures();
            rest@.to_multiset_ensures();
            assert(out@.remove(p as int) =~= out0);
            assert(out@[p as int] == x);
            assert(out@.remove(p as int).to_multiset() == out@.to_multiset().remove(x));
            assert(out@.contains(x));
            assert(out@.to_multiset() =~= out0.to_multiset().insert(x));
            assert(rest0.to_multiset() =~= rest@.to_multiset().insert(x)) by {
                assert(rest@.push(x).to_multiset() =~= rest@.to_multiset().insert(x));
            }
            assert(out@.to_multiset().add(rest@.to_multiset()) =~= all.to_multiset());
            assert forall|i: int, j: int| 0 <= i < j < out@.len() implies !id_before(out@[j].id@, out@[i].id@) by {
                if j < p {
                } else if i < p && j == p {
                } else if i < p && j > p {
                    assert(out@[j] == out0[j - 1]);
                    if id_before(out0[j - 1].id@, out0[i].id@) {
                    }
                } else if i == p {
                    assert(out@[j] == out0[j - 1]);
                    if id_before(out0[j - 1].id@, x.id@) {
                        if j - 1 > p {
                            lemma_id_before_transitive(out0[j - 1].id@, x.id@, out0[p as int].id@);
                        } else {
                            lemma_id_before_transitive(out0[p as int].id@, x.id@, out0[p as int].id@);
                            lemma_id_before_irreflexive(out0[p as int].id@);
                        }
                    }
                } else {
                    assert(out@[i] == out0[i - 1]);
                    assert(out@[j] == out0[j - 1]);
                }
            }
        }
    }
    proof {
        assert(rest@ =~= Seq::<Equipment>::empty());
        rest@.to_multiset_ensures();
        assert(rest@.to_multiset() =~= Multiset::<Equipment>::empty()) by {
            assert forall|a: Equipment| rest@.to_multiset().count(a) == 0 by {
                assert(!rest@.contains(a));
            }
        }
        assert(out@.to_multiset() =~= all.to_multiset());
    }
    out
}

impl EquipmentList {
    #[verifier::type_invariant]
    closed spec fn inv(&self) -> bool {
        self.values@.no_duplicates()
    }

    /// No equipment met yet.
    pub fn new() -> (r: Self)
        ensures
            r@ == Seq::<Availability>::empty(),
    {
        EquipmentList { values: Vec::new() }
    }

    /// The identifier of `equipment`, which is added when not met before;
    /// only its wheelchair boarding tells equipments apart.
    pub fn push(&mut self, equipment: Equipment) -> (r: String)
        ensures
            final(self)@ == with_equipment(old(self)@, equipment.wheelchair_boarding),
            r@ == equipment_id(old(self)@, equipment.wheelchair_boarding),
    {
        proof {
            use_type_invariant(&*self);
        }
        let w = equipment.wheelchair_boarding;
        let mut p: usize = 0;
        while p < self.values.len() && self.values[p] != w
            invariant
                p <= self.values@.len(),
                forall|q: int| 0 <= q < p ==> self.values@[q] != w,
            decreases self.values@.len() - p,
        {
            p = p + 1;
        }
        if p == self.values.len() {
            let mut values: Vec<Availability> = Vec::new();
            std::mem::swap(&mut values, &mut self.values);
            let ghost v0 = values@;
            proof {
                assert(!v0.contains(w));
            }
            values.push(w);
            proof {
                assert forall|a: int, b: int| 0 <= a < values@.len() && 0 <= b < values@.len() && a != b
                    implies values@[a] != values@[b] by {
                    if a == p as int {
                        assert(v0[b] != w);
                    } else if b == p as int {
                        assert(v0[a] != w);
                    }
                }
                lemma_index_of_unique(values@, p as int);
            }
            self.values = values;
        } else {
            proof {
                assert(self.values@.contains(w));
                lemma_index_of_unique(self.values@, p as int);
            }
        }
        decimal_string(p as u64)
    }

    /// The equipments met, in order of identifier: the `k`-th met has
    /// identifier `k`.
    pub fn into_equipments(self) -> (r: Vec<Equipment>)
        ensures
            r@.len() == self@.len(),
            sorted_by_id(r@),
            forall|k: int| 0 <= k < self@.len() ==> lists_equipment(r@, k as nat, #[trigger] self@[k]),
            forall|j: int| 0 <= j < r@.len() ==> known_equipment(#[trigger] r@[j], self@),
    {
        let ghost vals = self@;
        let mut eqs: Vec<Equipment> = Vec::new();
        let mut k: usize = 0;
        while k < self.values.len()
            invariant
                k <= self.values@.len(),
                vals == self.values@,
                eqs@.len() == k,
                forall|q: int| 0 <= q < k ==> (#[trigger] eqs@[q]).id@ == decimal(q as nat)
                    && eqs@[q].wheelchair_boarding == vals[q],
            decreases self.values@.len() - k,
        {
            eqs.push(Equipment { id: decimal_string(k as u64), wheelchair_boarding: self.values[k] });
            k = k + 1;
        }
        let ghost before = eqs@;
        let r = sort_by_id(eqs);
        proof {
            r@.to_multiset_ensures();
            before.to_multiset_ensures();
            assert forall|q: int| 0 <= q < vals.len() implies lists_equipment(r@, q as nat, #[trigger] vals[q]) by {
                assert(before.contains(before[q]));
                assert(r@.to_multiset().count(before[q]) > 0);
                assert(r@.contains(before[q]));
                let j = choose|j: int| 0 <= j < r@.len() && r@[j] == before[q];
                assert(r@[j].id@ == decimal(q as nat) && r@[j].wheelchair_boarding == vals[q]);
            }
            assert forall|j: int| 0 <= j < r@.len() implies known_equipment(#[trigger] r@[j], vals) by {
                assert(r@.contains(r@[j]));
                assert(before.to_multiset().count(r@[j]) > 0);
                assert(before.contains(r@[j]));
                let q = choose|q: int| 0 <= q < before.len() && before[q] == r@[j];
                assert(r@[j].id@ == decimal(q as nat) && r@[j].wheelchair_boarding == vals[q]);
            }
        }
        r
    }
}

/// How a GTFS transfer may be made.
#[derive(Debug, Clone, Copy, PartialEq, Eq)]
pub enum TransferType {
    Recommended,
    Timed,
    WithTransferTime,
    NotPossible,
}

/// A transfer record of a GTFS feed.
#[derive(Debug, Clone, PartialEq, Eq)]
pub struct TransferRecord {
    pub from_stop_id: String,
    pub to_stop_id: String,
    pub transfer_type: TransferType,
    pub min_transfer_time: Option<u32>,
}

/// The minimal and real minimal transfer times of a record of type `t`,
/// given its own minimal time and the walking time between its stops.
pub open spec fn transfer_times(t: TransferType, min: Option<u32>, walking: u32) -> (Option<u32>, Option<u32>) {
    match t {
        TransferType::Recommended => (
            Some(walking),
            Some(if walking <= u32::MAX - 120 { (walking + 120) as u32 } else { u32::MAX }),
        ),
        TransferType::Timed => (Some(0), Some(0)),
        TransferType::WithTransferTime => (min, min),
        TransferType::NotPossible => (Some(86400), Some(86400)),
    }
}

/// A transfer seen as its two stops and its two times.
pub type TransferView = (Seq<char>, Seq<char>, Option<u32>, Option<u32>);

/// The transfers made from the first `n` records: one per record whose two
/// stops are known, in order; the others are skipped.
pub open spec fn expected_transfers(
    records: Seq<TransferRecord>,
    walking: Seq<u32>,
    sps: Seq<StopPoint>,
    n: int,
) -> Seq<TransferView>
    decreases n,
{
    if n <= 0 {
        Seq::empty()
    } else {
        let prev = expected_transfers(records, walking, sps, n - 1);
        let r = records[n - 1];
        if ids_of(sps).contains(r.from_stop_id@) && ids_of(sps).contains(r.to_stop_id@) {
            let times = transfer_times(r.transfer_type, r.min_transfer_time, walking[n - 1]);
            prev.push((r.from_stop_id@, r.to_stop_id@, times.0, times.1))
        } else {
            prev
        }
    }
}

/// Makes the transfers of `records` between known stop points; a record
/// naming an unknown stop is skipped. `walking[k]` is the walking time, in
/// seconds, between the stops of `records[k]`, used by recommended
/// transfers; the real minimal time adds two minutes to it.
pub fn read_transfers(
    records: &Vec<TransferRecord>,
    walking: &Vec<u32>,
    stop_points: &CollectionWithId<StopPoint>,
) -> (r: Collection<Transfer>)
    requires
        walking@.len() == records@.len(),
    ensures
        r@.map_values(|t: Transfer| transfer_view(t))
            == expected_transfers(records@, walking@, stop_points@, records@.len() as int),
{
    let mut out: Vec<Transfer> = Vec::new();
    let mut k: usize = 0;
    proof {
        assert(out@.map_values(|t: Transfer| transfer_view(t)) =~= expected_transfers(records@, walking@, stop_points@, 0));
    }
    while k < records.len()
        invariant
            k <= records@.len(),
            walking@.len() == records@.len(),
            out@.map_values(|t: Transfer| transfer_view(t)) == expected_transfers(records@, walking@, stop_points@, k as int),
        decreases records@.len() - k,
    {
        let rec = &records[k];
        let ghost out0 = out@;
        let known = stop_points.get_idx(rec.from_stop_id.as_str()).is_some()
            && stop_points.get_idx(rec.to_stop_id.as_str()).is_some();
        if known {
            let w = walking[k];
            let (min, real_min) = match rec.transfer_type {
                TransferType::Recommended => {
                    let with_margin = if w <= u32::MAX - 120 { w + 120 } else { u32::MAX };
                    (Some(w), Some(with_margin))
                },
                TransferType::Timed => (Some(0), Some(0)),
                TransferType::WithTransferTime => (rec.min_transfer_time, rec.min_transfer_time),
                TransferType::NotPossible => (Some(86400), Some(86400)),
            };
            out.push(Transfer {
                from_stop_id: rec.from_stop_id.clone(),
                to_stop_id: rec.to_stop_id.clone(),
                min_transfer_time: min,
                real_min_transfer_time: real_min,
            });
            proof {
                assert(out@.map_values(|t: Transfer| transfer_view(t)) =~= out0.map_values(|t: Transfer| transfer_view(t)).push(
                    (rec.from_stop_id@, rec.to_stop_id@, min, real_min)));
            }
        }
        proof {
            assert(out@.map_values(|t: Transfer| transfer_view(t)) =~= expected_transfers(records@, walking@, stop_points@, k + 1));
        }
        k = k + 1;
    }
    Collection::new(out)
}

/// A transfer seen as its two stops and its two times.
pub open spec fn transfer_view(t: Transfer) -> TransferView {
    (t.from_stop_id@, t.to_stop_id@, t.min_transfer_time, t.real_min_transfer_time)
}

/// The contributor and dataset of a feed: those of its configuration, or
/// the default ones when it has none.
pub fn read_config(config: Option<(Contributor, String)>) -> (r: (CollectionWithId<Contributor>, CollectionWithId<Dataset>))
    ensures
        r.0@.len() == 1,
        r.1@.len() == 1,
        match config {
            Some((c, d)) => r.0@[0] == c && r.1@[0].id@ == d@ && r.1@[0].contributor_id@ == c.id@,
            None => {
                &&& r.0@[0].id@ == "default_contributor"@
                &&& r.0@[0].name@ == "Default contributor"@
                &&& r.1@[0].id@ == "default_dataset"@
                &&& r.1@[0].contributor_id@ == "default_contributor"@
            },
        },
{
    let (contributor, dataset_id) = match config {
        Some((c, d)) => (c, d),
        None => (
            Contributor { id: "default_contributor".to_owned(), name: "Default contributor".to_owned() },
            "default_dataset".to_owned(),
        ),
    };
    let dataset = Dataset { id: dataset_id, contributor_id: contributor.id.clone(), start_date: 0, end_date: 0 };
    let mut contributors = CollectionWithId::empty();
    let mut datasets = CollectionWithId::empty();
    // Into empty collections, neither push can fail.
    match contributors.push(contributor) {
        Ok(_) => {},
        Err(_) => {},
    }
    match datasets.push(dataset) {
        Ok(_) => {},
        Err(_) => {},
    }
    proof {
        assert(!ids_of(Seq::<Contributor>::empty()).contains(contributors@[0].id@));
    }
    (contributors, datasets)
}

/// Some calendar of `cals` holds day `d`.
pub open spec fn calendar_day(cals: Seq<Calendar>, d: u32) -> bool {
    exists|i: int, k: int| 0 <= i < cals.len() && 0 <= k < cals[i].dates@.len() && cals[i].dates@[k] == d
}

/// Every day of every calendar of `cals` lies between `start` and `end`.
pub open spec fn days_within(cals: Seq<Calendar>, start: u32, end: u32) -> bool {
    forall|i: int, k: int| 0 <= i < cals.len() && 0 <= k < cals[i].dates@.len()
        ==> start <= #[trigger] cals[i].dates@[k] <= end
}

/// Sets the validity period of every dataset to the span of the days of
/// `calendars`, from the first to the last; with no day at all, the datasets
/// are left as they are.
pub fn set_dataset_validity_period(datasets: &mut CollectionWithId<Dataset>, calendars: &CollectionWithId<Calendar>)
    ensures
        (exists|d: u32| calendar_day(calendars@, d)) ==> {
            &&& final(datasets)@.len() == old(datasets)@.len()
            &&& forall|k: int| 0 <= k < final(datasets)@.len() ==> {
                &&& (#[trigger] final(datasets)@[k]).id == old(datasets)@[k].id
                &&& final(datasets)@[k].contributor_id == old(datasets)@[k].contributor_id
                &&& calendar_day(calendars@, final(datasets)@[k].start_date)
                &&& calendar_day(calendars@, final(datasets)@[k].end_date)
                &&& days_within(calendars@, final(datasets)@[k].start_date, final(datasets)@[k].end_date)
            }
        },
        !(exists|d: u32| calendar_day(calendars@, d)) ==> final(datasets)@ == old(datasets)@,
{
    let cals = calendars.values();
    let mut span: Option<(u32, u32)> = None;
    let mut i: usize = 0;
    while i < cals.len()
        invariant
            i <= cals@.len(),
            cals@ == calendars@,
            span is None ==> forall|i0: int| 0 <= i0 < i ==> (#[trigger] cals@[i0]).dates@.len() == 0,
            span matches Some((lo, hi)) ==> calendar_day(cals@, lo) && calendar_day(cals@, hi)
                && forall|i0: int, k: int| 0 <= i0 < i && 0 <= k < cals@[i0].dates@.len()
                    ==> lo <= #[trigger] cals@[i0].dates@[k] <= hi,
        decreases cals@.len() - i,
    {
        let dates = &cals[i].dates;
        let mut k: usize = 0;
        while k < dates.len()
            invariant
                i < cals@.len(),
                k <= dates@.len(),
                *dates == cals@[i as int].dates,
                span is None ==> forall|i0: int| 0 <= i0 < i ==> (#[trigger] cals@[i0]).dates@.len() == 0,
                span is None ==> k == 0,
                span matches Some((lo, hi)) ==> calendar_day(cals@, lo) && calendar_day(cals@, hi)
                    && (forall|i0: int, k0: int| 0 <= i0 < i && 0 <= k0 < cals@[i0].dates@.len()
                        ==> lo <= #[trigger] cals@[i0].dates@[k0] <= hi)
                    && (forall|k0: int| 0 <= k0 < k ==> lo <= #[trigger] dates@[k0] <= hi),
            decreases dates@.len() - k,
        {
            let d = dates[k];
            proof {
                assert(cals@[i as int].dates@[k as int] == d);
                assert(calendar_day(cals@, d));
            }
            span = match span {
                None => Some((d, d)),
                Some((lo, hi)) => Some((if d < lo { d } else { lo }, if d > hi { d } else { hi })),
            };
            k = k + 1;
        }
        proof {
            assert forall|i0: int, k0: int| 0 <= i0 < i + 1 && 0 <= k0 < cals@[i0].dates@.len() && span is Some
                implies span.unwrap().0 <= #[trigger] cals@[i0].dates@[k0] <= span.unwrap().1 by {
                if i0 == i {
                    assert(dates@[k0] == cals@[i0].dates@[k0]);
                }
            }
        }
        i = i + 1;
    }
    match span {
        None => {
            proof {
                assert forall|d: u32| !calendar_day(calendars@, d) by {
                    if calendar_day(calendars@, d) {
                        let (i0, k0) = choose|i0: int, k0: int| 0 <= i0 < cals@.len() && 0 <= k0 < cals@[i0].dates@.len()
                            && cals@[i0].dates@[k0] == d;
                    }
                }
            }
        },
        Some((lo, hi)) => {
            let objects = datasets.take();
            let ghost old_objects = objects@;
            let mut rest = reversed(objects);
            let mut out: Vec<Dataset> = Vec::new();
            while rest.len() > 0
                invariant
                    out@.len() + rest@.len() == old_objects.len(),
                    old_objects == old(datasets)@,
                    forall|j: int| 0 <= j < rest@.len() ==> rest@[j] == old_objects[old_objects.len() - 1 - j],
                    forall|j: int| 0 <= j < out@.len() ==> {
                        &&& (#[trigger] out@[j]).id == old_objects[j].id
                        &&& out@[j].contributor_id == old_objects[j].contributor_id
                        &&& out@[j].start_date == lo
                        &&& out@[j].end_date == hi
                    },
                decreases rest@.len(),
            {
                let mut d = rest.pop().unwrap();
                d.start_date = lo;
                d.end_date = hi;
                out.push(d);
            }
            proof {
                assert(ids_of(out@) =~= ids_of(old_objects)) by {
                    assert forall|j: int| 0 <= j < out@.len() implies ids_of(out@)[j] == ids_of(old_objects)[j] by {
                        assert(out@[j].id == old_objects[j].id);
                    }
                }
            }
            // The identifiers are those of the datasets taken out, so this
            // cannot fail.
            match CollectionWithId::new(out) {
                Ok(c) => {
                    *datasets = c;
                },
                Err(_) => {},
            }
        },
    }
}

/// What a stop record of a GTFS feed stands for.
#[derive(Debug, Clone, Copy, PartialEq, Eq)]
pub enum StopLocationType {
    StopPoint,
    StopArea,
    StopEntrance,
}

/// A stop record of a GTFS feed.
#[derive(Debug, Clone, PartialEq, Eq)]
pub struct Stop {
    pub id: String,
    pub name: String,
    pub code: Option<String>,
    pub parent_station: Option<String>,
    pub location_type: StopLocationType,
    pub wheelchair_boarding: Availability,
}

/// Stop `s` states its wheelchair boarding, and so has an equipment.
pub open spec fn has_equipment(s: Stop) -> bool {
    s.wheelchair_boarding != Availability::InformationNotAvailable
}

/// The equipment values met after `init` once `stops` are read.
pub open spec fn equipments_after(init: Seq<Availability>, stops: Seq<Stop>) -> Seq<Availability>
    decreases stops.len(),
{
    if stops.len() == 0 {
        init
    } else {
        let prev = equipments_after(init, stops.drop_last());
        if has_equipment(stops.last()) {
            with_equipment(prev, stops.last().wheelchair_boarding)
        } else {
            prev
        }
    }
}

/// The equipment identifier of the last of `stops`, read after `init`.
pub open spec fn last_equipment(init: Seq<Availability>, stops: Seq<Stop>) -> Option<Seq<char>> {
    if has_equipment(stops.last()) {
        Some(equipment_id(equipments_after(init, stops.drop_last()), stops.last().wheelchair_boarding))
    } else {
        None
    }
}

/// A stop area seen as identifier, name, codes and equipment.
pub type AreaView = (Seq<char>, Seq<char>, Seq<(Seq<char>, Seq<char>)>, Option<Seq<char>>);

/// A stop point seen as identifier, name, stop area, codes and equipment.
pub type PointView = (Seq<char>, Seq<char>, Seq<char>, Seq<(Seq<char>, Seq<char>)>, Option<Seq<char>>);

/// The views of (system, code) pairs.
pub open spec fn code_views(codes: Seq<(String, String)>) -> Seq<(Seq<char>, Seq<char>)> {
    codes.map_values(|p: (String, String)| (p.0@, p.1@))
}

/// The codes that stop `s` carries: its GTFS stop code, if any.
pub open spec fn stop_codes(s: Stop) -> Seq<(Seq<char>, Seq<char>)> {
    match s.code {
        Some(c) => seq![("gtfs_stop_code"@, c@)],
        None => Seq::empty(),
    }
}

/// The identifier of the stop area made for a stop point without parent.
pub open spec fn generated_area_id(s: Stop) -> Seq<char> {
    "Navitia:"@ + s.id@
}

/// A stop area seen as identifier, name, codes and equipment.
pub open spec fn area_view(a: StopArea) -> AreaView {
    (a.id@, a.name@, code_views(a.codes@), opt_view(a.equipment_id))
}

/// A stop point seen as identifier, name, stop area, codes and equipment.
pub open spec fn point_view(p: StopPoint) -> PointView {
    (p.id@, p.name@, p.stop_area_id@, code_views(p.codes@), opt_view(p.equipment_id))
}

/// The stop points made from `stops`, in order: one per stop point record,
/// in its parent station or else in the stop area made for it.
pub open spec fn expected_points(init: Seq<Availability>, stops: Seq<Stop>) -> Seq<PointView>
    decreases stops.len(),
{
    if stops.len() == 0 {
        Seq::empty()
    } else {
        let prev = expected_points(init, stops.drop_last());
        let s = stops.last();
        match s.location_type {
            StopLocationType::StopPoint => {
                let area = match s.parent_station {
                    Some(p) => p@,
                    None => generated_area_id(s),
                };
                prev.push((s.id@, s.name@, area, stop_codes(s), last_equipment(init, stops)))
            },
            _ => prev,
        }
    }
}

/// The stop areas made from `stops`, in order: one per stop area record,
/// and one, without codes, per stop point record without parent station.
pub open spec fn expected_areas(init: Seq<Availability>, stops: Seq<Stop>) -> Seq<AreaView>
    decreases stops.len(),
{
    if stops.len() == 0 {
        Seq::empty()
    } else {
        let prev = expected_areas(init, stops.drop_last());
        let s = stops.last();
        match s.location_type {
            StopLocationType::StopPoint => match s.parent_station {
                Some(_) => prev,
                None => prev.push((generated_area_id(s), s.name@, Seq::empty(), None)),
            },
            StopLocationType::StopArea => prev.push((s.id@, s.name@, stop_codes(s), last_equipment(init, stops))),
            StopLocationType::StopEntrance => prev,
        }
    }
}

/// The codes of stop `s`.
fn make_codes(s: &Stop) -> (r: Vec<(String, String)>)
    ensures
        code_views(r@) == stop_codes(*s),
{
    let mut codes: Vec<(String, String)> = Vec::new();
    if let Some(c) = &s.code {
        codes.push(("gtfs_stop_code".to_owned(), c.clone()));
    }
    proof {
        assert(code_views(codes@) =~= stop_codes(*s));
    }
    codes
}

/// Makes the stop areas and stop points of `gtfs_stops`. A stop point
/// without parent station gets a stop area of its own, named after it,
/// without codes or equipment. Entrances are skipped. A stop that states
/// its wheelchair boarding gets the equipment of that value, met into
/// `equipments`. Fails when an identifier is made twice.
#[verifier::spinoff_prover]
pub fn read_stops(
    gtfs_stops: &Vec<Stop>,
    equipments: &mut EquipmentList,
) -> (r: Result<(CollectionWithId<StopArea>, CollectionWithId<StopPoint>), Error>)
    ensures
        final(equipments)@ == equipments_after(old(equipments)@, gtfs_stops@),
        r.is_ok() <==> {
            &&& expected_points(old(equipments)@, gtfs_stops@).map_values(|t: PointView| t.0).no_duplicates()
            &&& expected_areas(old(equipments)@, gtfs_stops@).map_values(|t: AreaView| t.0).no_duplicates()
        },
        r matches Ok((areas, points)) ==> {
            &&& areas@.map_values(|a: StopArea| area_view(a)) == expected_areas(old(equipments)@, gtfs_stops@)
            &&& points@.map_values(|p: StopPoint| point_view(p)) == expected_points(old(equipments)@, gtfs_stops@)
        },
        r matches Err(e) ==> e is DuplicateId,
{
    let ghost init = equipments@;
    let mut areas: Vec<StopArea> = Vec::new();
    let mut points: Vec<StopPoint> = Vec::new();
    let mut k: usize = 0;
    while k < gtfs_stops.len()
        invariant
            k <= gtfs_stops@.len(),
            init == old(equipments)@,
            equipments@ == equipments_after(init, gtfs_stops@.take(k as int)),
            areas@.map_values(|a: StopArea| area_view(a)) == expected_areas(init, gtfs_stops@.take(k as int)),
            points@.map_values(|p: StopPoint| point_view(p)) == expected_points(init, gtfs_stops@.take(k as int)),
        decreases gtfs_stops@.len() - k,
    {
        let stop = &gtfs_stops[k];
        let ghost areas0 = areas@;
        let ghost points0 = points@;
        let ghost eq0 = equipments@;
        let ghost cur = gtfs_stops@.take(k + 1);
        proof {
            assert(cur.drop_last() =~= gtfs_stops@.take(k as int));
            assert(cur.last() == *stop);
        }
        let equipment_id = if stop.wheelchair_boarding == Availability::InformationNotAvailable {
            None
        } else {
            Some(equipments.push(Equipment { id: String::new(), wheelchair_boarding: stop.wheelchair_boarding }))
        };
        proof {
            assert(equipments@ == equipments_after(init, cur));
            assert(opt_view(equipment_id) == last_equipment(init, cur));
        }
        match stop.location_type {
            StopLocationType::StopPoint => {
                let area_id = match &stop.parent_station {
                    Some(p) => p.clone(),
                    None => {
                        let id = "Navitia:".to_owned().concat(stop.id.as_str());
                        let no_codes: Vec<(String, String)> = Vec::new();
                        proof {
                            assert(code_views(no_codes@) =~= Seq::<(Seq<char>, Seq<char>)>::empty());
                        }
                        areas.push(StopArea { id: id.clone(), name: stop.name.clone(), codes: no_codes, equipment_id: None });
                        proof {
                            assert(areas@.map_values(|a: StopArea| area_view(a))
                                =~= areas0.map_values(|a: StopArea| area_view(a)).push(
                                (generated_area_id(*stop), stop.name@, Seq::empty(), None)));
                        }
                        id
                    },
                };
                points.push(StopPoint {
                    id: stop.id.clone(),
                    name: stop.name.clone(),
                    stop_area_id: area_id,
                    codes: make_codes(stop),
                    equipment_id,
                });
                proof {
                    assert(points@.map_values(|p: StopPoint| point_view(p))
                        =~= expected_points(init, cur));
                }
            },
            StopLocationType::StopArea => {
                areas.push(StopArea {
                    id: stop.id.clone(),
                    name: stop.name.clone(),
                    codes: make_codes(stop),
                    equipment_id,
                });
                proof {
                    assert(areas@.map_values(|a: StopArea| area_view(a))
                        =~= expected_areas(init, cur));
                }
            },
            StopLocationType::StopEntrance => {},
        }
        proof {
            assert(areas@.map_values(|a: StopArea| area_view(a)) =~= expected_areas(init, cur));
            assert(points@.map_values(|p: StopPoint| point_view(p)) =~= expected_points(init, cur));
        }
        k = k + 1;
    }
    proof {
        assert(gtfs_stops@.take(k as int) =~= gtfs_stops@);
        assert(ids_of(points@) =~= expected_points(init, gtfs_stops@).map_values(|t: PointView| t.0));
        assert(ids_of(areas@) =~= expected_areas(init, gtfs_stops@).map_values(|t: AreaView| t.0));
    }
    let points = match CollectionWithId::new(points) {
        Ok(c) => c,
        Err(e) => return Err(e),
    };
    let areas = match CollectionWithId::new(areas) {
        Ok(c) => c,
        Err(e) => return Err(e),
    };
    Ok((areas, points))
}

} // verus!
