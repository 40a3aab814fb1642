//! The bag of collections that importers fill, and the validated model
//! built from it.

use vstd::prelude::*;
use crate::collection::{
    disjoint_ids, ids_of, lemma_position_of, merged_until_clash, Collection, CollectionWithId, Id, IdxSet,
};
use crate::relations::{lemma_chain_image, lemma_sink_image, GetId, ManyToMany, OneToMany};
use crate::error::Error;
use crate::feed_info::FeedInfos;
use crate::objects::{
    AdminStation, Calendar, Comment, CommercialMode, Company, Contributor, Dataset, Line, Network, PhysicalMode, Route,
    Equipment, StopArea, StopPoint, Transfer, TripProperty, VehicleJourney,
};

verus! {

/// `one[a]` is the entity that `many[b]` refers to.
pub open spec fn refers<A: Id, B: GetId<A>>(one: Seq<A>, many: Seq<B>, a: usize, b: usize) -> bool {
    &&& a < one.len()
    &&& b < many.len()
    &&& one[a as int].spec_id() == many[b as int].spec_fk()
}

/// Every entity of `many` refers to an entity of `one`.
pub open spec fn resolves<A: Id, B: GetId<A>>(one: Seq<A>, many: Seq<B>) -> bool {
    forall|b: int| 0 <= b < many.len() ==> ids_of(one).contains(#[trigger] many[b].spec_fk())
}

/// `e` reports, under the relation `name`, the first reference of `many`
/// that names no entity of `one`.
pub open spec fn reports_dangling<A: Id, B: GetId<A>>(one: Seq<A>, many: Seq<B>, name: Seq<char>, e: Error) -> bool {
    exists|b: int| {
        &&& 0 <= b < many.len()
        &&& !ids_of(one).contains(#[trigger] many[b].spec_fk())
        &&& forall|k: int| 0 <= k < b ==> ids_of(one).contains(#[trigger] many[k].spec_fk())
        &&& e.is_dangling(name, many[b].spec_fk())
    }
}

/// Vehicle journey `v` stops at stop point `p`.
pub open spec fn stops_at(vjs: Seq<VehicleJourney>, sps: Seq<StopPoint>, v: usize, p: usize) -> bool {
    &&& v < vjs.len()
    &&& p < sps.len()
    &&& exists|k: int| 0 <= k < vjs[v as int].stop_times@.len()
        && #[trigger] vjs[v as int].stop_times@[k].stop_point_id@ == sps[p as int].id@
}

/// Every stop time of every vehicle journey names a stop point.
pub open spec fn stop_times_resolve(vjs: Seq<VehicleJourney>, sps: Seq<StopPoint>) -> bool {
    forall|v: int, k: int| 0 <= v < vjs.len() && 0 <= k < vjs[v].stop_times@.len()
        ==> ids_of(sps).contains(#[trigger] vjs[v].stop_times@[k].stop_point_id@)
}

/// `e` reports a stop time that names no stop point.
pub open spec fn reports_dangling_stop_time(vjs: Seq<VehicleJourney>, sps: Seq<StopPoint>, e: Error) -> bool {
    exists|v: int, k: int| 0 <= v < vjs.len() && 0 <= k < vjs[v].stop_times@.len()
        && !ids_of(sps).contains(#[trigger] vjs[v].stop_times@[k].stop_point_id@)
        && e.is_dangling("vehicle_journeys_to_stop_points"@, vjs[v].stop_times@[k].stop_point_id@)
}

/// Transfer `t` starts or ends at stop point `p`.
pub open spec fn transfer_touches(trs: Seq<Transfer>, sps: Seq<StopPoint>, t: usize, p: usize) -> bool {
    &&& t < trs.len()
    &&& p < sps.len()
    &&& (trs[t as int].from_stop_id@ == sps[p as int].id@ || trs[t as int].to_stop_id@ == sps[p as int].id@)
}

/// Both ends of every transfer name a stop point.
pub open spec fn transfers_resolve(trs: Seq<Transfer>, sps: Seq<StopPoint>) -> bool {
    forall|t: int| 0 <= t < trs.len() ==> ids_of(sps).contains(#[trigger] trs[t].from_stop_id@)
        && ids_of(sps).contains(trs[t].to_stop_id@)
}

/// `e` reports a transfer end that names no stop point.
pub open spec fn reports_dangling_transfer(trs: Seq<Transfer>, sps: Seq<StopPoint>, e: Error) -> bool {
    exists|t: int| 0 <= t < trs.len() && {
        ||| !ids_of(sps).contains(#[trigger] trs[t].from_stop_id@)
            && e.is_dangling("transfers_to_stop_points"@, trs[t].from_stop_id@)
        ||| !ids_of(sps).contains(trs[t].to_stop_id@)
            && e.is_dangling("transfers_to_stop_points"@, trs[t].to_stop_id@)
    }
}

/// For each vehicle journey, the stop points it stops at. Fails on the
/// first stop time that names no stop point.
#[verifier::spinoff_prover]
fn vehicle_journey_stop_points(
    vjs: &CollectionWithId<VehicleJourney>,
    sps: &CollectionWithId<StopPoint>,
) -> (r: Result<Vec<IdxSet<StopPoint>>, Error>)
    ensures
        r.is_ok() <==> stop_times_resolve(vjs@, sps@),
        r matches Ok(f) ==> f@.len() == vjs@.len() && forall|v: usize, p: usize| v < f@.len() ==>
            (#[trigger] f@[v as int]@.contains(p) <==> stops_at(vjs@, sps@, v, p)),
        r matches Ok(f) ==> forall|v: int, p: usize| 0 <= v < f@.len() && #[trigger] f@[v]@.contains(p) ==> p < sps@.len(),
        r matches Err(e) ==> reports_dangling_stop_time(vjs@, sps@, e),
{
    let journeys = vjs.values();
    let points = sps.values();
    let mut table: Vec<IdxSet<StopPoint>> = Vec::new();
    let mut v: usize = 0;
    while v < journeys.len()
        invariant
            v <= journeys@.len(),
            journeys@ == vjs@,
            points@ == sps@,
            ids_of(sps@).no_duplicates(),
            table@.len() == v,
            forall|v0: int, k: int| 0 <= v0 < v && 0 <= k < vjs@[v0].stop_times@.len()
                ==> ids_of(sps@).contains(#[trigger] vjs@[v0].stop_times@[k].stop_point_id@),
            forall|v0: usize, p: usize| v0 < v ==>
                (#[trigger] table@[v0 as int]@.contains(p) <==> stops_at(vjs@, sps@, v0, p)),
        decreases journeys@.len() - v,
    {
        let stop_times = &journeys[v].stop_times;
        let mut set: IdxSet<StopPoint> = IdxSet::new();
        let mut k: usize = 0;
        while k < stop_times.len()
            invariant
                v < journeys@.len(),
                k <= stop_times@.len(),
                journeys@ == vjs@,
                *stop_times == vjs@[v as int].stop_times,
                ids_of(sps@).no_duplicates(),
                forall|k0: int| 0 <= k0 < k ==> ids_of(sps@).contains(#[trigger] stop_times@[k0].stop_point_id@),
                forall|p: usize| #[trigger] set@.contains(p) <==> p < sps@.len()
                    && exists|k0: int| 0 <= k0 < k && stop_times@[k0].stop_point_id@ == sps@[p as int].id@,
            decreases stop_times@.len() - k,
        {
            let id = &stop_times[k].stop_point_id;
            match sps.get_idx(id.as_str()) {
                Some(i) => {
                    let ghost q = i.pos();
                    set.insert(i);
                    proof {
                        lemma_position_of(sps@, q as int);
                        assert forall|p: usize| #[trigger] set@.contains(p) <==> p < sps@.len()
                            && exists|k0: int| 0 <= k0 < k + 1 && stop_times@[k0].stop_point_id@ == sps@[p as int].id@ by {
                            if p < sps@.len() && stop_times@[k as int].stop_point_id@ == sps@[p as int].id@ {
                                lemma_position_of(sps@, p as int);
                            }
                            if p == q {
                                assert(stop_times@[k as int].stop_point_id@ == sps@[p as int].id@);
                            }
                        }
                    }
                },
                None => {
                    proof {
                        assert(vjs@[v as int].stop_times@[k as int].stop_point_id@ == id@);
                    }
                    return Err(Error::ReferentialIntegrity {
                        relation: "vehicle_journeys_to_stop_points".to_owned(),
                        id: id.clone(),
                    });
                },
            }
            k = k + 1;
        }
        table.push(set);
        proof {
            assert forall|v0: usize, p: usize| v0 < v + 1 implies
                (#[trigger] table@[v0 as int]@.contains(p) <==> stops_at(vjs@, sps@, v0, p)) by {
                if v0 == v && stops_at(vjs@, sps@, v0, p) {
                    let k0 = choose|k0: int| 0 <= k0 < vjs@[v0 as int].stop_times@.len()
                        && #[trigger] vjs@[v0 as int].stop_times@[k0].stop_point_id@ == sps@[p as int].id@;
                    assert(table@[v0 as int]@.contains(p));
                }
            }
        }
        v = v + 1;
    }
    proof {
        assert forall|v0: int, p: usize| 0 <= v0 < table@.len() && #[trigger] table@[v0]@.contains(p)
            implies p < sps@.len() by {
            assert(table@[(v0 as usize) as int]@.contains(p));
        }
    }
    Ok(table)
}

/// For each transfer, the stop points at its two ends. Fails on the first
/// end that names no stop point.
#[verifier::spinoff_prover]
fn transfer_stop_points(
    trs: &Collection<Transfer>,
    sps: &CollectionWithId<StopPoint>,
) -> (r: Result<Vec<IdxSet<StopPoint>>, Error>)
    ensures
        r.is_ok() <==> transfers_resolve(trs@, sps@),
        r matches Ok(f) ==> f@.len() == trs@.len() && forall|t: usize, p: usize| t < f@.len() ==>
            (#[trigger] f@[t as int]@.contains(p) <==> transfer_touches(trs@, sps@, t, p)),
        r matches Ok(f) ==> forall|t: int, p: usize| 0 <= t < f@.len() && #[trigger] f@[t]@.contains(p) ==> p < sps@.len(),
        r matches Err(e) ==> reports_dangling_transfer(trs@, sps@, e),
{
    let transfers = trs.values();
    let points = sps.values();
    let mut table: Vec<IdxSet<StopPoint>> = Vec::new();
    let mut t: usize = 0;
    while t < transfers.len()
        invariant
            t <= transfers@.len(),
            points@ == sps@,
            ids_of(sps@).no_duplicates(),
            transfers@ == trs@,
            table@.len() == t,
            forall|t0: int| 0 <= t0 < t ==> ids_of(sps@).contains(#[trigger] trs@[t0].from_stop_id@)
                && ids_of(sps@).contains(trs@[t0].to_stop_id@),
            forall|t0: usize, p: usize| t0 < t ==>
                (#[trigger] table@[t0 as int]@.contains(p) <==> transfer_touches(trs@, sps@, t0, p)),
        decreases transfers@.len() - t,
    {
        let transfer = &transfers[t];
        let from = match sps.get_idx(transfer.from_stop_id.as_str()) {
            Some(i) => i,
            None => {
                return Err(Error::ReferentialIntegrity {
                    relation: "transfers_to_stop_points".to_owned(),
                    id: transfer.from_stop_id.clone(),
                });
            },
        };
        let to = match sps.get_idx(transfer.to_stop_id.as_str()) {
            Some(i) => i,
            None => {
                return Err(Error::ReferentialIntegrity {
                    relation: "transfers_to_stop_points".to_owned(),
                    id: transfer.to_stop_id.clone(),
                });
            },
        };
        let mut set: IdxSet<StopPoint> = IdxSet::new();
        set.insert(from);
        set.insert(to);
        table.push(set);
        proof {
            assert(trs@[t as int] == *transfer);
            assert(ids_of(sps@).contains(trs@[t as int].from_stop_id@));
            assert(ids_of(sps@).contains(trs@[t as int].to_stop_id@));
            assert forall|t0: int| 0 <= t0 < t + 1 implies ids_of(sps@).contains(#[trigger] trs@[t0].from_stop_id@)
                && ids_of(sps@).contains(trs@[t0].to_stop_id@) by {
                if t0 < t {
                    assert(ids_of(sps@).contains(trs@[t0].from_stop_id@));
                }
            }
            assert forall|t0: usize, p: usize| t0 < t + 1 implies
                (#[trigger] table@[t0 as int]@.contains(p) <==> transfer_touches(trs@, sps@, t0, p)) by {
                if t0 == t {
                    lemma_position_of(sps@, from.pos() as int);
                    lemma_position_of(sps@, to.pos() as int);
                    if p < sps@.len() {
                        lemma_position_of(sps@, p as int);
                    }
                }
            }
        }
        t = t + 1;
    }
    proof {
        assert forall|t0: int, p: usize| 0 <= t0 < table@.len() && #[trigger] table@[t0]@.contains(p)
            implies p < sps@.len() by {
            assert(table@[(t0 as usize) as int]@.contains(p));
        }
    }
    Ok(table)
}

/// One collection per entity type, with references between entities still
/// held as identifiers, plus free key/value metadata of the feed.
pub struct Collections {
    pub contributors: CollectionWithId<Contributor>,
    pub datasets: CollectionWithId<Dataset>,
    pub networks: CollectionWithId<Network>,
    pub commercial_modes: CollectionWithId<CommercialMode>,
    pub lines: CollectionWithId<Line>,
    pub routes: CollectionWithId<Route>,
    pub vehicle_journeys: CollectionWithId<VehicleJourney>,
    pub physical_modes: CollectionWithId<PhysicalMode>,
    pub stop_areas: CollectionWithId<StopArea>,
    pub stop_points: CollectionWithId<StopPoint>,
    pub calendars: CollectionWithId<Calendar>,
    pub companies: CollectionWithId<Company>,
    pub comments: CollectionWithId<Comment>,
    pub equipments: CollectionWithId<Equipment>,
    pub trip_properties: CollectionWithId<TripProperty>,
    pub transfers: Collection<Transfer>,
    pub admin_stations: Collection<AdminStation>,
    pub feed_infos: FeedInfos,
    pub stop_time_headsigns: Vec<(String, u32, String)>,
}

impl Default for Collections {
    /// Every collection empty.
    fn default() -> (r: Self)
        ensures
            r.contributors@.len() == 0,
            r.datasets@.len() == 0,
            r.networks@.len() == 0,
            r.commercial_modes@.len() == 0,
            r.lines@.len() == 0,
            r.routes@.len() == 0,
            r.vehicle_journeys@.len() == 0,
            r.physical_modes@.len() == 0,
            r.stop_areas@.len() == 0,
            r.stop_points@.len() == 0,
            r.calendars@.len() == 0,
            r.companies@.len() == 0,
            r.comments@.len() == 0,
            r.equipments@.len() == 0,
            r.trip_properties@.len() == 0,
            r.transfers@.len() == 0,
            r.admin_stations@.len() == 0,
            r.feed_infos@ == Map::<Seq<char>, Seq<char>>::empty(),
            r.stop_time_headsigns@.len() == 0,
    {
        Collections {
            contributors: CollectionWithId::empty(),
            datasets: CollectionWithId::empty(),
            networks: CollectionWithId::empty(),
            commercial_modes: CollectionWithId::empty(),
            lines: CollectionWithId::empty(),
            routes: CollectionWithId::empty(),
            vehicle_journeys: CollectionWithId::empty(),
            physical_modes: CollectionWithId::empty(),
            stop_areas: CollectionWithId::empty(),
            stop_points: CollectionWithId::empty(),
            calendars: CollectionWithId::empty(),
            companies: CollectionWithId::empty(),
            comments: CollectionWithId::empty(),
            equipments: CollectionWithId::empty(),
            trip_properties: CollectionWithId::empty(),
            transfers: Collection::empty(),
            admin_stations: Collection::empty(),
            feed_infos: FeedInfos::new(),
            stop_time_headsigns: Vec::new(),
        }
    }
}

impl Collections {
    /// Merges `c` into these collections, one collection after another in
    /// field order, then the transfers and the feed infos. Fails on the
    /// first identifier of `c` already present in the corresponding
    /// collection: the collections before it are merged, that collection
    /// up to the clash, the later ones are left as they were.
    pub fn merge(&mut self, c: Collections) -> (r: Result<(), Error>)
        ensures
            r.is_ok() <==> {
                &&& disjoint_ids(old(self).contributors@, c.contributors@)
                &&& disjoint_ids(old(self).datasets@, c.datasets@)
                &&& disjoint_ids(old(self).networks@, c.networks@)
                &&& disjoint_ids(old(self).commercial_modes@, c.commercial_modes@)
                &&& disjoint_ids(old(self).lines@, c.lines@)
                &&& disjoint_ids(old(self).routes@, c.routes@)
                &&& disjoint_ids(old(self).vehicle_journeys@, c.vehicle_journeys@)
                &&& disjoint_ids(old(self).physical_modes@, c.physical_modes@)
                &&& disjoint_ids(old(self).stop_areas@, c.stop_areas@)
                &&& disjoint_ids(old(self).stop_points@, c.stop_points@)
                &&& disjoint_ids(old(self).calendars@, c.calendars@)
                &&& disjoint_ids(old(self).companies@, c.companies@)
                &&& disjoint_ids(old(self).comments@, c.comments@)
                &&& disjoint_ids(old(self).equipments@, c.equipments@)
                &&& disjoint_ids(old(self).trip_properties@, c.trip_properties@)
            },
            r.is_ok() ==> {
                &&& final(self).contributors@ == old(self).contributors@ + c.contributors@
                &&& final(self).datasets@ == old(self).datasets@ + c.datasets@
                &&& final(self).networks@ == old(self).networks@ + c.networks@
                &&& final(self).commercial_modes@ == old(self).commercial_modes@ + c.commercial_modes@
                &&& final(self).lines@ == old(self).lines@ + c.lines@
                &&& final(self).routes@ == old(self).routes@ + c.routes@
                &&& final(self).vehicle_journeys@ == old(self).vehicle_journeys@ + c.vehicle_journeys@
                &&& final(self).physical_modes@ == old(self).physical_modes@ + c.physical_modes@
                &&& final(self).stop_areas@ == old(self).stop_areas@ + c.stop_areas@
                &&& final(self).stop_points@ == old(self).stop_points@ + c.stop_points@
                &&& final(self).calendars@ == old(self).calendars@ + c.calendars@
                &&& final(self).companies@ == old(self).companies@ + c.companies@
                &&& final(self).comments@ == old(self).comments@ + c.comments@
                &&& final(self).equipments@ == old(self).equipments@ + c.equipments@
                &&& final(self).trip_properties@ == old(self).trip_properties@ + c.trip_properties@
                &&& final(self).transfers@ == old(self).transfers@ + c.transfers@
                &&& final(self).admin_stations@ == old(self).admin_stations@ + c.admin_stations@
                &&& final(self).feed_infos@ == old(self).feed_infos@.union_prefer_right(c.feed_infos@)
                &&& final(self).stop_time_headsigns@ == old(self).stop_time_headsigns@ + c.stop_time_headsigns@
            },
            (!disjoint_ids(old(self).contributors@, c.contributors@)) ==> ({
                &&& r matches Err(e) && merged_until_clash(old(self).contributors@, c.contributors@, final(self).contributors@, e)
                &&& final(self).datasets@ == old(self).datasets@
                &&& final(self).networks@ == old(self).networks@
                &&& final(self).commercial_modes@ == old(self).commercial_modes@
                &&& final(self).lines@ == old(self).lines@
                &&& final(self).routes@ == old(self).routes@
                &&& final(self).vehicle_journeys@ == old(self).vehicle_journeys@
                &&& final(self).physical_modes@ == old(self).physical_modes@
                &&& final(self).stop_areas@ == old(self).stop_areas@
                &&& final(self).stop_points@ == old(self).stop_points@
                &&& final(self).calendars@ == old(self).calendars@
                &&& final(self).companies@ == old(self).companies@
                &&& final(self).comments@ == old(self).comments@
                &&& final(self).equipments@ == old(self).equipments@
                &&& final(self).trip_properties@ == old(self).trip_properties@
                &&& final(self).transfers@ == old(self).transfers@
                &&& final(self).admin_stations@ == old(self).admin_stations@
                &&& final(self).feed_infos@ == old(self).feed_infos@
                &&& final(self).stop_time_headsigns@ == old(self).stop_time_headsigns@
            }),
            (disjoint_ids(old(self).contributors@, c.contributors@) && !disjoint_ids(old(self).datasets@, c.datasets@)) ==> ({
                &&& r matches Err(e) && merged_until_clash(old(self).datasets@, c.datasets@, final(self).datasets@, e)
                &&& final(self).contributors@ == old(self).contributors@ + c.contributors@
                &&& final(self).networks@ == old(self).networks@
                &&& final(self).commercial_modes@ == old(self).commercial_modes@
                &&& final(self).lines@ == old(self).lines@
                &&& final(self).routes@ == old(self).routes@
                &&& final(self).vehicle_journeys@ == old(self).vehicle_journeys@
                &&& final(self).physical_modes@ == old(self).physical_modes@
                &&& final(self).stop_areas@ == old(self).stop_areas@
                &&& final(self).stop_points@ == old(self).stop_points@
                &&& final(self).calendars@ == old(self).calendars@
                &&& final(self).companies@ == old(self).companies@
                &&& final(self).comments@ == old(self).comments@
                &&& final(self).equipments@ == old(self).equipments@
                &&& final(self).trip_properties@ == old(self).trip_properties@
                &&& final(self).transfers@ == old(self).transfers@
                &&& final(self).admin_stations@ == old(self).admin_stations@
                &&& final(self).feed_infos@ == old(self).feed_infos@
                &&& final(self).stop_time_headsigns@ == old(self).stop_time_headsigns@
            }),
            (disjoint_ids(old(self).contributors@, c.contributors@) && disjoint_ids(old(self).datasets@, c.datasets@) && !disjoint_ids(old(self).networks@, c.networks@)) ==> ({
                &&& r matches Err(e) && merged_until_clash(old(self).networks@, c.networks@, final(self).networks@, e)
                &&& final(self).contributors@ == old(self).contributors@ + c.contributors@
                &&& final(self).datasets@ == old(self).datasets@ + c.datasets@
                &&& final(self).commercial_modes@ == old(self).commercial_modes@
                &&& final(self).lines@ == old(self).lines@
                &&& final(self).routes@ == old(self).routes@
                &&& final(self).vehicle_journeys@ == old(self).vehicle_journeys@
                &&& final(self).physical_modes@ == old(self).physical_modes@
                &&& final(self).stop_areas@ == old(self).stop_areas@
                &&& final(self).stop_points@ == old(self).stop_points@
                &&& final(self).calendars@ == old(self).calendars@
                &&& final(self).companies@ == old(self).companies@
                &&& final(self).comments@ == old(self).comments@
                &&& final(self).equipments@ == old(self).equipments@
                &&& final(self).trip_properties@ == old(self).trip_properties@
                &&& final(self).transfers@ == old(self).transfers@
                &&& final(self).admin_stations@ == old(self).admin_stations@
                &&& final(self).feed_infos@ == old(self).feed_infos@
                &&& final(self).stop_time_headsigns@ == old(self).stop_time_headsigns@
            }),
            (disjoint_ids(old(self).contributors@, c.contributors@) && disjoint_ids(old(self).datasets@, c.datasets@) && disjoint_ids(old(self).networks@, c.networks@) && !disjoint_ids(old(self).commercial_modes@, c.commercial_modes@)) ==> ({
                &&& r matches Err(e) && merged_until_clash(old(self).commercial_modes@, c.commercial_modes@, final(self).commercial_modes@, e)
                &&& final(self).contributors@ == old(self).contributors@ + c.contributors@
                &&& final(self).datasets@ == old(self).datasets@ + c.datasets@
                &&& final(self).networks@ == old(self).networks@ + c.networks@
                &&& final(self).lines@ == old(self).lines@
                &&& final(self).routes@ == old(self).routes@
                &&& final(self).vehicle_journeys@ == old(self).vehicle_journeys@
                &&& final(self).physical_modes@ == old(self).physical_modes@
                &&& final(self).stop_areas@ == old(self).stop_areas@
                &&& final(self).stop_points@ == old(self).stop_points@
                &&& final(self).calendars@ == old(self).calendars@
                &&& final(self).companies@ == old(self).companies@
                &&& final(self).comments@ == old(self).comments@
                &&& final(self).equipments@ == old(self).equipments@
                &&& final(self).trip_properties@ == old(self).trip_properties@
                &&& final(self).transfers@ == old(self).transfers@
                &&& final(self).admin_stations@ == old(self).admin_stations@
                &&& final(self).feed_infos@ == old(self).feed_infos@
                &&& final(self).stop_time_headsigns@ == old(self).stop_time_headsigns@
            }),
            (disjoint_ids(old(self).contributors@, c.contributors@) && disjoint_ids(old(self).datasets@, c.datasets@) && disjoint_ids(old(self).networks@, c.networks@) && disjoint_ids(old(self).commercial_modes@, c.commercial_modes@) && !disjoint_ids(old(self).lines@, c.lines@)) ==> ({
                &&& r matches Err(e) && merged_until_clash(old(self).lines@, c.lines@, final(self).lines@, e)
                &&& final(self).contributors@ == old(self).contributors@ + c.contributors@
                &&& final(self).datasets@ == old(self).datasets@ + c.datasets@
                &&& final(self).networks@ == old(self).networks@ + c.networks@
                &&& final(self).commercial_modes@ == old(self).commercial_modes@ + c.commercial_modes@
                &&& final(self).routes@ == old(self).routes@
                &&& final(self).vehicle_journeys@ == old(self).vehicle_journeys@
                &&& final(self).physical_modes@ == old(self).physical_modes@
                &&& final(self).stop_areas@ == old(self).stop_areas@
                &&& final(self).stop_points@ == old(self).stop_points@
                &&& final(self).calendars@ == old(self).calendars@
                &&& final(self).companies@ == old(self).companies@
                &&& final(self).comments@ == old(self).comments@
                &&& final(self).equipments@ == old(self).equipments@
                &&& final(self).trip_properties@ == old(self).trip_properties@
                &&& final(self).transfers@ == old(self).transfers@
                &&& final(self).admin_stations@ == old(self).admin_stations@
                &&& final(self).feed_infos@ == old(self).feed_infos@
                &&& final(self).stop_time_headsigns@ == old(self).stop_time_headsigns@
            }),
            (disjoint_ids(old(self).contributors@, c.contributors@) && disjoint_ids(old(self).datasets@, c.datasets@) && disjoint_ids(old(self).networks@, c.networks@) && disjoint_ids(old(self).commercial_modes@, c.commercial_modes@) && disjoint_ids(old(self).lines@, c.lines@) && !disjoint_ids(old(self).routes@, c.routes@)) ==> ({
                &&& r matches Err(e) && merged_until_clash(old(self).routes@, c.routes@, final(self).routes@, e)
                &&& final(self).contributors@ == old(self).contributors@ + c.contributors@
                &&& final(self).datasets@ == old(self).datasets@ + c.datasets@
                &&& final(self).networks@ == old(self).networks@ + c.networks@
                &&& final(self).commercial_modes@ == old(self).commercial_modes@ + c.commercial_modes@
                &&& final(self).lines@ == old(self).lines@ + c.lines@
                &&& final(self).vehicle_journeys@ == old(self).vehicle_journeys@
                &&& final(self).physical_modes@ == old(self).physical_modes@
                &&& final(self).stop_areas@ == old(self).stop_areas@
                &&& final(self).stop_points@ == old(self).stop_points@
                &&& final(self).calendars@ == old(self).calendars@
                &&& final(self).companies@ == old(self).companies@
                &&& final(self).comments@ == old(self).comments@
                &&& final(self).equipments@ == old(self).equipments@
                &&& final(self).trip_properties@ == old(self).trip_properties@
                &&& final(self).transfers@ == old(self).transfers@
                &&& final(self).admin_stations@ == old(self).admin_stations@
                &&& final(self).feed_infos@ == old(self).feed_infos@
                &&& final(self).stop_time_headsigns@ == old(self).stop_time_headsigns@
            }),
            (disjoint_ids(old(self).contributors@, c.contributors@) && disjoint_ids(old(self).datasets@, c.datasets@) && disjoint_ids(old(self).networks@, c.networks@) && disjoint_ids(old(self).commercial_modes@, c.commercial_modes@) && disjoint_ids(old(self).lines@, c.lines@) && disjoint_ids(old(self).routes@, c.routes@) && !disjoint_ids(old(self).vehicle_journeys@, c.vehicle_journeys@)) ==> ({
                &&& r matches Err(e) && merged_until_clash(old(self).vehicle_journeys@, c.vehicle_journeys@, final(self).vehicle_journeys@, e)
                &&& final(self).contributors@ == old(self).contributors@ + c.contributors@
                &&& final(self).datasets@ == old(self).datasets@ + c.datasets@
                &&& final(self).networks@ == old(self).networks@ + c.networks@
                &&& final(self).commercial_modes@ == old(self).commercial_modes@ + c.commercial_modes@
                &&& final(self).lines@ == old(self).lines@ + c.lines@
                &&& final(self).routes@ == old(self).routes@ + c.routes@
                &&& final(self).physical_modes@ == old(self).physical_modes@
                &&& final(self).stop_areas@ == old(self).stop_areas@
                &&& final(self).stop_points@ == old(self).stop_points@
                &&& final(self).calendars@ == old(self).calendars@
                &&& final(self).companies@ == old(self).companies@
                &&& final(self).comments@ == old(self).comments@
                &&& final(self).equipments@ == old(self).equipments@
                &&& final(self).trip_properties@ == old(self).trip_properties@
                &&& final(self).transfers@ == old(self).transfers@
                &&& final(self).admin_stations@ == old(self).admin_stations@
                &&& final(self).feed_infos@ == old(self).feed_infos@
                &&& final(self).stop_time_headsigns@ == old(self).stop_time_headsigns@
            }),
            (disjoint_ids(old(self).contributors@, c.contributors@) && disjoint_ids(old(self).datasets@, c.datasets@) && disjoint_ids(old(self).networks@, c.networks@) && disjoint_ids(old(self).commercial_modes@, c.commercial_modes@) && disjoint_ids(old(self).lines@, c.lines@) && disjoint_ids(old(self).routes@, c.routes@) && disjoint_ids(old(self).vehicle_journeys@, c.vehicle_journeys@) && !disjoint_ids(old(self).physical_modes@, c.physical_modes@)) ==> ({
                &&& r matches Err(e) && merged_until_clash(old(self).physical_modes@, c.physical_modes@, final(self).physical_modes@, e)
                &&& final(self).contributors@ == old(self).contributors@ + c.contributors@
                &&& final(self).datasets@ == old(self).datasets@ + c.datasets@
                &&& final(self).networks@ == old(self).networks@ + c.networks@
                &&& final(self).commercial_modes@ == old(self).commercial_modes@ + c.commercial_modes@
                &&& final(self).lines@ == old(self).lines@ + c.lines@
                &&& final(self).routes@ == old(self).routes@ + c.routes@
                &&& final(self).vehicle_journeys@ == old(self).vehicle_journeys@ + c.vehicle_journeys@
                &&& final(self).stop_areas@ == old(self).stop_areas@
                &&& final(self).stop_points@ == old(self).stop_points@
                &&& final(self).calendars@ == old(self).calendars@
                &&& final(self).companies@ == old(self).companies@
                &&& final(self).comments@ == old(self).comments@
                &&& final(self).equipments@ == old(self).equipments@
                &&& final(self).trip_properties@ == old(self).trip_properties@
                &&& final(self).transfers@ == old(self).transfers@
                &&& final(self).admin_stations@ == old(self).admin_stations@
                &&& final(self).feed_infos@ == old(self).feed_infos@
                &&& final(self).stop_time_headsigns@ == old(self).stop_time_headsigns@
            }),
            (disjoint_ids(old(self).contributors@, c.contributors@) && disjoint_ids(old(self).datasets@, c.datasets@) && disjoint_ids(old(self).networks@, c.networks@) && disjoint_ids(old(self).commercial_modes@, c.commercial_modes@) && disjoint_ids(old(self).lines@, c.lines@) && disjoint_ids(old(self).routes@, c.routes@) && disjoint_ids(old(self).vehicle_journeys@, c.vehicle_journeys@) && disjoint_ids(old(self).physical_modes@, c.physical_modes@) && !disjoint_ids(old(self).stop_areas@, c.stop_areas@)) ==> ({
                &&& r matches Err(e) && merged_until_clash(old(self).stop_areas@, c.stop_areas@, final(self).stop_areas@, e)
                &&& final(self).contributors@ == old(self).contributors@ + c.contributors@
                &&& final(self).datasets@ == old(self).datasets@ + c.datasets@
                &&& final(self).networks@ == old(self).networks@ + c.networks@
                &&& final(self).commercial_modes@ == old(self).commercial_modes@ + c.commercial_modes@
                &&& final(self).lines@ == old(self).lines@ + c.lines@
                &&& final(self).routes@ == old(self).routes@ + c.routes@
                &&& final(self).vehicle_journeys@ == old(self).vehicle_journeys@ + c.vehicle_journeys@
                &&& final(self).physical_modes@ == old(self).physical_modes@ + c.physical_modes@
                &&& final(self).stop_points@ == old(self).stop_points@
                &&& final(self).calendars@ == old(self).calendars@
                &&& final(self).companies@ == old(self).companies@
                &&& final(self).comments@ == old(self).comments@
                &&& final(self).equipments@ == old(self).equipments@
                &&& final(self).trip_properties@ == old(self).trip_properties@
                &&& final(self).transfers@ == old(self).transfers@
                &&& final(self).admin_stations@ == old(self).admin_stations@
                &&& final(self).feed_infos@ == old(self).feed_infos@
                &&& final(self).stop_time_headsigns@ == old(self).stop_time_headsigns@
            }),
            (disjoint_ids(old(self).contributors@, c.contributors@) && disjoint_ids(old(self).datasets@, c.datasets@) && disjoint_ids(old(self).networks@, c.networks@) && disjoint_ids(old(self).commercial_modes@, c.commercial_modes@) && disjoint_ids(old(self).lines@, c.lines@) && disjoint_ids(old(self).routes@, c.routes@) && disjoint_ids(old(self).vehicle_journeys@, c.vehicle_journeys@) && disjoint_ids(old(self).physical_modes@, c.physical_modes@) && disjoint_ids(old(self).stop_areas@, c.stop_areas@) && !disjoint_ids(old(self).stop_points@, c.stop_points@)) ==> ({
                &&& r matches Err(e) && merged_until_clash(old(self).stop_points@, c.stop_points@, final(self).stop_points@, e)
                &&& final(self).contributors@ == old(self).contributors@ + c.contributors@
                &&& final(self).datasets@ == old(self).datasets@ + c.datasets@
                &&& final(self).networks@ == old(self).networks@ + c.networks@
                &&& final(self).commercial_modes@ == old(self).commercial_modes@ + c.commercial_modes@
                &&& final(self).lines@ == old(self).lines@ + c.lines@
                &&& final(self).routes@ == old(self).routes@ + c.routes@
                &&& final(self).vehicle_journeys@ == old(self).vehicle_journeys@ + c.vehicle_journeys@
                &&& final(self).physical_modes@ == old(self).physical_modes@ + c.physical_modes@
                &&& final(self).stop_areas@ == old(self).stop_areas@ + c.stop_areas@
                &&& final(self).calendars@ == old(self).calendars@
                &&& final(self).companies@ == old(self).companies@
                &&& final(self).comments@ == old(self).comments@
                &&& final(self).equipments@ == old(self).equipments@
                &&& final(self).trip_properties@ == old(self).trip_properties@
                &&& final(self).transfers@ == old(self).transfers@
                &&& final(self).admin_stations@ == old(self).admin_stations@
                &&& final(self).feed_infos@ == old(self).feed_infos@
                &&& final(self).stop_time_headsigns@ == old(self).stop_time_headsigns@
            }),
            (disjoint_ids(old(self).contributors@, c.contributors@) && disjoint_ids(old(self).datasets@, c.datasets@) && disjoint_ids(old(self).networks@, c.networks@) && disjoint_ids(old(self).commercial_modes@, c.commercial_modes@) && disjoint_ids(old(self).lines@, c.lines@) && disjoint_ids(old(self).routes@, c.routes@) && disjoint_ids(old(self).vehicle_journeys@, c.vehicle_journeys@) && disjoint_ids(old(self).physical_modes@, c.physical_modes@) && disjoint_ids(old(self).stop_areas@, c.stop_areas@) && disjoint_ids(old(self).stop_points@, c.stop_points@) && !disjoint_ids(old(self).calendars@, c.calendars@)) ==> ({
                &&& r matches Err(e) && merged_until_clash(old(self).calendars@, c.calendars@, final(self).calendars@, e)
                &&& final(self).contributors@ == old(self).contributors@ + c.contributors@
                &&& final(self).datasets@ == old(self).datasets@ + c.datasets@
                &&& final(self).networks@ == old(self).networks@ + c.networks@
                &&& final(self).commercial_modes@ == old(self).commercial_modes@ + c.commercial_modes@
                &&& final(self).lines@ == old(self).lines@ + c.lines@
                &&& final(self).routes@ == old(self).routes@ + c.routes@
                &&& final(self).vehicle_journeys@ == old(self).vehicle_journeys@ + c.vehicle_journeys@
                &&& final(self).physical_modes@ == old(self).physical_modes@ + c.physical_modes@
                &&& final(self).stop_areas@ == old(self).stop_areas@ + c.stop_areas@
                &&& final(self).stop_points@ == old(self).stop_points@ + c.stop_points@
                &&& final(self).companies@ == old(self).companies@
                &&& final(self).comments@ == old(self).comments@
                &&& final(self).equipments@ == old(self).equipments@
                &&& final(self).trip_properties@ == old(self).trip_properties@
                &&& final(self).transfers@ == old(self).transfers@
                &&& final(self).admin_stations@ == old(self).admin_stations@
                &&& final(self).feed_infos@ == old(self).feed_infos@
                &&& final(self).stop_time_headsigns@ == old(self).stop_time_headsigns@
            }),
            (disjoint_ids(old(self).contributors@, c.contributors@) && disjoint_ids(old(self).datasets@, c.datasets@) && disjoint_ids(old(self).networks@, c.networks@) && disjoint_ids(old(self).commercial_modes@, c.commercial_modes@) && disjoint_ids(old(self).lines@, c.lines@) && disjoint_ids(old(self).routes@, c.routes@) && disjoint_ids(old(self).vehicle_journeys@, c.vehicle_journeys@) && disjoint_ids(old(self).physical_modes@, c.physical_modes@) && disjoint_ids(old(self).stop_areas@, c.stop_areas@) && disjoint_ids(old(self).stop_points@, c.stop_points@) && disjoint_ids(old(self).calendars@, c.calendars@) && !disjoint_ids(old(self).companies@, c.companies@)) ==> ({
                &&& r matches Err(e) && merged_until_clash(old(self).companies@, c.companies@, final(self).companies@, e)
                &&& final(self).contributors@ == old(self).contributors@ + c.contributors@
                &&& final(self).datasets@ == old(self).datasets@ + c.datasets@
                &&& final(self).networks@ == old(self).networks@ + c.networks@
                &&& final(self).commercial_modes@ == old(self).commercial_modes@ + c.commercial_modes@
                &&& final(self).lines@ == old(self).lines@ + c.lines@
                &&& final(self).routes@ == old(self).routes@ + c.routes@
                &&& final(self).vehicle_journeys@ == old(self).vehicle_journeys@ + c.vehicle_journeys@
                &&& final(self).physical_modes@ == old(self).physical_modes@ + c.physical_modes@
                &&& final(self).stop_areas@ == old(self).stop_areas@ + c.stop_areas@
                &&& final(self).stop_points@ == old(self).stop_points@ + c.stop_points@
                &&& final(self).calendars@ == old(self).calendars@ + c.calendars@
                &&& final(self).comments@ == old(self).comments@
                &&& final(self).equipments@ == old(self).equipments@
                &&& final(self).trip_properties@ == old(self).trip_properties@
                &&& final(self).transfers@ == old(self).transfers@
                &&& final(self).admin_stations@ == old(self).admin_stations@
                &&& final(self).feed_infos@ == old(self).feed_infos@
                &&& final(self).stop_time_headsigns@ == old(self).stop_time_headsigns@
            }),
            (disjoint_ids(old(self).contributors@, c.contributors@) && disjoint_ids(old(self).datasets@, c.datasets@) && disjoint_ids(old(self).networks@, c.networks@) && disjoint_ids(old(self).commercial_modes@, c.commercial_modes@) && disjoint_ids(old(self).lines@, c.lines@) && disjoint_ids(old(self).routes@, c.routes@) && disjoint_ids(old(self).vehicle_journeys@, c.vehicle_journeys@) && disjoint_ids(old(self).physical_modes@, c.physical_modes@) && disjoint_ids(old(self).stop_areas@, c.stop_areas@) && disjoint_ids(old(self).stop_points@, c.stop_points@) && disjoint_ids(old(self).calendars@, c.calendars@) && disjoint_ids(old(self).companies@, c.companies@) && !disjoint_ids(old(self).comments@, c.comments@)) ==> ({
                &&& r matches Err(e) && merged_until_clash(old(self).comments@, c.comments@, final(self).comments@, e)
                &&& final(self).contributors@ == old(self).contributors@ + c.contributors@
                &&& final(self).datasets@ == old(self).datasets@ + c.datasets@
                &&& final(self).networks@ == old(self).networks@ + c.networks@
                &&& final(self).commercial_modes@ == old(self).commercial_modes@ + c.commercial_modes@
                &&& final(self).lines@ == old(self).lines@ + c.lines@
                &&& final(self).routes@ == old(self).routes@ + c.routes@
                &&& final(self).vehicle_journeys@ == old(self).vehicle_journeys@ + c.vehicle_journeys@
                &&& final(self).physical_modes@ == old(self).physical_modes@ + c.physical_modes@
                &&& final(self).stop_areas@ == old(self).stop_areas@ + c.stop_areas@
                &&& final(self).stop_points@ == old(self).stop_points@ + c.stop_points@
                &&& final(self).calendars@ == old(self).calendars@ + c.calendars@
                &&& final(self).companies@ == old(self).companies@ + c.companies@
                &&& final(self).equipments@ == old(self).equipments@
                &&& final(self).trip_properties@ == old(self).trip_properties@
                &&& final(self).transfers@ == old(self).transfers@
                &&& final(self).admin_stations@ == old(self).admin_stations@
                &&& final(self).feed_infos@ == old(self).feed_infos@
                &&& final(self).stop_time_headsigns@ == old(self).stop_time_headsigns@
            }),
            (disjoint_ids(old(self).contributors@, c.contributors@) && disjoint_ids(old(self).datasets@, c.datasets@) && disjoint_ids(old(self).networks@, c.networks@) && disjoint_ids(old(self).commercial_modes@, c.commercial_modes@) && disjoint_ids(old(self).lines@, c.lines@) && disjoint_ids(old(self).routes@, c.routes@) && disjoint_ids(old(self).vehicle_journeys@, c.vehicle_journeys@) && disjoint_ids(old(self).physical_modes@, c.physical_modes@) && disjoint_ids(old(self).stop_areas@, c.stop_areas@) && disjoint_ids(old(self).stop_points@, c.stop_points@) && disjoint_ids(old(self).calendars@, c.calendars@) && disjoint_ids(old(self).companies@, c.companies@) && disjoint_ids(old(self).comments@, c.comments@) && !disjoint_ids(old(self).equipments@, c.equipments@)) ==> ({
                &&& r matches Err(e) && merged_until_clash(old(self).equipments@, c.equipments@, final(self).equipments@, e)
                &&& final(self).contributors@ == old(self).contributors@ + c.contributors@
                &&& final(self).datasets@ == old(self).datasets@ + c.datasets@
                &&& final(self).networks@ == old(self).networks@ + c.networks@
                &&& final(self).commercial_modes@ == old(self).commercial_modes@ + c.commercial_modes@
                &&& final(self).lines@ == old(self).lines@ + c.lines@
                &&& final(self).routes@ == old(self).routes@ + c.routes@
                &&& final(self).vehicle_journeys@ == old(self).vehicle_journeys@ + c.vehicle_journeys@
                &&& final(self).physical_modes@ == old(self).physical_modes@ + c.physical_modes@
                &&& final(self).stop_areas@ == old(self).stop_areas@ + c.stop_areas@
                &&& final(self).stop_points@ == old(self).stop_points@ + c.stop_points@
                &&& final(self).calendars@ == old(self).calendars@ + c.calendars@
                &&& final(self).companies@ == old(self).companies@ + c.companies@
                &&& final(self).comments@ == old(self).comments@ + c.comments@
                &&& final(self).trip_properties@ == old(self).trip_properties@
                &&& final(self).transfers@ == old(self).transfers@
                &&& final(self).admin_stations@ == old(self).admin_stations@
                &&& final(self).feed_infos@ == old(self).feed_infos@
                &&& final(self).stop_time_headsigns@ == old(self).stop_time_headsigns@
            }),
            (disjoint_ids(old(self).contributors@, c.contributors@) && disjoint_ids(old(self).datasets@, c.datasets@) && disjoint_ids(old(self).networks@, c.networks@) && disjoint_ids(old(self).commercial_modes@, c.commercial_modes@) && disjoint_ids(old(self).lines@, c.lines@) && disjoint_ids(old(self).routes@, c.routes@) && disjoint_ids(old(self).vehicle_journeys@, c.vehicle_journeys@) && disjoint_ids(old(self).physical_modes@, c.physical_modes@) && disjoint_ids(old(self).stop_areas@, c.stop_areas@) && disjoint_ids(old(self).stop_points@, c.stop_points@) && disjoint_ids(old(self).calendars@, c.calendars@) && disjoint_ids(old(self).companies@, c.companies@) && disjoint_ids(old(self).comments@, c.comments@) && disjoint_ids(old(self).equipments@, c.equipments@) && !disjoint_ids(old(self).trip_properties@, c.trip_properties@)) ==> ({
                &&& r matches Err(e) && merged_until_clash(old(self).trip_properties@, c.trip_properties@, final(self).trip_properties@, e)
                &&& final(self).contributors@ == old(self).contributors@ + c.contributors@
                &&& final(self).datasets@ == old(self).datasets@ + c.datasets@
                &&& final(self).networks@ == old(self).networks@ + c.networks@
                &&& final(self).commercial_modes@ == old(self).commercial_modes@ + c.commercial_modes@
                &&& final(self).lines@ == old(self).lines@ + c.lines@
                &&& final(self).routes@ == old(self).routes@ + c.routes@
                &&& final(self).vehicle_journeys@ == old(self).vehicle_journeys@ + c.vehicle_journeys@
                &&& final(self).physical_modes@ == old(self).physical_modes@ + c.physical_modes@
                &&& final(self).stop_areas@ == old(self).stop_areas@ + c.stop_areas@
                &&& final(self).stop_points@ == old(self).stop_points@ + c.stop_points@
                &&& final(self).calendars@ == old(self).calendars@ + c.calendars@
                &&& final(self).companies@ == old(self).companies@ + c.companies@
                &&& final(self).comments@ == old(self).comments@ + c.comments@
                &&& final(self).equipments@ == old(self).equipments@ + c.equipments@
                &&& final(self).transfers@ == old(self).transfers@
                &&& final(self).admin_stations@ == old(self).admin_stations@
                &&& final(self).feed_infos@ == old(self).feed_infos@
                &&& final(self).stop_time_headsigns@ == old(self).stop_time_headsigns@
            }),
    {
        let Collections {
            contributors,
            datasets,
            networks,
            commercial_modes,
            lines,
            routes,
            vehicle_journeys,
            physical_modes,
            stop_areas,
            stop_points,
            calendars,
            companies,
            comments,
            equipments,
            trip_properties,
            transfers,
            admin_stations,
            feed_infos,
            mut stop_time_headsigns,
        } = c;
        if let Err(e) = self.contributors.merge(contributors) {
            return Err(e);
        }
        if let Err(e) = self.datasets.merge(datasets) {
            return Err(e);
        }
        if let Err(e) = self.networks.merge(networks) {
            return Err(e);
        }
        if let Err(e) = self.commercial_modes.merge(commercial_modes) {
            return Err(e);
        }
        if let Err(e) = self.lines.merge(lines) {
            return Err(e);
        }
        if let Err(e) = self.routes.merge(routes) {
            return Err(e);
        }
        if let Err(e) = self.vehicle_journeys.merge(vehicle_journeys) {
            return Err(e);
        }
        if let Err(e) = self.physical_modes.merge(physical_modes) {
            return Err(e);
        }
        if let Err(e) = self.stop_areas.merge(stop_areas) {
            return Err(e);
        }
        if let Err(e) = self.stop_points.merge(stop_points) {
            return Err(e);
        }
        if let Err(e) = self.calendars.merge(calendars) {
            return Err(e);
        }
        if let Err(e) = self.companies.merge(companies) {
            return Err(e);
        }
        if let Err(e) = self.comments.merge(comments) {
            return Err(e);
        }
        if let Err(e) = self.equipments.merge(equipments) {
            return Err(e);
        }
        if let Err(e) = self.trip_properties.merge(trip_properties) {
            return Err(e);
        }
        self.transfers.merge(transfers);
        self.admin_stations.merge(admin_stations);
        self.feed_infos.extend(&feed_infos);
        self.stop_time_headsigns.append(&mut stop_time_headsigns);
        Ok(())
    }
}

impl Collections {
    /// Every reference between entities resolves.
    pub open spec fn is_valid(&self) -> bool {
        &&& stop_times_resolve(self.vehicle_journeys@, self.stop_points@)
        &&& transfers_resolve(self.transfers@, self.stop_points@)
        &&& resolves(self.networks@, self.lines@)
        &&& resolves(self.commercial_modes@, self.lines@)
        &&& resolves(self.lines@, self.routes@)
        &&& resolves(self.routes@, self.vehicle_journeys@)
        &&& resolves(self.physical_modes@, self.vehicle_journeys@)
        &&& resolves(self.stop_areas@, self.stop_points@)
        &&& resolves(self.contributors@, self.datasets@)
        &&& resolves(self.companies@, self.vehicle_journeys@)
        &&& resolves(self.datasets@, self.vehicle_journeys@)
    }
}

/// The validated transit model: the collections together with every
/// relation between them, resolved once at construction.
pub struct Model {
    collections: Collections,
    networks_to_lines: OneToMany<Network, Line>,
    commercial_modes_to_lines: OneToMany<CommercialMode, Line>,
    lines_to_routes: OneToMany<Line, Route>,
    routes_to_vehicle_journeys: OneToMany<Route, VehicleJourney>,
    physical_modes_to_vehicle_journeys: OneToMany<PhysicalMode, VehicleJourney>,
    stop_areas_to_stop_points: OneToMany<StopArea, StopPoint>,
    contributors_to_datasets: OneToMany<Contributor, Dataset>,
    companies_to_vehicle_journeys: OneToMany<Company, VehicleJourney>,
    datasets_to_vehicle_journeys: OneToMany<Dataset, VehicleJourney>,
    vehicle_journeys_to_stop_points: ManyToMany<VehicleJourney, StopPoint>,
    transfers_to_stop_points: ManyToMany<Transfer, StopPoint>,
    routes_to_stop_points: ManyToMany<Route, StopPoint>,
    physical_modes_to_stop_points: ManyToMany<PhysicalMode, StopPoint>,
    physical_modes_to_routes: ManyToMany<PhysicalMode, Route>,
    datasets_to_stop_points: ManyToMany<Dataset, StopPoint>,
    datasets_to_routes: ManyToMany<Dataset, Route>,
    datasets_to_physical_modes: ManyToMany<Dataset, PhysicalMode>,
}

impl Model {
    /// The collections of the model.
    pub closed spec fn spec_collections(&self) -> Collections {
        self.collections
    }

    pub closed spec fn spec_networks_to_lines(&self) -> ManyToMany<Network, Line> {
        self.networks_to_lines.spec_rel()
    }

    pub closed spec fn spec_commercial_modes_to_lines(&self) -> ManyToMany<CommercialMode, Line> {
        self.commercial_modes_to_lines.spec_rel()
    }

    pub closed spec fn spec_lines_to_routes(&self) -> ManyToMany<Line, Route> {
        self.lines_to_routes.spec_rel()
    }

    pub closed spec fn spec_routes_to_vehicle_journeys(&self) -> ManyToMany<Route, VehicleJourney> {
        self.routes_to_vehicle_journeys.spec_rel()
    }

    pub closed spec fn spec_physical_modes_to_vehicle_journeys(&self) -> ManyToMany<PhysicalMode, VehicleJourney> {
        self.physical_modes_to_vehicle_journeys.spec_rel()
    }

    pub closed spec fn spec_stop_areas_to_stop_points(&self) -> ManyToMany<StopArea, StopPoint> {
        self.stop_areas_to_stop_points.spec_rel()
    }

    pub closed spec fn spec_contributors_to_datasets(&self) -> ManyToMany<Contributor, Dataset> {
        self.contributors_to_datasets.spec_rel()
    }

    pub closed spec fn spec_companies_to_vehicle_journeys(&self) -> ManyToMany<Company, VehicleJourney> {
        self.companies_to_vehicle_journeys.spec_rel()
    }

    pub closed spec fn spec_datasets_to_vehicle_journeys(&self) -> ManyToMany<Dataset, VehicleJourney> {
        self.datasets_to_vehicle_journeys.spec_rel()
    }

    pub closed spec fn spec_vehicle_journeys_to_stop_points(&self) -> ManyToMany<VehicleJourney, StopPoint> {
        self.vehicle_journeys_to_stop_points
    }

    pub closed spec fn spec_transfers_to_stop_points(&self) -> ManyToMany<Transfer, StopPoint> {
        self.transfers_to_stop_points
    }

    pub closed spec fn spec_routes_to_stop_points(&self) -> ManyToMany<Route, StopPoint> {
        self.routes_to_stop_points
    }

    pub closed spec fn spec_physical_modes_to_stop_points(&self) -> ManyToMany<PhysicalMode, StopPoint> {
        self.physical_modes_to_stop_points
    }

    pub closed spec fn spec_physical_modes_to_routes(&self) -> ManyToMany<PhysicalMode, Route> {
        self.physical_modes_to_routes
    }

    pub closed spec fn spec_datasets_to_stop_points(&self) -> ManyToMany<Dataset, StopPoint> {
        self.datasets_to_stop_points
    }

    pub closed spec fn spec_datasets_to_routes(&self) -> ManyToMany<Dataset, Route> {
        self.datasets_to_routes
    }

    pub closed spec fn spec_datasets_to_physical_modes(&self) -> ManyToMany<Dataset, PhysicalMode> {
        self.datasets_to_physical_modes
    }

    /// Each relation of the model holds exactly between the entities of `c`
    /// that its foreign keys, stop times or composition connect.
    pub open spec fn relations_match(&self, c: Collections) -> bool {
        &&& forall|a: usize, b: usize| #[trigger] self.spec_networks_to_lines().related(a, b)
            <==> refers(c.networks@, c.lines@, a, b)
        &&& forall|a: usize, b: usize| #[trigger] self.spec_commercial_modes_to_lines().related(a, b)
            <==> refers(c.commercial_modes@, c.lines@, a, b)
        &&& forall|a: usize, b: usize| #[trigger] self.spec_lines_to_routes().related(a, b)
            <==> refers(c.lines@, c.routes@, a, b)
        &&& forall|a: usize, b: usize| #[trigger] self.spec_routes_to_vehicle_journeys().related(a, b)
            <==> refers(c.routes@, c.vehicle_journeys@, a, b)
        &&& forall|a: usize, b: usize| #[trigger] self.spec_physical_modes_to_vehicle_journeys().related(a, b)
            <==> refers(c.physical_modes@, c.vehicle_journeys@, a, b)
        &&& forall|a: usize, b: usize| #[trigger] self.spec_stop_areas_to_stop_points().related(a, b)
            <==> refers(c.stop_areas@, c.stop_points@, a, b)
        &&& forall|a: usize, b: usize| #[trigger] self.spec_contributors_to_datasets().related(a, b)
            <==> refers(c.contributors@, c.datasets@, a, b)
        &&& forall|a: usize, b: usize| #[trigger] self.spec_companies_to_vehicle_journeys().related(a, b)
            <==> refers(c.companies@, c.vehicle_journeys@, a, b)
        &&& forall|a: usize, b: usize| #[trigger] self.spec_datasets_to_vehicle_journeys().related(a, b)
            <==> refers(c.datasets@, c.vehicle_journeys@, a, b)
        &&& forall|a: usize, b: usize| #[trigger] self.spec_vehicle_journeys_to_stop_points().related(a, b)
            <==> stops_at(c.vehicle_journeys@, c.stop_points@, a, b)
        &&& forall|a: usize, b: usize| #[trigger] self.spec_transfers_to_stop_points().related(a, b)
            <==> transfer_touches(c.transfers@, c.stop_points@, a, b)
        &&& forall|a: usize, b: usize| #[trigger] self.spec_routes_to_stop_points().related(a, b)
            <==> exists|m: usize| refers(c.routes@, c.vehicle_journeys@, a, m) && stops_at(c.vehicle_journeys@, c.stop_points@, m, b)
        &&& forall|a: usize, b: usize| #[trigger] self.spec_physical_modes_to_stop_points().related(a, b)
            <==> exists|m: usize| refers(c.physical_modes@, c.vehicle_journeys@, a, m) && stops_at(c.vehicle_journeys@, c.stop_points@, m, b)
        &&& forall|a: usize, b: usize| #[trigger] self.spec_physical_modes_to_routes().related(a, b)
            <==> exists|m: usize| refers(c.physical_modes@, c.vehicle_journeys@, a, m) && refers(c.routes@, c.vehicle_journeys@, b, m)
        &&& forall|a: usize, b: usize| #[trigger] self.spec_datasets_to_stop_points().related(a, b)
            <==> exists|m: usize| refers(c.datasets@, c.vehicle_journeys@, a, m) && stops_at(c.vehicle_journeys@, c.stop_points@, m, b)
        &&& forall|a: usize, b: usize| #[trigger] self.spec_datasets_to_routes().related(a, b)
            <==> exists|m: usize| refers(c.datasets@, c.vehicle_journeys@, a, m) && refers(c.routes@, c.vehicle_journeys@, b, m)
        &&& forall|a: usize, b: usize| #[trigger] self.spec_datasets_to_physical_modes().related(a, b)
            <==> exists|m: usize| refers(c.datasets@, c.vehicle_journeys@, a, m) && refers(c.physical_modes@, c.vehicle_journeys@, b, m)
    }

    /// Builds the model from `c`: resolves the stop points of vehicle
    /// journeys and transfers, builds every relation from foreign keys, then
    /// derives the composed ones. Fails on the first reference that does not
    /// resolve; no partial model is ever returned.
    #[verifier::spinoff_prover]
    pub fn new(c: Collections) -> (r: Result<Model, Error>)
        ensures
            r.is_ok() <==> c.is_valid(),
            r matches Ok(m) ==> m.spec_collections() == c && m.relations_match(c),
            r matches Err(e) ==> if !stop_times_resolve(c.vehicle_journeys@, c.stop_points@) {
                reports_dangling_stop_time(c.vehicle_journeys@, c.stop_points@, e)
            } else if !transfers_resolve(c.transfers@, c.stop_points@) {
                reports_dangling_transfer(c.transfers@, c.stop_points@, e)
            } else if !resolves(c.networks@, c.lines@) {
                reports_dangling(c.networks@, c.lines@, "networks_to_lines"@, e)
            } else if !resolves(c.commercial_modes@, c.lines@) {
                reports_dangling(c.commercial_modes@, c.lines@, "commercial_modes_to_lines"@, e)
            } else if !resolves(c.lines@, c.routes@) {
                reports_dangling(c.lines@, c.routes@, "lines_to_routes"@, e)
            } else if !resolves(c.routes@, c.vehicle_journeys@) {
                reports_dangling(c.routes@, c.vehicle_journeys@, "routes_to_vehicle_journeys"@, e)
            } else if !resolves(c.physical_modes@, c.vehicle_journeys@) {
                reports_dangling(c.physical_modes@, c.vehicle_journeys@, "physical_modes_to_vehicle_journeys"@, e)
            } else if !resolves(c.stop_areas@, c.stop_points@) {
                reports_dangling(c.stop_areas@, c.stop_points@, "stop_areas_to_stop_points"@, e)
            } else if !resolves(c.contributors@, c.datasets@) {
                reports_dangling(c.contributors@, c.datasets@, "contributors_to_datasets"@, e)
            } else if !resolves(c.companies@, c.vehicle_journeys@) {
                reports_dangling(c.companies@, c.vehicle_journeys@, "companies_to_vehicle_journeys"@, e)
            } else if !resolves(c.datasets@, c.vehicle_journeys@) {
                reports_dangling(c.datasets@, c.vehicle_journeys@, "datasets_to_vehicle_journeys"@, e)
            } else {
                false
            },
    {
        let vj_table = match vehicle_journey_stop_points(&c.vehicle_journeys, &c.stop_points) {
            Ok(t) => t,
            Err(e) => return Err(e),
        };
        let tr_table = match transfer_stop_points(&c.transfers, &c.stop_points) {
            Ok(t) => t,
            Err(e) => return Err(e),
        };
        let networks_to_lines = match OneToMany::new(&c.networks, &c.lines, "networks_to_lines") {
            Ok(r) => r,
            Err(e) => return Err(e),
        };
        let commercial_modes_to_lines = match OneToMany::new(&c.commercial_modes, &c.lines, "commercial_modes_to_lines") {
            Ok(r) => r,
            Err(e) => return Err(e),
        };
        let lines_to_routes = match OneToMany::new(&c.lines, &c.routes, "lines_to_routes") {
            Ok(r) => r,
            Err(e) => return Err(e),
        };
        let routes_to_vehicle_journeys = match OneToMany::new(&c.routes, &c.vehicle_journeys, "routes_to_vehicle_journeys") {
            Ok(r) => r,
            Err(e) => return Err(e),
        };
        let physical_modes_to_vehicle_journeys = match OneToMany::new(&c.physical_modes, &c.vehicle_journeys, "physical_modes_to_vehicle_journeys") {
            Ok(r) => r,
            Err(e) => return Err(e),
        };
        let stop_areas_to_stop_points = match OneToMany::new(&c.stop_areas, &c.stop_points, "stop_areas_to_stop_points") {
            Ok(r) => r,
            Err(e) => return Err(e),
        };
        let contributors_to_datasets = match OneToMany::new(&c.contributors, &c.datasets, "contributors_to_datasets") {
            Ok(r) => r,
            Err(e) => return Err(e),
        };
        let companies_to_vehicle_journeys = match OneToMany::new(&c.companies, &c.vehicle_journeys, "companies_to_vehicle_journeys") {
            Ok(r) => r,
            Err(e) => return Err(e),
        };
        let datasets_to_vehicle_journeys = match OneToMany::new(&c.datasets, &c.vehicle_journeys, "datasets_to_vehicle_journeys") {
            Ok(r) => r,
            Err(e) => return Err(e),
        };
        let n_stop_points = c.stop_points.len();
        let vehicle_journeys_to_stop_points = ManyToMany::from_forward(vj_table, n_stop_points);
        let transfers_to_stop_points = ManyToMany::from_forward(tr_table, n_stop_points);
        let routes_to_stop_points = ManyToMany::from_relations_chain(routes_to_vehicle_journeys.as_many_to_many(), &vehicle_journeys_to_stop_points);
        let physical_modes_to_stop_points = ManyToMany::from_relations_chain(physical_modes_to_vehicle_journeys.as_many_to_many(), &vehicle_journeys_to_stop_points);
        let physical_modes_to_routes = ManyToMany::from_relations_sink(physical_modes_to_vehicle_journeys.as_many_to_many(), routes_to_vehicle_journeys.as_many_to_many());
        let datasets_to_stop_points = ManyToMany::from_relations_chain(datasets_to_vehicle_journeys.as_many_to_many(), &vehicle_journeys_to_stop_points);
        let datasets_to_routes = ManyToMany::from_relations_sink(datasets_to_vehicle_journeys.as_many_to_many(), routes_to_vehicle_journeys.as_many_to_many());
        let datasets_to_physical_modes = ManyToMany::from_relations_sink(datasets_to_vehicle_journeys.as_many_to_many(), physical_modes_to_vehicle_journeys.as_many_to_many());
        proof {
            assert forall|a: usize, b: usize| #[trigger] routes_to_stop_points.related(a, b)
                <==> exists|m: usize| refers(c.routes@, c.vehicle_journeys@, a, m) && stops_at(c.vehicle_journeys@, c.stop_points@, m, b) by {
                if routes_to_stop_points.related(a, b) {
                    let m = choose|m: usize| routes_to_vehicle_journeys.spec_rel().related(a, m) && vehicle_journeys_to_stop_points.related(m, b);
                    assert(refers(c.routes@, c.vehicle_journeys@, a, m) && stops_at(c.vehicle_journeys@, c.stop_points@, m, b));
                }
                if exists|m: usize| refers(c.routes@, c.vehicle_journeys@, a, m) && stops_at(c.vehicle_journeys@, c.stop_points@, m, b) {
                    let m = choose|m: usize| refers(c.routes@, c.vehicle_journeys@, a, m) && stops_at(c.vehicle_journeys@, c.stop_points@, m, b);
                    assert(routes_to_vehicle_journeys.spec_rel().related(a, m) && vehicle_journeys_to_stop_points.related(m, b));
                }
            }
            assert forall|a: usize, b: usize| #[trigger] physical_modes_to_stop_points.related(a, b)
                <==> exists|m: usize| refers(c.physical_modes@, c.vehicle_journeys@, a, m) && stops_at(c.vehicle_journeys@, c.stop_points@, m, b) by {
                if physical_modes_to_stop_points.related(a, b) {
                    let m = choose|m: usize| physical_modes_to_vehicle_journeys.spec_rel().related(a, m) && vehicle_journeys_to_stop_points.related(m, b);
                    assert(refers(c.physical_modes@, c.vehicle_journeys@, a, m) && stops_at(c.vehicle_journeys@, c.stop_points@, m, b));
                }
                if exists|m: usize| refers(c.physical_modes@, c.vehicle_journeys@, a, m) && stops_at(c.vehicle_journeys@, c.stop_points@, m, b) {
                    let m = choose|m: usize| refers(c.physical_modes@, c.vehicle_journeys@, a, m) && stops_at(c.vehicle_journeys@, c.stop_points@, m, b);
                    assert(physical_modes_to_vehicle_journeys.spec_rel().related(a, m) && vehicle_journeys_to_stop_points.related(m, b));
                }
            }
            assert forall|a: usize, b: usize| #[trigger] physical_modes_to_routes.related(a, b)
                <==> exists|m: usize| refers(c.physical_modes@, c.vehicle_journeys@, a, m) && refers(c.routes@, c.vehicle_journeys@, b, m) by {
                if physical_modes_to_routes.related(a, b) {
                    let m = choose|m: usize| physical_modes_to_vehicle_journeys.spec_rel().related(a, m) && routes_to_vehicle_journeys.spec_rel().related(b, m);
                    assert(refers(c.physical_modes@, c.vehicle_journeys@, a, m) && refers(c.routes@, c.vehicle_journeys@, b, m));
                }
                if exists|m: usize| refers(c.physical_modes@, c.vehicle_journeys@, a, m) && refers(c.routes@, c.vehicle_journeys@, b, m) {
                    let m = choose|m: usize| refers(c.physical_modes@, c.vehicle_journeys@, a, m) && refers(c.routes@, c.vehicle_journeys@, b, m);
                    assert(physical_modes_to_vehicle_journeys.spec_rel().related(a, m) && routes_to_vehicle_journeys.spec_rel().related(b, m));
                }
            }
            assert forall|a: usize, b: usize| #[trigger] datasets_to_stop_points.related(a, b)
                <==> exists|m: usize| refers(c.datasets@, c.vehicle_journeys@, a, m) && stops_at(c.vehicle_journeys@, c.stop_points@, m, b) by {
                if datasets_to_stop_points.related(a, b) {
                    let m = choose|m: usize| datasets_to_vehicle_journeys.spec_rel().related(a, m) && vehicle_journeys_to_stop_points.related(m, b);
                    assert(refers(c.datasets@, c.vehicle_journeys@, a, m) && stops_at(c.vehicle_journeys@, c.stop_points@, m, b));
                }
                if exists|m: usize| refers(c.datasets@, c.vehicle_journeys@, a, m) && stops_at(c.vehicle_journeys@, c.stop_points@, m, b) {
                    let m = choose|m: usize| refers(c.datasets@, c.vehicle_journeys@, a, m) && stops_at(c.vehicle_journeys@, c.stop_points@, m, b);
                    assert(datasets_to_vehicle_journeys.spec_rel().related(a, m) && vehicle_journeys_to_stop_points.related(m, b));
                }
            }
            assert forall|a: usize, b: usize| #[trigger] datasets_to_routes.related(a, b)
                <==> exists|m: usize| refers(c.datasets@, c.vehicle_journeys@, a, m) && refers(c.routes@, c.vehicle_journeys@, b, m) by {
                if datasets_to_routes.related(a, b) {
                    let m = choose|m: usize| datasets_to_vehicle_journeys.spec_rel().related(a, m) && routes_to_vehicle_journeys.spec_rel().related(b, m);
                    assert(refers(c.datasets@, c.vehicle_journeys@, a, m) && refers(c.routes@, c.vehicle_journeys@, b, m));
                }
                if exists|m: usize| refers(c.datasets@, c.vehicle_journeys@, a, m) && refers(c.routes@, c.vehicle_journeys@, b, m) {
                    let m = choose|m: usize| refers(c.datasets@, c.vehicle_journeys@, a, m) && refers(c.routes@, c.vehicle_journeys@, b, m);
                    assert(datasets_to_vehicle_journeys.spec_rel().related(a, m) && routes_to_vehicle_journeys.spec_rel().related(b, m));
                }
            }
            assert forall|a: usize, b: usize| #[trigger] datasets_to_physical_modes.related(a, b)
                <==> exists|m: usize| refers(c.datasets@, c.vehicle_journeys@, a, m) && refers(c.physical_modes@, c.vehicle_journeys@, b, m) by {
                if datasets_to_physical_modes.related(a, b) {
                    let m = choose|m: usize| datasets_to_vehicle_journeys.spec_rel().related(a, m) && physical_modes_to_vehicle_journeys.spec_rel().related(b, m);
                    assert(refers(c.datasets@, c.vehicle_journeys@, a, m) && refers(c.physical_modes@, c.vehicle_journeys@, b, m));
                }
                if exists|m: usize| refers(c.datasets@, c.vehicle_journeys@, a, m) && refers(c.physical_modes@, c.vehicle_journeys@, b, m) {
                    let m = choose|m: usize| refers(c.datasets@, c.vehicle_journeys@, a, m) && refers(c.physical_modes@, c.vehicle_journeys@, b, m);
                    assert(datasets_to_vehicle_journeys.spec_rel().related(a, m) && physical_modes_to_vehicle_journeys.spec_rel().related(b, m));
                }
            }
        }
        Ok(Model {
            collections: c,
            networks_to_lines,
            commercial_modes_to_lines,
            lines_to_routes,
            routes_to_vehicle_journeys,
            physical_modes_to_vehicle_journeys,
            stop_areas_to_stop_points,
            contributors_to_datasets,
            companies_to_vehicle_journeys,
            datasets_to_vehicle_journeys,
            vehicle_journeys_to_stop_points,
            transfers_to_stop_points,
            routes_to_stop_points,
            physical_modes_to_stop_points,
            physical_modes_to_routes,
            datasets_to_stop_points,
            datasets_to_routes,
            datasets_to_physical_modes,
        })
    }

    /// The collections of the model.
    pub fn collections(&self) -> (r: &Collections)
        ensures
            *r == self.spec_collections(),
    {
        &self.collections
    }

    /// Consumes the model, giving back its collections.
    pub fn into_collections(self) -> (r: Collections)
        ensures
            r == self.spec_collections(),
    {
        self.collections
    }
}

/// Lookup of the entities of type `B` related to given entities of type
/// `A`. The model answers it for every pair of types joined by one of its
/// relations, in either direction; each such pair is served by exactly one
/// relation, so no choice among paths arises.
pub trait GetCorresponding<A, B> {
    /// The indices of `B` related to some index of `from`.
    spec fn corresponding(&self, from: Set<usize>) -> Set<usize>;

    fn get_corresponding(&self, from: &IdxSet<A>) -> (r: IdxSet<B>)
        ensures
            r@ == self.corresponding(from@),
    ;
}

impl GetCorresponding<Network, Line> for Model {
    open spec fn corresponding(&self, from: Set<usize>) -> Set<usize> {
        self.spec_networks_to_lines().forward_image(from)
    }

    fn get_corresponding(&self, from: &IdxSet<Network>) -> (r: IdxSet<Line>) {
        self.networks_to_lines.as_many_to_many().get_corresponding_forward(from)
    }
}

impl GetCorresponding<Line, Network> for Model {
    open spec fn corresponding(&self, from: Set<usize>) -> Set<usize> {
        self.spec_networks_to_lines().backward_image(from)
    }

    fn get_corresponding(&self, from: &IdxSet<Line>) -> (r: IdxSet<Network>) {
        self.networks_to_lines.as_many_to_many().get_corresponding_backward(from)
    }
}

impl GetCorresponding<CommercialMode, Line> for Model {
    open spec fn corresponding(&self, from: Set<usize>) -> Set<usize> {
        self.spec_commercial_modes_to_lines().forward_image(from)
    }

    fn get_corresponding(&self, from: &IdxSet<CommercialMode>) -> (r: IdxSet<Line>) {
        self.commercial_modes_to_lines.as_many_to_many().get_corresponding_forward(from)
    }
}

impl GetCorresponding<Line, CommercialMode> for Model {
    open spec fn corresponding(&self, from: Set<usize>) -> Set<usize> {
        self.spec_commercial_modes_to_lines().backward_image(from)
    }

    fn get_corresponding(&self, from: &IdxSet<Line>) -> (r: IdxSet<CommercialMode>) {
        self.commercial_modes_to_lines.as_many_to_many().get_corresponding_backward(from)
    }
}

impl GetCorresponding<Line, Route> for Model {
    open spec fn corresponding(&self, from: Set<usize>) -> Set<usize> {
        self.spec_lines_to_routes().forward_image(from)
    }

    fn get_corresponding(&self, from: &IdxSet<Line>) -> (r: IdxSet<Route>) {
        self.lines_to_routes.as_many_to_many().get_corresponding_forward(from)
    }
}

impl GetCorresponding<Route, Line> for Model {
    open spec fn corresponding(&self, from: Set<usize>) -> Set<usize> {
        self.spec_lines_to_routes().backward_image(from)
    }

    fn get_corresponding(&self, from: &IdxSet<Route>) -> (r: IdxSet<Line>) {
        self.lines_to_routes.as_many_to_many().get_corresponding_backward(from)
    }
}

impl GetCorresponding<Route, VehicleJourney> for Model {
    open spec fn corresponding(&self, from: Set<usize>) -> Set<usize> {
        self.spec_routes_to_vehicle_journeys().forward_image(from)
    }

    fn get_corresponding(&self, from: &IdxSet<Route>) -> (r: IdxSet<VehicleJourney>) {
        self.routes_to_vehicle_journeys.as_many_to_many().get_corresponding_forward(from)
    }
}

impl GetCorresponding<VehicleJourney, Route> for Model {
    open spec fn corresponding(&self, from: Set<usize>) -> Set<usize> {
        self.spec_routes_to_vehicle_journeys().backward_image(from)
    }

    fn get_corresponding(&self, from: &IdxSet<VehicleJourney>) -> (r: IdxSet<Route>) {
        self.routes_to_vehicle_journeys.as_many_to_many().get_corresponding_backward(from)
    }
}

impl GetCorresponding<PhysicalMode, VehicleJourney> for Model {
    open spec fn corresponding(&self, from: Set<usize>) -> Set<usize> {
        self.spec_physical_modes_to_vehicle_journeys().forward_image(from)
    }

    fn get_corresponding(&self, from: &IdxSet<PhysicalMode>) -> (r: IdxSet<VehicleJourney>) {
        self.physical_modes_to_vehicle_journeys.as_many_to_many().get_corresponding_forward(from)
    }
}

impl GetCorresponding<VehicleJourney, PhysicalMode> for Model {
    open spec fn corresponding(&self, from: Set<usize>) -> Set<usize> {
        self.spec_physical_modes_to_vehicle_journeys().backward_image(from)
    }

    fn get_corresponding(&self, from: &IdxSet<VehicleJourney>) -> (r: IdxSet<PhysicalMode>) {
        self.physical_modes_to_vehicle_journeys.as_many_to_many().get_corresponding_backward(from)
    }
}

impl GetCorresponding<StopArea, StopPoint> for Model {
    open spec fn corresponding(&self, from: Set<usize>) -> Set<usize> {
        self.spec_stop_areas_to_stop_points().forward_image(from)
    }

    fn get_corresponding(&self, from: &IdxSet<StopArea>) -> (r: IdxSet<StopPoint>) {
        self.stop_areas_to_stop_points.as_many_to_many().get_corresponding_forward(from)
    }
}

impl GetCorresponding<StopPoint, StopArea> for Model {
    open spec fn corresponding(&self, from: Set<usize>) -> Set<usize> {
        self.spec_stop_areas_to_stop_points().backward_image(from)
    }

    fn get_corresponding(&self, from: &IdxSet<StopPoint>) -> (r: IdxSet<StopArea>) {
        self.stop_areas_to_stop_points.as_many_to_many().get_corresponding_backward(from)
    }
}

impl GetCorresponding<Contributor, Dataset> for Model {
    open spec fn corresponding(&self, from: Set<usize>) -> Set<usize> {
        self.spec_contributors_to_datasets().forward_image(from)
    }

    fn get_corresponding(&self, from: &IdxSet<Contributor>) -> (r: IdxSet<Dataset>) {
        self.contributors_to_datasets.as_many_to_many().get_corresponding_forward(from)
    }
}

impl GetCorresponding<Dataset, Contributor> for Model {
    open spec fn corresponding(&self, from: Set<usize>) -> Set<usize> {
        self.spec_contributors_to_datasets().backward_image(from)
    }

    fn get_corresponding(&self, from: &IdxSet<Dataset>) -> (r: IdxSet<Contributor>) {
        self.contributors_to_datasets.as_many_to_many().get_corresponding_backward(from)
    }
}

impl GetCorresponding<Company, VehicleJourney> for Model {
    open spec fn corresponding(&self, from: Set<usize>) -> Set<usize> {
        self.spec_companies_to_vehicle_journeys().forward_image(from)
    }

    fn get_corresponding(&self, from: &IdxSet<Company>) -> (r: IdxSet<VehicleJourney>) {
        self.companies_to_vehicle_journeys.as_many_to_many().get_corresponding_forward(from)
    }
}

impl GetCorresponding<VehicleJourney, Company> for Model {
    open spec fn corresponding(&self, from: Set<usize>) -> Set<usize> {
        self.spec_companies_to_vehicle_journeys().backward_image(from)
    }

    fn get_corresponding(&self, from: &IdxSet<VehicleJourney>) -> (r: IdxSet<Company>) {
        self.companies_to_vehicle_journeys.as_many_to_many().get_corresponding_backward(from)
    }
}

impl GetCorresponding<Dataset, VehicleJourney> for Model {
    open spec fn corresponding(&self, from: Set<usize>) -> Set<usize> {
        self.spec_datasets_to_vehicle_journeys().forward_image(from)
    }

    fn get_corresponding(&self, from: &IdxSet<Dataset>) -> (r: IdxSet<VehicleJourney>) {
        self.datasets_to_vehicle_journeys.as_many_to_many().get_corresponding_forward(from)
    }
}

impl GetCorresponding<VehicleJourney, Dataset> for Model {
    open spec fn corresponding(&self, from: Set<usize>) -> Set<usize> {
        self.spec_datasets_to_vehicle_journeys().backward_image(from)
    }

    fn get_corresponding(&self, from: &IdxSet<VehicleJourney>) -> (r: IdxSet<Dataset>) {
        self.datasets_to_vehicle_journeys.as_many_to_many().get_corresponding_backward(from)
    }
}

impl GetCorresponding<VehicleJourney, StopPoint> for Model {
    open spec fn corresponding(&self, from: Set<usize>) -> Set<usize> {
        self.spec_vehicle_journeys_to_stop_points().forward_image(from)
    }

    fn get_corresponding(&self, from: &IdxSet<VehicleJourney>) -> (r: IdxSet<StopPoint>) {
        self.vehicle_journeys_to_stop_points.get_corresponding_forward(from)
    }
}

impl GetCorresponding<StopPoint, VehicleJourney> for Model {
    open spec fn corresponding(&self, from: Set<usize>) -> Set<usize> {
        self.spec_vehicle_journeys_to_stop_points().backward_image(from)
    }

    fn get_corresponding(&self, from: &IdxSet<StopPoint>) -> (r: IdxSet<VehicleJourney>) {
        self.vehicle_journeys_to_stop_points.get_corresponding_backward(from)
    }
}

impl GetCorresponding<Transfer, StopPoint> for Model {
    open spec fn corresponding(&self, from: Set<usize>) -> Set<usize> {
        self.spec_transfers_to_stop_points().forward_image(from)
    }

    fn get_corresponding(&self, from: &IdxSet<Transfer>) -> (r: IdxSet<StopPoint>) {
        self.transfers_to_stop_points.get_corresponding_forward(from)
    }
}

impl GetCorresponding<StopPoint, Transfer> for Model {
    open spec fn corresponding(&self, from: Set<usize>) -> Set<usize> {
        self.spec_transfers_to_stop_points().backward_image(from)
    }

    fn get_corresponding(&self, from: &IdxSet<StopPoint>) -> (r: IdxSet<Transfer>) {
        self.transfers_to_stop_points.get_corresponding_backward(from)
    }
}

impl GetCorresponding<Route, StopPoint> for Model {
    open spec fn corresponding(&self, from: Set<usize>) -> Set<usize> {
        self.spec_routes_to_stop_points().forward_image(from)
    }

    fn get_corresponding(&self, from: &IdxSet<Route>) -> (r: IdxSet<StopPoint>) {
        self.routes_to_stop_points.get_corresponding_forward(from)
    }
}

impl GetCorresponding<StopPoint, Route> for Model {
    open spec fn corresponding(&self, from: Set<usize>) -> Set<usize> {
        self.spec_routes_to_stop_points().backward_image(from)
    }

    fn get_corresponding(&self, from: &IdxSet<StopPoint>) -> (r: IdxSet<Route>) {
        self.routes_to_stop_points.get_corresponding_backward(from)
    }
}

impl GetCorresponding<PhysicalMode, StopPoint> for Model {
    open spec fn corresponding(&self, from: Set<usize>) -> Set<usize> {
        self.spec_physical_modes_to_stop_points().forward_image(from)
    }

    fn get_corresponding(&self, from: &IdxSet<PhysicalMode>) -> (r: IdxSet<StopPoint>) {
        self.physical_modes_to_stop_points.get_corresponding_forward(from)
    }
}

impl GetCorresponding<StopPoint, PhysicalMode> for Model {
    open spec fn corresponding(&self, from: Set<usize>) -> Set<usize> {
        self.spec_physical_modes_to_stop_points().backward_image(from)
    }

    fn get_corresponding(&self, from: &IdxSet<StopPoint>) -> (r: IdxSet<PhysicalMode>) {
        self.physical_modes_to_stop_points.get_corresponding_backward(from)
    }
}

impl GetCorresponding<PhysicalMode, Route> for Model {
    open spec fn corresponding(&self, from: Set<usize>) -> Set<usize> {
        self.spec_physical_modes_to_routes().forward_image(from)
    }

    fn get_corresponding(&self, from: &IdxSet<PhysicalMode>) -> (r: IdxSet<Route>) {
        self.physical_modes_to_routes.get_corresponding_forward(from)
    }
}

impl GetCorresponding<Route, PhysicalMode> for Model {
    open spec fn corresponding(&self, from: Set<usize>) -> Set<usize> {
        self.spec_physical_modes_to_routes().backward_image(from)
    }

    fn get_corresponding(&self, from: &IdxSet<Route>) -> (r: IdxSet<PhysicalMode>) {
        self.physical_modes_to_routes.get_corresponding_backward(from)
    }
}

impl GetCorresponding<Dataset, StopPoint> for Model {
    open spec fn corresponding(&self, from: Set<usize>) -> Set<usize> {
        self.spec_datasets_to_stop_points().forward_image(from)
    }

    fn get_corresponding(&self, from: &IdxSet<Dataset>) -> (r: IdxSet<StopPoint>) {
        self.datasets_to_stop_points.get_corresponding_forward(from)
    }
}

impl GetCorresponding<StopPoint, Dataset> for Model {
    open spec fn corresponding(&self, from: Set<usize>) -> Set<usize> {
        self.spec_datasets_to_stop_points().backward_image(from)
    }

    fn get_corresponding(&self, from: &IdxSet<StopPoint>) -> (r: IdxSet<Dataset>) {
        self.datasets_to_stop_points.get_corresponding_backward(from)
    }
}

impl GetCorresponding<Dataset, Route> for Model {
    open spec fn corresponding(&self, from: Set<usize>) -> Set<usize> {
        self.spec_datasets_to_routes().forward_image(from)
    }

    fn get_corresponding(&self, from: &IdxSet<Dataset>) -> (r: IdxSet<Route>) {
        self.datasets_to_routes.get_corresponding_forward(from)
    }
}

impl GetCorresponding<Route, Dataset> for Model {
    open spec fn corresponding(&self, from: Set<usize>) -> Set<usize> {
        self.spec_datasets_to_routes().backward_image(from)
    }

    fn get_corresponding(&self, from: &IdxSet<Route>) -> (r: IdxSet<Dataset>) {
        self.datasets_to_routes.get_corresponding_backward(from)
    }
}

impl GetCorresponding<Dataset, PhysicalMode> for Model {
    open spec fn corresponding(&self, from: Set<usize>) -> Set<usize> {
        self.spec_datasets_to_physical_modes().forward_image(from)
    }

    fn get_corresponding(&self, from: &IdxSet<Dataset>) -> (r: IdxSet<PhysicalMode>) {
        self.datasets_to_physical_modes.get_corresponding_forward(from)
    }
}

impl GetCorresponding<PhysicalMode, Dataset> for Model {
    open spec fn corresponding(&self, from: Set<usize>) -> Set<usize> {
        self.spec_datasets_to_physical_modes().backward_image(from)
    }

    fn get_corresponding(&self, from: &IdxSet<PhysicalMode>) -> (r: IdxSet<Dataset>) {
        self.datasets_to_physical_modes.get_corresponding_backward(from)
    }
}
/// In a built model, the stop points of given routes are the stop points of
/// the vehicle journeys of those routes.
pub proof fn lemma_route_stop_points_chain(m: &Model, s: Set<usize>)
    requires
        m.relations_match(m.spec_collections()),
    ensures
        <Model as GetCorresponding<Route, StopPoint>>::corresponding(m, s)
            == <Model as GetCorresponding<VehicleJourney, StopPoint>>::corresponding(
                m,
                <Model as GetCorresponding<Route, VehicleJourney>>::corresponding(m, s),
            ),
{
    let r1 = m.spec_routes_to_vehicle_journeys();
    let r2 = m.spec_vehicle_journeys_to_stop_points();
    let r = m.spec_routes_to_stop_points();
    assert forall|a: usize, b: usize| #[trigger] r.related(a, b)
        <==> exists|x: usize| r1.related(a, x) && r2.related(x, b) by {
        if r.related(a, b) {
            let x = choose|x: usize| refers(m.spec_collections().routes@, m.spec_collections().vehicle_journeys@, a, x)
                && stops_at(m.spec_collections().vehicle_journeys@, m.spec_collections().stop_points@, x, b);
            assert(r1.related(a, x) && r2.related(x, b));
        }
        if exists|x: usize| r1.related(a, x) && r2.related(x, b) {
            let x = choose|x: usize| r1.related(a, x) && r2.related(x, b);
            assert(refers(m.spec_collections().routes@, m.spec_collections().vehicle_journeys@, a, x)
                && stops_at(m.spec_collections().vehicle_journeys@, m.spec_collections().stop_points@, x, b));
        }
    }
    lemma_chain_image(&r1, &r2, &r, s);
}

/// In a built model, the routes of given physical modes are the routes of
/// the vehicle journeys run with those modes.
pub proof fn lemma_physical_mode_routes_sink(m: &Model, s: Set<usize>)
    requires
        m.relations_match(m.spec_collections()),
    ensures
        <Model as GetCorresponding<PhysicalMode, Route>>::corresponding(m, s)
            == <Model as GetCorresponding<VehicleJourney, Route>>::corresponding(
                m,
                <Model as GetCorresponding<PhysicalMode, VehicleJourney>>::corresponding(m, s),
            ),
{
    let r1 = m.spec_physical_modes_to_vehicle_journeys();
    let r2 = m.spec_routes_to_vehicle_journeys();
    let r = m.spec_physical_modes_to_routes();
    assert forall|a: usize, b: usize| #[trigger] r.related(a, b)
        <==> exists|x: usize| r1.related(a, x) && r2.related(b, x) by {
        if r.related(a, b) {
            let x = choose|x: usize| refers(m.spec_collections().physical_modes@, m.spec_collections().vehicle_journeys@, a, x)
                && refers(m.spec_collections().routes@, m.spec_collections().vehicle_journeys@, b, x);
            assert(r1.related(a, x) && r2.related(b, x));
        }
        if exists|x: usize| r1.related(a, x) && r2.related(b, x) {
            let x = choose|x: usize| r1.related(a, x) && r2.related(b, x);
            assert(refers(m.spec_collections().physical_modes@, m.spec_collections().vehicle_journeys@, a, x)
                && refers(m.spec_collections().routes@, m.spec_collections().vehicle_journeys@, b, x));
        }
    }
    lemma_sink_image(&r1, &r2, &r, s);
}

} // verus!
