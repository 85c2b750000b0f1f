//! What the channel overlay loads in the background: the bouquet the user
//! asked for, with the current EPG events of its channels.
use crate::enigma2::api::{
    answered_events, answered_services, bouquets_view, epg_outcome_for, error_kind, error_message,
    kind_message, outcome_of, services_outcome_for,
    Enigma2Client, Enigma2Error, Enigma2ErrorKind,
};
use crate::enigma2::model::{
    attach_epg, bouquet_with_events, events_view, Bouquet, BouquetView, EpgEvent, EpgEventView,
};
use vstd::prelude::*;

verus! {

/// The message shown when the receiver lists no bouquet.
pub const NO_BOUQUETS_MESSAGE: &'static str = "No bouquets found";

/// A bouquet loaded for the overlay: where it stands among how many, and the
/// message of a failed EPG request (the bouquet then carries no events).
#[derive(Debug)]
pub struct LoadedBouquet {
    pub index: usize,
    pub bouquet_count: usize,
    pub bouquet: Bouquet,
    pub epg_error: Option<String>,
}

/// The bouquet shown when `requested` was asked for among `count`: that
/// one, or the last when it does not exist.
pub open spec fn clamped_index(requested: int, count: int) -> int {
    if requested < count {
        requested
    } else {
        count - 1
    }
}

/// `bouquet` with the outcome of its EPG request: the events attached, or
/// the request's message kept beside the bare bouquet.
pub open spec fn loaded_is(l: LoadedBouquet, bouquet: BouquetView, epg: Result<Seq<EpgEventView>, Seq<char>>) -> bool {
    match epg {
        Ok(events) => l.bouquet@ == bouquet_with_events(bouquet, events) && l.epg_error is None,
        Err(m) => l.bouquet@ == bouquet && (l.epg_error matches Some(e) && e@ == m),
    }
}

pub open spec fn epg_outcome(r: Result<Vec<EpgEvent>, Enigma2Error>) -> Result<Seq<EpgEventView>, Seq<char>> {
    match r {
        Ok(v) => Ok(events_view(v@)),
        Err(e) => Err(error_message(e)),
    }
}

/// The loaded bouquet from the outcome of its EPG request.
pub fn loaded_from_epg(bouquet: Bouquet, epg: Result<Vec<EpgEvent>, Enigma2Error>) -> (r: LoadedBouquet)
    ensures
        r.index == 0,
        r.bouquet_count == 0,
        loaded_is(r, bouquet@, epg_outcome(epg)),
{
    match epg {
        Ok(events) => LoadedBouquet {
            index: 0,
            bouquet_count: 0,
            bouquet: attach_epg(bouquet, events.as_slice()),
            epg_error: None,
        },
        Err(err) => LoadedBouquet {
            index: 0,
            bouquet_count: 0,
            bouquet,
            epg_error: Some(err.message()),
        },
    }
}

/// Which bouquet to load from the outcome of the bouquet request: its
/// position (the one asked for, or the last) and how many there are; the
/// request's message, or `No bouquets found` when the list is empty.
pub fn choose_bouquet(bouquets: Result<Vec<Bouquet>, Enigma2Error>, requested_index: usize) -> (r:
    Result<(usize, usize, Bouquet), String>)
    ensures
        match bouquets {
            Err(e) => r matches Err(m) && m@ == error_message(e),
            Ok(v) => if v@.len() == 0 {
                r matches Err(m) && m@ == NO_BOUQUETS_MESSAGE@
            } else {
                r matches Ok((i, n, b)) && n == v@.len() && i as int == clamped_index(
                    requested_index as int,
                    n as int,
                ) && b@ == v@[i as int]@
            },
        },
{
    match bouquets {
        Err(e) => Err(e.message()),
        Ok(v) => {
            if v.len() == 0 {
                return Err(NO_BOUQUETS_MESSAGE.to_owned());
            }
            let index = if requested_index < v.len() {
                requested_index
            } else {
                v.len() - 1
            };
            let b = v[index].clone();
            Ok((index, v.len(), b))
        },
    }
}

/// The outcome of an EPG request with each error as its message.
pub open spec fn with_messages(o: Result<Seq<EpgEventView>, Enigma2ErrorKind>) -> Result<
    Seq<EpgEventView>,
    Seq<char>,
> {
    match o {
        Ok(es) => Ok(es),
        Err(k) => Err(kind_message(k)),
    }
}

/// `l` is `bouquet` loaded with what the client's `epgnow` request for the
/// bouquet's reference may give, with getter `g`.
pub open spec fn loaded_with_epg_of<G: Fn(&str) -> Result<String, Enigma2Error>>(
    g: G,
    l: LoadedBouquet,
    bouquet: BouquetView,
) -> bool {
    exists|o: Result<Seq<EpgEventView>, Enigma2ErrorKind>|
        #[trigger] epg_outcome_for(g, false, bouquet.service_ref, o) && loaded_is(
            l,
            bouquet,
            with_messages(o),
        ) && epg_answered(with_messages(o))
}

/// What loading the bouquet at `requested` gives once the service-list
/// request gave `listed`: its message; `No bouquets found` for an empty
/// list; else the bouquet asked for (or the last), with its EPG.
pub open spec fn load_outcome<G: Fn(&str) -> Result<String, Enigma2Error>>(
    g: G,
    requested: usize,
    listed: Result<Seq<BouquetView>, Enigma2ErrorKind>,
    r: Result<LoadedBouquet, String>,
) -> bool {
    match listed {
        Err(k) => r matches Err(m) && m@ == kind_message(k),
        Ok(bs) => if bs.len() == 0 {
            r matches Err(m) && m@ == NO_BOUQUETS_MESSAGE@
        } else {
            r matches Ok(l) && l.bouquet_count == bs.len() && l.index as int == clamped_index(
                requested as int,
                bs.len() as int,
            ) && loaded_with_epg_of(g, l, bs[l.index as int])
        },
    }
}

/// Loads the EPG of `bouquet` (`epg_now` for its reference); a failed
/// request leaves the bouquet without events and keeps the message.
pub fn load_bouquet_epg<G: Fn(&str) -> Result<String, Enigma2Error>>(
    client: &Enigma2Client<G>,
    bouquet: Bouquet,
) -> (r: Result<LoadedBouquet, String>)
    ensures
        r matches Ok(l) && l.index == 0 && l.bouquet_count == 0 && loaded_with_epg_of(
            client.getter(),
            l,
            bouquet@,
        ),
{
    let epg = client.epg_now(bouquet.service_ref.as_str());
    let ghost o = outcome_of(epg, |v: Vec<EpgEvent>| events_view(v@));
    let ghost er = epg;
    proof {
        if let Err(e) = er {
            assert(error_message(e) == kind_message(error_kind(e)));
        }
        assert(epg_outcome(er) == with_messages(o));
    }
    let ghost b = bouquet@;
    let l = loaded_from_epg(bouquet, epg);
    assert(epg_outcome_for(client.getter(), false, b.service_ref, o));
    assert(loaded_is(l, b, with_messages(o)) && epg_answered(with_messages(o)));
    Ok(l)
}

/// Loads the bouquet at `requested_index` (or the last one), with its EPG.
pub fn load_bouquet_by_index<G: Fn(&str) -> Result<String, Enigma2Error>>(
    client: &Enigma2Client<G>,
    requested_index: usize,
) -> (r: Result<LoadedBouquet, String>)
    ensures
        exists|listed: Result<Seq<BouquetView>, Enigma2ErrorKind>|
            #[trigger] services_outcome_for(client.getter(), listed) && load_outcome(
                client.getter(),
                requested_index,
                listed,
                r,
            ),
        r matches Ok(l) ==> exists|bs: Seq<BouquetView>| answered_services(bs) && bs.len()
            == l.bouquet_count && l.index < bs.len() && loaded_with_epg_of(
            client.getter(),
            l,
            bs[l.index as int],
        ),
{
    let bouquets = client.bouquets();
    let ghost listed = outcome_of(bouquets, |v: Vec<Bouquet>| bouquets_view(v@));
    let ghost bsr = bouquets;
    let chosen = match choose_bouquet(bouquets, requested_index) {
        Ok(c) => c,
        Err(m) => {
            proof {
                if let Err(e) = bsr {
                    assert(error_message(e) == kind_message(error_kind(e)));
                }
            }
            let r: Result<LoadedBouquet, String> = Err(m);
            assert(load_outcome(client.getter(), requested_index, listed, r));
            return r;
        },
    };
    let (index, count, bouquet) = chosen;
    let ghost bs = match bsr {
        Ok(v) => bouquets_view(v@),
        Err(_) => Seq::empty(),
    };
    let ghost b = bouquet@;
    assert(bs[index as int] == b);
    let mut loaded = match load_bouquet_epg(client, bouquet) {
        Ok(l) => l,
        Err(m) => {
            return Err(m);
        },
    };
    let ghost o = choose|o: Result<Seq<EpgEventView>, Enigma2ErrorKind>|
        #[trigger] epg_outcome_for(client.getter(), false, b.service_ref, o) && loaded_is(
            loaded,
            b,
            with_messages(o),
        ) && epg_answered(with_messages(o));
    loaded.index = index;
    loaded.bouquet_count = count;
    assert(epg_outcome_for(client.getter(), false, b.service_ref, o));
    assert(loaded_is(loaded, b, with_messages(o)));
    assert(loaded_with_epg_of(client.getter(), loaded, bs[loaded.index as int]));
    let r: Result<LoadedBouquet, String> = Ok(loaded);
    assert(load_outcome(client.getter(), requested_index, listed, r));
    r
}

/// The events of a successful EPG request are those of some answer.
pub open spec fn epg_answered(epg: Result<Seq<EpgEventView>, Seq<char>>) -> bool {
    epg matches Ok(es) ==> answered_events(es)
}

} // verus!
