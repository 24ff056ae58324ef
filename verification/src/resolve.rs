//! Discovery-stream translation.
//!
//! A logical destination name is resolved by opening a discovery stream
//! and translating each inbound wire message into a semantic endpoint-set
//! update. The RPC channel itself lives outside this crate; what is asked
//! and what each answer means is decided here. Degenerate entries are
//! filtered: a malformed address is dropped, and an add or remove left
//! empty by that filtering yields no update at all.

use vstd::prelude::*;

verus! {

/// One routing label.
#[derive(Debug)]
pub struct Label {
    pub key: String,
    pub value: String,
}

impl Label {
    /// An equal copy.
    pub fn duplicate(&self) -> (r: Label)
        ensures
            r == *self,
    {
        Label { key: self.key.clone(), value: self.value.clone() }
    }
}

/// An endpoint's IP address.
#[derive(Copy, Clone, Debug, PartialEq, Eq, Structural)]
pub enum WireIp {
    V4(u32),
    V6(u64, u64),
}

/// A concrete socket address backing a logical name.
#[derive(Copy, Clone, Debug, PartialEq, Eq, Structural)]
pub struct SockAddr {
    pub ip: WireIp,
    pub port: u16,
}

/// An address as it arrives on the wire: the IP may be missing — the
/// entry is then malformed and is filtered out — and the port is a
/// 32-bit field of which only the low 16 bits are meaningful.
#[derive(Copy, Clone, Debug)]
pub struct WireAddr {
    pub ip: Option<WireIp>,
    pub port: u32,
}

/// One weighted entry of an "add" message: an address (possibly
/// missing), a load-balancing weight, and per-address labels.
#[derive(Debug)]
pub struct WireWeightedAddr {
    pub addr: Option<WireAddr>,
    pub weight: u32,
    pub labels: Vec<Label>,
}

/// Routing metadata attached to one endpoint: its weight, and the
/// stream-level labels followed by the address's own.
#[derive(Debug)]
pub struct EndpointMetadata {
    pub weight: u32,
    pub labels: Vec<Label>,
}

/// One inbound message of the discovery stream: an address-set addition
/// with stream-level labels, an address-set removal, a no-endpoints
/// notice with its existence flag, or a message carrying no recognized
/// variant.
#[derive(Debug)]
pub enum WireUpdate {
    Add(Vec<WireWeightedAddr>, Vec<Label>),
    Remove(Vec<WireAddr>),
    NoEndpoints(bool),
    Unrecognized,
}

/// One semantic update handed to the consumer, which reconciles its own
/// endpoint-set state; each update is self-contained.
#[derive(Debug)]
pub enum ResolutionUpdate {
    Add(Vec<(SockAddr, EndpointMetadata)>),
    Remove(Vec<SockAddr>),
    Reset(Vec<(SockAddr, EndpointMetadata)>),
    DoesNotExist,
}

/// A wire address is usable when it carries an IP.
pub open spec fn wire_addr_valid(w: WireAddr) -> bool {
    w.ip is Some
}

/// The socket address a usable wire address denotes.
pub open spec fn sock_of(w: WireAddr) -> SockAddr {
    SockAddr { ip: w.ip->0, port: (w.port % 0x10000) as u16 }
}

/// The socket addresses of the usable entries, in wire order.
pub open spec fn valid_socks(ws: Seq<WireAddr>) -> Seq<SockAddr>
    decreases ws.len(),
{
    if ws.len() == 0 {
        Seq::empty()
    } else {
        let rest = valid_socks(ws.drop_last());
        if wire_addr_valid(ws.last()) {
            rest.push(sock_of(ws.last()))
        } else {
            rest
        }
    }
}

/// A weighted entry is usable when it carries an address with an IP.
pub open spec fn weighted_valid(w: WireWeightedAddr) -> bool {
    w.addr matches Some(a) && wire_addr_valid(a)
}

/// Mathematical image of one resolved endpoint.
pub ghost struct EndpointModel {
    pub addr: SockAddr,
    pub weight: u32,
    pub labels: Seq<Label>,
}

/// The endpoint a usable weighted entry denotes, under the stream-level
/// labels.
pub open spec fn endpoint_of(w: WireWeightedAddr, set_labels: Seq<Label>) -> EndpointModel {
    EndpointModel {
        addr: sock_of(w.addr->0),
        weight: w.weight,
        labels: set_labels + w.labels@,
    }
}

/// The endpoints of the usable entries, in wire order.
pub open spec fn valid_endpoints(ws: Seq<WireWeightedAddr>, set_labels: Seq<Label>) -> Seq<
    EndpointModel,
>
    decreases ws.len(),
{
    if ws.len() == 0 {
        Seq::empty()
    } else {
        let rest = valid_endpoints(ws.drop_last(), set_labels);
        if weighted_valid(ws.last()) {
            rest.push(endpoint_of(ws.last(), set_labels))
        } else {
            rest
        }
    }
}

/// Mathematical image of one endpoint-and-metadata pair.
pub open spec fn endpoint_view(p: (SockAddr, EndpointMetadata)) -> EndpointModel {
    EndpointModel { addr: p.0, weight: p.1.weight, labels: p.1.labels@ }
}

/// Mathematical image of a resolved endpoint list.
pub open spec fn endpoints_view(v: Seq<(SockAddr, EndpointMetadata)>) -> Seq<EndpointModel> {
    v.map_values(|p: (SockAddr, EndpointMetadata)| endpoint_view(p))
}

/// Mathematical image of a [`ResolutionUpdate`].
pub ghost enum UpdateModel {
    Add(Seq<EndpointModel>),
    Remove(Seq<SockAddr>),
    Reset(Seq<EndpointModel>),
    DoesNotExist,
}

impl View for ResolutionUpdate {
    type V = UpdateModel;

    open spec fn view(&self) -> UpdateModel {
        match self {
            ResolutionUpdate::Add(v) => UpdateModel::Add(endpoints_view(v@)),
            ResolutionUpdate::Remove(v) => UpdateModel::Remove(v@),
            ResolutionUpdate::Reset(v) => UpdateModel::Reset(endpoints_view(v@)),
            ResolutionUpdate::DoesNotExist => UpdateModel::DoesNotExist,
        }
    }
}

/// What one wire message means. An add or remove whose usable entries
/// come to nothing yields no update; a no-endpoints notice with the name
/// existing yields an empty reset, and with the name not existing yields
/// does-not-exist; an unrecognized message yields nothing.
pub open spec fn translate_spec(u: WireUpdate) -> Option<UpdateModel> {
    match u {
        WireUpdate::Add(ws, sl) => if valid_endpoints(ws@, sl@).len() == 0 {
            None
        } else {
            Some(UpdateModel::Add(valid_endpoints(ws@, sl@)))
        },
        WireUpdate::Remove(ws) => if valid_socks(ws@).len() == 0 {
            None
        } else {
            Some(UpdateModel::Remove(valid_socks(ws@)))
        },
        WireUpdate::NoEndpoints(present) => if present {
            Some(UpdateModel::Reset(Seq::empty()))
        } else {
            Some(UpdateModel::DoesNotExist)
        },
        WireUpdate::Unrecognized => None,
    }
}

/// Mathematical image of a translation's result.
pub open spec fn translated_view(r: Option<ResolutionUpdate>) -> Option<UpdateModel> {
    match r {
        None => None,
        Some(up) => Some(up@),
    }
}

/// Stream-level labels followed by the entry's own.
fn merge_labels(set: &Vec<Label>, own: Vec<Label>) -> (r: Vec<Label>)
    ensures
        r@ == set@ + own@,
{
    let ghost own0 = own@;
    let mut rest = own;
    let mut r: Vec<Label> = Vec::new();
    let mut i: usize = 0;
    while i < set.len()
        invariant
            i <= set@.len(),
            r@ =~= set@.subrange(0, i as int),
        decreases set@.len() - i,
    {
        r.push(set[i].duplicate());
        i += 1;
    }
    r.append(&mut rest);
    proof {
        assert(r@ =~= set@ + own0);
    }
    r
}

/// Translates one inbound wire message into at most one semantic update.
pub fn translate_update(u: WireUpdate) -> (r: Option<ResolutionUpdate>)
    ensures
        translated_view(r) == translate_spec(u),
{
    match u {
        WireUpdate::Add(ws, sl) => {
            let ghost all = ws@;
            let mut rest = ws;
            let mut out: Vec<(SockAddr, EndpointMetadata)> = Vec::new();
            let ghost done: int = 0;
            while rest.len() > 0
                invariant
                    0 <= done <= all.len(),
                    rest@ == all.subrange(done, all.len() as int),
                    endpoints_view(out@) == valid_endpoints(all.subrange(0, done), sl@),
                decreases rest@.len(),
            {
                let ghost out_before = out@;
                let w = rest.remove(0);
                proof {
                    assert(rest@ =~= all.subrange(done + 1, all.len() as int));
                    assert(all.subrange(0, done + 1).drop_last() =~= all.subrange(0, done));
                    assert(all.subrange(0, done + 1).last() == w);
                }
                match w.addr {
                    Some(a) => match a.ip {
                        Some(ip) => {
                            let port = (a.port % 0x10000) as u16;
                            let meta = EndpointMetadata {
                                weight: w.weight,
                                labels: merge_labels(&sl, w.labels),
                            };
                            let sa = SockAddr { ip, port };
                            out.push((sa, meta));
                            proof {
                                assert(endpoints_view(out@) =~= endpoints_view(out_before).push(
                                    endpoint_view(out@.last()),
                                ));
                                assert(endpoint_view(out@.last()) == endpoint_of(w, sl@));
                            }
                        },
                        None => {},
                    },
                    None => {},
                }
                proof {
                    assert(endpoints_view(out@) == valid_endpoints(all.subrange(0, done + 1), sl@));
                    done = done + 1;
                }
            }
            proof {
                assert(all.subrange(0, done) =~= all);
                assert(endpoints_view(out@).len() == out@.len());
            }
            if out.len() == 0 {
                None
            } else {
                Some(ResolutionUpdate::Add(out))
            }
        },
        WireUpdate::Remove(ws) => {
            let ghost all = ws@;
            let mut rest = ws;
            let mut out: Vec<SockAddr> = Vec::new();
            let ghost done: int = 0;
            while rest.len() > 0
                invariant
                    0 <= done <= all.len(),
                    rest@ == all.subrange(done, all.len() as int),
                    out@ == valid_socks(all.subrange(0, done)),
                decreases rest@.len(),
            {
                let w = rest.remove(0);
                proof {
                    assert(rest@ =~= all.subrange(done + 1, all.len() as int));
                    assert(all.subrange(0, done + 1).drop_last() =~= all.subrange(0, done));
                    assert(all.subrange(0, done + 1).last() == w);
                }
                match w.ip {
                    Some(ip) => {
                        let port = (w.port % 0x10000) as u16;
                        out.push(SockAddr { ip, port });
                    },
                    None => {},
                }
                proof {
                    assert(out@ == valid_socks(all.subrange(0, done + 1)));
                    done = done + 1;
                }
            }
            proof {
                assert(all.subrange(0, done) =~= all);
            }
            if out.len() == 0 {
                None
            } else {
                Some(ResolutionUpdate::Remove(out))
            }
        },
        WireUpdate::NoEndpoints(present) => {
            if present {
                let empty: Vec<(SockAddr, EndpointMetadata)> = Vec::new();
                proof {
                    assert(endpoints_view(empty@) =~= Seq::<EndpointModel>::empty());
                }
                Some(ResolutionUpdate::Reset(empty))
            } else {
                Some(ResolutionUpdate::DoesNotExist)
            }
        },
        WireUpdate::Unrecognized => None,
    }
}

/// A resolver bound to one caller context token. The RPC channel itself
/// lives outside this crate; this type decides what is asked and what
/// each answer means.
pub struct Resolve {
    pub context_token: String,
}

/// The request that opens a discovery stream: the logical path asked
/// for, and the caller's context token.
#[derive(Debug)]
pub struct DiscoveryRequest {
    pub path: String,
    pub context_token: String,
}

impl Resolve {
    pub fn new(context_token: String) -> (r: Self)
        ensures
            r.context_token@ == context_token@,
    {
        Resolve { context_token }
    }

    /// The request for one logical destination name.
    pub fn make_request(&self, path: String) -> (r: DiscoveryRequest)
        ensures
            r.path@ == path@,
            r.context_token@ == self.context_token@,
    {
        DiscoveryRequest { path, context_token: self.context_token.clone() }
    }
}

} // verus!
