//! One client connection: the features it has negotiated and the regions
//! it has subscribed, by request.

use vstd::prelude::*;
use crate::error::EventError;
use crate::feature::{Feature, FeatureGate};
use crate::ids::{ConnId, DownstreamId, RequestId};
use crate::seqs::{first_index, is_first, lemma_first_index, lemma_first_index_absent, lemma_first_index_found, views};
use crate::version::Version;

verus! {

/// One entry of a connection's table: request `request_id` watches region
/// `region_id` through subscription `downstream_id`.
#[derive(Clone, Copy, Debug, PartialEq, Eq, Structural)]
pub struct Subscription {
    pub request_id: RequestId,
    pub region_id: u64,
    pub downstream_id: DownstreamId,
}

/// A client connection.
///
/// It keeps two tables of subscriptions. Clients that do not multiplex
/// send every request under request id zero: their subscriptions are in
/// `exclusive`, where a region occurs once. Subscriptions under another
/// request id are in `multiplexed`, where a region occurs once for each
/// request.
#[derive(Clone, Debug, PartialEq, Eq)]
pub struct Conn {
    pub id: ConnId,
    /// The version that the client announced and the features that follow
    /// from it, once it has announced one.
    pub version: Option<(Version, FeatureGate)>,
    /// The subscriptions under request id zero, in the order in which
    /// they were made.
    pub exclusive: Vec<Subscription>,
    /// The other subscriptions, in the order in which they were made.
    pub multiplexed: Vec<Subscription>,
}

pub struct ConnView {
    pub id: ConnId,
    pub version: Option<(Version, FeatureGate)>,
    pub exclusive: Seq<Subscription>,
    pub multiplexed: Seq<Subscription>,
}

impl View for Conn {
    type V = ConnView;

    open spec fn view(&self) -> ConnView {
        ConnView {
            id: self.id,
            version: self.version,
            exclusive: self.exclusive@,
            multiplexed: self.multiplexed@,
        }
    }
}

/// The name by which a client asks for several subscriptions of one region
/// on one connection.
pub open spec fn stream_multiplexing_name() -> Seq<char> {
    "stream-multiplexing"@
}

/// No two entries of `s` are of the same request for the same region.
pub open spec fn subscriptions_distinct(s: Seq<Subscription>) -> bool {
    forall|i: int, j: int|
        0 <= i < j < s.len() ==> !(s[i].request_id == s[j].request_id && s[i].region_id
            == s[j].region_id)
}

/// The entries of `s` that do not belong to request `request_id`.
pub open spec fn without_request(s: Seq<Subscription>, request_id: RequestId) -> Seq<Subscription>
    decreases s.len(),
{
    if s.len() == 0 {
        Seq::empty()
    } else if s.last().request_id == request_id {
        without_request(s.drop_last(), request_id)
    } else {
        without_request(s.drop_last(), request_id).push(s.last())
    }
}

/// The regions and subscriptions of the entries of `s` that belong to
/// request `request_id`.
pub open spec fn of_request(s: Seq<Subscription>, request_id: RequestId) -> Seq<(u64, DownstreamId)>
    decreases s.len(),
{
    if s.len() == 0 {
        Seq::empty()
    } else if s.last().request_id == request_id {
        of_request(s.drop_last(), request_id).push((s.last().region_id, s.last().downstream_id))
    } else {
        of_request(s.drop_last(), request_id)
    }
}

/// The regions and subscriptions of the entries of `s`.
pub open spec fn targets(s: Seq<Subscription>) -> Seq<(u64, DownstreamId)> {
    Seq::new(s.len(), |i: int| (s[i].region_id, s[i].downstream_id))
}

impl ConnView {
    /// A connection that has announced nothing and subscribed nothing.
    pub open spec fn new(id: ConnId) -> ConnView {
        ConnView { id, version: None, exclusive: Seq::empty(), multiplexed: Seq::empty() }
    }

    /// All subscriptions: those under request id zero first.
    pub open spec fn downstreams(self) -> Seq<Subscription> {
        self.exclusive + self.multiplexed
    }

    /// The table that holds the subscriptions of the request.
    pub open spec fn table_of(self, request_id: RequestId) -> Seq<Subscription> {
        if request_id.0 == 0 {
            self.exclusive
        } else {
            self.multiplexed
        }
    }

    /// The connection with another table for the subscriptions of the
    /// request.
    pub open spec fn with_table(self, request_id: RequestId, table: Seq<Subscription>) -> ConnView {
        if request_id.0 == 0 {
            ConnView { exclusive: table, ..self }
        } else {
            ConnView { multiplexed: table, ..self }
        }
    }

    /// Each table holds the requests that belong there, and no request
    /// watches a region twice.
    pub open spec fn wf(self) -> bool {
        &&& subscriptions_distinct(self.exclusive)
        &&& subscriptions_distinct(self.multiplexed)
        &&& forall|i: int| 0 <= i < self.exclusive.len() ==> (#[trigger] self.exclusive[i]).request_id.0 == 0
        &&& forall|i: int|
            0 <= i < self.multiplexed.len() ==> (#[trigger] self.multiplexed[i]).request_id.0 != 0
    }

    /// The features of the connection; none before it has announced its
    /// version.
    pub open spec fn features(self) -> FeatureGate {
        match self.version {
            Some(v) => v.1,
            None => FeatureGate::spec_empty(),
        }
    }

    /// The features that a client of `version` gets that has asked for the
    /// features named in `explicit_features`.
    pub open spec fn negotiate(version: Version, explicit_features: Seq<Seq<char>>) -> FeatureGate {
        if explicit_features.contains(stream_multiplexing_name()) {
            FeatureGate::spec_default_features(version).spec_with(Feature::StreamMultiplexing, true)
        } else {
            FeatureGate::spec_default_features(version)
        }
    }

    /// The connection after the client has announced `version`. The first
    /// announcement settles version and features; a later one changes
    /// nothing.
    pub open spec fn check_version_and_set_feature(
        self,
        version: Version,
        explicit_features: Seq<Seq<char>>,
    ) -> ConnView {
        match self.version {
            Some(_) => self,
            None => ConnView {
                version: Some((version, Self::negotiate(version, explicit_features))),
                ..self
            },
        }
    }

    /// What the client is told of its announcement: nothing, unless the
    /// connection has settled on another version before.
    pub open spec fn version_conflict(self, version: Version) -> Option<EventError> {
        match self.version {
            Some(v) if v.0 != version => Some(EventError::Compatibility { required_version: v.0 }),
            _ => None,
        }
    }

    /// Tells the entries of request `request_id` for region `region_id`
    /// from the others.
    pub open spec fn matcher(request_id: RequestId, region_id: u64) -> spec_fn(Subscription) -> bool {
        |s: Subscription| s.request_id == request_id && s.region_id == region_id
    }

    /// The place of the subscription of the region by the request in the
    /// request's table.
    pub open spec fn index_of(self, request_id: RequestId, region_id: u64) -> Option<int> {
        first_index(self.table_of(request_id), Self::matcher(request_id, region_id))
    }

    /// The subscription through which request `request_id` watches region
    /// `region_id`, if it does.
    pub open spec fn get_downstream(self, request_id: RequestId, region_id: u64) -> Option<
        DownstreamId,
    > {
        match self.index_of(request_id, region_id) {
            Some(i) => Some(self.table_of(request_id)[i].downstream_id),
            None => None,
        }
    }

    /// The connection after request `request_id` has asked to watch region
    /// `region_id` through `downstream_id`: unchanged if it watches the
    /// region already.
    pub open spec fn subscribe(
        self,
        request_id: RequestId,
        region_id: u64,
        downstream_id: DownstreamId,
    ) -> ConnView {
        match self.index_of(request_id, region_id) {
            Some(_) => self,
            None => self.with_table(
                request_id,
                self.table_of(request_id).push(
                    Subscription { request_id, region_id, downstream_id },
                ),
            ),
        }
    }

    pub open spec fn unsubscribe(self, request_id: RequestId, region_id: u64) -> ConnView {
        match self.index_of(request_id, region_id) {
            Some(i) => self.with_table(request_id, self.table_of(request_id).remove(i)),
            None => self,
        }
    }

    /// The regions and subscriptions of the request.
    pub open spec fn of_request(self, request_id: RequestId) -> Seq<(u64, DownstreamId)> {
        of_request(self.table_of(request_id), request_id)
    }

    pub open spec fn unsubscribe_request(self, request_id: RequestId) -> ConnView {
        self.with_table(request_id, without_request(self.table_of(request_id), request_id))
    }
}

fn table_position(table: &Vec<Subscription>, request_id: RequestId, region_id: u64) -> (r: Option<
    usize,
>)
    ensures
        match r {
            Some(i) => first_index(table@, ConnView::matcher(request_id, region_id)) == Some(
                i as int,
            ) && i < table.len(),
            None => first_index(table@, ConnView::matcher(request_id, region_id)) == None::<int>,
        },
{
    let mut i: usize = 0;
    while i < table.len()
        invariant
            i <= table.len(),
            forall|j: int| 0 <= j < i ==> !ConnView::matcher(request_id, region_id)(#[trigger] table@[j]),
        decreases table.len() - i,
    {
        let s = table[i];
        if s.request_id == request_id && s.region_id == region_id {
            proof {
                let p = ConnView::matcher(request_id, region_id);
                assert(is_first(table@, p, i as int));
                lemma_first_index_found(table@, p, i as int);
            }
            return Some(i);
        }
        i += 1;
    }
    proof {
        lemma_first_index_absent(table@, ConnView::matcher(request_id, region_id));
    }
    None
}

/// Takes the entries of the request out of the table, and returns their
/// regions and subscriptions.
fn take_request(table: &mut Vec<Subscription>, request_id: RequestId) -> (r: Vec<(u64, DownstreamId)>)
    ensures
        final(table)@ == without_request(old(table)@, request_id),
        r@ == of_request(old(table)@, request_id),
{
    let mut kept: Vec<Subscription> = Vec::new();
    let mut gone: Vec<(u64, DownstreamId)> = Vec::new();
    let mut i: usize = 0;
    while i < table.len()
        invariant
            i <= table.len(),
            table@ == old(table)@,
            kept@ == without_request(table@.take(i as int), request_id),
            gone@ == of_request(table@.take(i as int), request_id),
        decreases table.len() - i,
    {
        let s = table[i];
        assert(table@.take(i + 1).drop_last() =~= table@.take(i as int));
        if s.request_id == request_id {
            gone.push((s.region_id, s.downstream_id));
        } else {
            kept.push(s);
        }
        i += 1;
    }
    assert(table@.take(table.len() as int) =~= table@);
    *table = kept;
    gone
}

impl Conn {
    pub fn new(id: ConnId) -> (r: Conn)
        ensures
            r@ == ConnView::new(id),
    {
        Conn { id, version: None, exclusive: Vec::new(), multiplexed: Vec::new() }
    }

    pub fn get_id(&self) -> (r: ConnId)
        ensures
            r == self@.id,
    {
        self.id
    }

    pub fn features(&self) -> (r: FeatureGate)
        ensures
            r == self@.features(),
    {
        match self.version {
            Some(v) => v.1,
            None => FeatureGate::empty(),
        }
    }

    /// The number of subscriptions, as far as the machine can count.
    pub fn downstreams_count(&self) -> (r: usize)
        ensures
            r == if self@.downstreams().len() <= usize::MAX {
                self@.downstreams().len() as usize
            } else {
                usize::MAX
            },
    {
        self.exclusive.len().saturating_add(self.multiplexed.len())
    }

    /// Records the version that the client announces, with the features
    /// that follow from it and from the names in `explicit_features`.
    /// Returns an error for the client if the connection has settled on
    /// another version before.
    pub fn check_version_and_set_feature(
        &mut self,
        version: Version,
        explicit_features: &Vec<String>,
    ) -> (r: Option<EventError>)
        ensures
            final(self)@ == old(self)@.check_version_and_set_feature(
                version,
                explicit_features@.map_values(|s: String| s@),
            ),
            r == old(self)@.version_conflict(version),
    {
        match self.version {
            Some(v) => {
                if v.0.major == version.major && v.0.minor == version.minor && v.0.patch
                    == version.patch && v.0.pre_release == version.pre_release {
                    None
                } else {
                    Some(EventError::Compatibility { required_version: v.0 })
                }
            },
            None => {
                let ghost names = explicit_features@.map_values(|s: String| s@);
                let wanted = "stream-multiplexing".to_owned();
                let mut found = false;
                let mut i: usize = 0;
                while i < explicit_features.len()
                    invariant
                        i <= explicit_features.len(),
                        wanted@ == stream_multiplexing_name(),
                        names == explicit_features@.map_values(|s: String| s@),
                        found == exists|j: int| 0 <= j < i && names[j] == stream_multiplexing_name(),
                    decreases explicit_features.len() - i,
                {
                    assert(names[i as int] == explicit_features@[i as int]@);
                    if explicit_features[i] == wanted {
                        found = true;
                    }
                    i += 1;
                }
                assert(found == names.contains(stream_multiplexing_name()));
                let mut features = FeatureGate::default_features(&version);
                if found {
                    features.set(Feature::StreamMultiplexing, true);
                }
                self.version = Some((version, features));
                None
            },
        }
    }

    pub fn get_downstream(&self, request_id: RequestId, region_id: u64) -> (r: Option<DownstreamId>)
        ensures
            r == self@.get_downstream(request_id, region_id),
    {
        if request_id.0 == 0 {
            match table_position(&self.exclusive, request_id, region_id) {
                Some(i) => Some(self.exclusive[i].downstream_id),
                None => None,
            }
        } else {
            match table_position(&self.multiplexed, request_id, region_id) {
                Some(i) => Some(self.multiplexed[i].downstream_id),
                None => None,
            }
        }
    }

    /// Enters a subscription, unless the request watches the region
    /// already: then nothing changes, and the subscription that is there
    /// is returned.
    pub fn subscribe(
        &mut self,
        request_id: RequestId,
        region_id: u64,
        downstream_id: DownstreamId,
    ) -> (r: Option<DownstreamId>)
        ensures
            final(self)@ == old(self)@.subscribe(request_id, region_id, downstream_id),
            r == old(self)@.get_downstream(request_id, region_id),
    {
        let entry = Subscription { request_id, region_id, downstream_id };
        if request_id.0 == 0 {
            match table_position(&self.exclusive, request_id, region_id) {
                Some(i) => Some(self.exclusive[i].downstream_id),
                None => {
                    self.exclusive.push(entry);
                    None
                },
            }
        } else {
            match table_position(&self.multiplexed, request_id, region_id) {
                Some(i) => Some(self.multiplexed[i].downstream_id),
                None => {
                    self.multiplexed.push(entry);
                    None
                },
            }
        }
    }

    /// Takes the subscription of the region by the request out, and
    /// returns it if there was one.
    pub fn unsubscribe(&mut self, request_id: RequestId, region_id: u64) -> (r: Option<DownstreamId>)
        ensures
            final(self)@ == old(self)@.unsubscribe(request_id, region_id),
            r == old(self)@.get_downstream(request_id, region_id),
    {
        if request_id.0 == 0 {
            match table_position(&self.exclusive, request_id, region_id) {
                Some(i) => {
                    let s = self.exclusive.remove(i);
                    Some(s.downstream_id)
                },
                None => None,
            }
        } else {
            match table_position(&self.multiplexed, request_id, region_id) {
                Some(i) => {
                    let s = self.multiplexed.remove(i);
                    Some(s.downstream_id)
                },
                None => None,
            }
        }
    }

    /// Takes all subscriptions of the request out, and returns their
    /// regions and ids in the order in which they were made.
    pub fn unsubscribe_request(&mut self, request_id: RequestId) -> (r: Vec<(u64, DownstreamId)>)
        ensures
            final(self)@ == old(self)@.unsubscribe_request(request_id),
            r@ == old(self)@.of_request(request_id),
    {
        if request_id.0 == 0 {
            take_request(&mut self.exclusive, request_id)
        } else {
            take_request(&mut self.multiplexed, request_id)
        }
    }

    /// The subscriptions: those under request id zero first, and each
    /// table in the order in which its subscriptions were made.
    pub fn subscriptions(&self) -> (r: Vec<Subscription>)
        ensures
            r@ == self@.downstreams(),
    {
        let mut out: Vec<Subscription> = Vec::new();
        let mut i: usize = 0;
        while i < self.exclusive.len()
            invariant
                i <= self.exclusive.len(),
                out@ == self.exclusive@.take(i as int),
            decreases self.exclusive.len() - i,
        {
            out.push(self.exclusive[i]);
            assert(self.exclusive@.take(i + 1) =~= self.exclusive@.take(i as int).push(
                self.exclusive@[i as int],
            ));
            i += 1;
        }
        assert(self.exclusive@.take(self.exclusive.len() as int) =~= self.exclusive@);
        let mut k: usize = 0;
        while k < self.multiplexed.len()
            invariant
                k <= self.multiplexed.len(),
                out@ == self.exclusive@ + self.multiplexed@.take(k as int),
            decreases self.multiplexed.len() - k,
        {
            out.push(self.multiplexed[k]);
            assert(self.multiplexed@.take(k + 1) =~= self.multiplexed@.take(k as int).push(
                self.multiplexed@[k as int],
            ));
            assert(out@ =~= self.exclusive@ + self.multiplexed@.take(k + 1));
            k += 1;
        }
        assert(self.multiplexed@.take(self.multiplexed.len() as int) =~= self.multiplexed@);
        out
    }
}

/// Tells the connection with the id from the others.
pub open spec fn conn_with_id(id: ConnId) -> spec_fn(ConnView) -> bool {
    |c: ConnView| c.id == id
}

/// The place of the connection with the id among `conns`.
pub open spec fn conn_index(conns: Seq<ConnView>, id: ConnId) -> Option<int> {
    first_index(conns, conn_with_id(id))
}

/// The features of the connection with the id among `conns`, if it is
/// there.
pub open spec fn features_of(conns: Seq<ConnView>, id: ConnId) -> Option<FeatureGate> {
    match conn_index(conns, id) {
        Some(i) => Some(conns[i].features()),
        None => None,
    }
}

/// Finds the connection with the id.
pub fn find_conn(conns: &Vec<Conn>, id: ConnId) -> (r: Option<usize>)
    ensures
        match r {
            Some(i) => conn_index(views(conns@), id) == Some(i as int) && i < conns.len(),
            None => conn_index(views(conns@), id) == None::<int>,
        },
{
    let mut i: usize = 0;
    while i < conns.len()
        invariant
            i <= conns.len(),
            forall|j: int| 0 <= j < i ==> !conn_with_id(id)(#[trigger] views(conns@)[j]),
        decreases conns.len() - i,
    {
        assert(views(conns@)[i as int] == conns@[i as int]@);
        if conns[i].id == id {
            proof {
                assert(is_first(views(conns@), conn_with_id(id), i as int));
                lemma_first_index_found(views(conns@), conn_with_id(id), i as int);
            }
            return Some(i);
        }
        i += 1;
    }
    proof {
        lemma_first_index_absent(views(conns@), conn_with_id(id));
    }
    None
}

/// Subscribing keeps a connection's tables in shape, and so does taking
/// a subscription out. Afterwards the request watches the region, or
/// does not watch it any more.
pub proof fn lemma_conn_wf(c: ConnView, request_id: RequestId, region_id: u64, id: DownstreamId)
    requires
        c.wf(),
    ensures
        c.subscribe(request_id, region_id, id).wf(),
        c.unsubscribe(request_id, region_id).wf(),
        c.unsubscribe(request_id, region_id).get_downstream(request_id, region_id) == None::<
            DownstreamId,
        >,
        c.subscribe(request_id, region_id, id).get_downstream(request_id, region_id) == match c.get_downstream(
            request_id,
            region_id,
        ) {
            Some(d) => Some(d),
            None => Some(id),
        },
{
    let p = ConnView::matcher(request_id, region_id);
    let table = c.table_of(request_id);
    lemma_first_index(table, p);
    match c.index_of(request_id, region_id) {
        Some(i) => {
            let t = table.remove(i);
            assert forall|j: int| 0 <= j < t.len() implies !p(#[trigger] t[j]) by {
                if j < i {
                    assert(t[j] == table[j]);
                } else {
                    assert(t[j] == table[j + 1]);
                }
            }
            lemma_first_index_absent(t, p);
            assert(subscriptions_distinct(t)) by {
                assert forall|a: int, b: int| 0 <= a < b < t.len() implies !(t[a].request_id
                    == t[b].request_id && t[a].region_id == t[b].region_id) by {
                    let a0 = if a < i {
                        a
                    } else {
                        a + 1
                    };
                    let b0 = if b < i {
                        b
                    } else {
                        b + 1
                    };
                    assert(t[a] == table[a0] && t[b] == table[b0]);
                }
            }
            assert forall|a: int| 0 <= a < t.len() implies ((#[trigger] t[a]).request_id.0 == 0) == (
            request_id.0 == 0) by {
                let a0 = if a < i {
                    a
                } else {
                    a + 1
                };
                assert(t[a] == table[a0]);
            }
            assert(c.unsubscribe(request_id, region_id).table_of(request_id) == t);
        },
        None => {
            let t = table.push(Subscription { request_id, region_id, downstream_id: id });
            assert(is_first(t, p, table.len() as int)) by {
                assert forall|j: int| 0 <= j < table.len() implies !p(#[trigger] t[j]) by {
                    assert(t[j] == table[j]);
                }
            }
            lemma_first_index_found(t, p, table.len() as int);
            assert forall|a: int, b: int| 0 <= a < b < t.len() implies !(t[a].request_id
                == t[b].request_id && t[a].region_id == t[b].region_id) by {
                if b == table.len() {
                    assert(!p(table[a]));
                }
            }
            assert(c.subscribe(request_id, region_id, id).table_of(request_id) == t);
            assert forall|a: int| 0 <= a < t.len() implies ((#[trigger] t[a]).request_id.0 == 0) == (
            request_id.0 == 0) by {
                if a < table.len() {
                    assert(t[a] == table[a]);
                }
            }
        },
    }
}

} // verus!
