//! The assembled dataset: an ordered mapping from (epoch, satellite)
//! to the unified entry, the merge engine, and the read views.
use vstd::prelude::*;

use crate::epoch::{epoch_le, epoch_lt, lemma_epoch_lt_connected, lemma_epoch_lt_trans, Epoch};
use crate::errors::MergeError;
use crate::header::Header;
use crate::ids::{sv_lt, sv_lt_exec, SV};

verus! {

/// The composite identity of one data point.
#[derive(Debug, Clone, Copy, PartialEq, Eq, Structural)]
pub struct SP3Key {
    pub epoch: Epoch,
    pub sv: SV,
}

/// The unified record for one key.  Every fractional quantity is an
/// exact scaled integer: positions in `1e-6` km, velocities in `1e-10`
/// km/s (the raw decimeter field scaled into km/s), clock offsets in
/// `1e-6` microseconds, clock drifts in `1e-10` nanoseconds per second.
#[derive(Debug, Clone, Copy, PartialEq, Eq)]
pub struct SP3Entry {
    pub position_km_e6: (i64, i64, i64),
    pub velocity_km_s_e10: Option<(i64, i64, i64)>,
    pub clock_us_e6: Option<i64>,
    pub clock_drift_ns_e10: Option<i64>,
    pub maneuver: bool,
    pub orbit_prediction: bool,
    pub clock_prediction: bool,
    pub clock_event: bool,
}

/// Strict key order: epoch first, satellite second.
pub open spec fn key_lt(a: SP3Key, b: SP3Key) -> bool {
    epoch_lt(a.epoch, b.epoch) || (a.epoch == b.epoch && sv_lt(a.sv, b.sv))
}

pub fn key_lt_exec(a: &SP3Key, b: &SP3Key) -> (r: bool)
    ensures
        r == key_lt(*a, *b),
{
    if crate::epoch::epoch_lt_exec(&a.epoch, &b.epoch) {
        true
    } else if crate::epoch::epoch_lt_exec(&b.epoch, &a.epoch) {
        false
    } else {
        proof {
            lemma_epoch_lt_connected(a.epoch, b.epoch);
        }
        sv_lt_exec(&a.sv, &b.sv)
    }
}

/// The key order is total: of two distinct keys one is smaller, and
/// never both.
pub proof fn lemma_key_lt_connected(a: SP3Key, b: SP3Key)
    ensures
        !key_lt(a, b) && !key_lt(b, a) ==> a == b,
        key_lt(a, b) ==> !key_lt(b, a),
        key_lt(a, b) ==> a != b,
{
    lemma_epoch_lt_connected(a.epoch, b.epoch);
    lemma_epoch_lt_connected(b.epoch, a.epoch);
}

pub proof fn lemma_key_lt_trans(a: SP3Key, b: SP3Key, c: SP3Key)
    requires
        key_lt(a, b),
        key_lt(b, c),
    ensures
        key_lt(a, c),
{
    if epoch_lt(a.epoch, b.epoch) && epoch_lt(b.epoch, c.epoch) {
        lemma_epoch_lt_trans(a.epoch, b.epoch, c.epoch);
    }
}

/// Stored strictly by the key order: sorted, every key once.
pub open spec fn sorted_unique(s: Seq<(SP3Key, SP3Entry)>) -> bool {
    forall|i: int, j: int| 0 <= i < j < s.len() ==> key_lt(#[trigger] s[i].0, #[trigger] s[j].0)
}

/// The mapping a stored sequence denotes.
pub open spec fn kv_map(s: Seq<(SP3Key, SP3Entry)>) -> Map<SP3Key, SP3Entry>
    decreases s.len(),
{
    if s.len() == 0 {
        Map::empty()
    } else {
        kv_map(s.drop_last()).insert(s.last().0, s.last().1)
    }
}

pub proof fn lemma_kv_map_contains(s: Seq<(SP3Key, SP3Entry)>, k: SP3Key)
    ensures
        kv_map(s).contains_key(k) <==> (exists|i: int| 0 <= i < s.len() && (#[trigger] s[i]).0 == k),
    decreases s.len(),
{
    if s.len() > 0 {
        lemma_kv_map_contains(s.drop_last(), k);
        if kv_map(s).contains_key(k) {
            if s.last().0 == k {
                assert(s[s.len() - 1].0 == k);
            } else {
                let i = choose|i: int| 0 <= i < s.len() - 1 && (#[trigger] s.drop_last()[i]).0 == k;
                assert(s[i].0 == k);
            }
        }
        if exists|i: int| 0 <= i < s.len() && (#[trigger] s[i]).0 == k {
            let i = choose|i: int| 0 <= i < s.len() && (#[trigger] s[i]).0 == k;
            if i < s.len() - 1 {
                assert(s.drop_last()[i].0 == k);
            }
        }
    }
}

/// In a uniquely-keyed sequence, the mapping reads each stored pair.
pub proof fn lemma_kv_map_get(s: Seq<(SP3Key, SP3Entry)>, i: int)
    requires
        0 <= i < s.len(),
        forall|j: int| i < j < s.len() ==> (#[trigger] s[j]).0 != s[i].0,
    ensures
        kv_map(s).contains_key(s[i].0),
        kv_map(s)[s[i].0] == s[i].1,
    decreases s.len(),
{
    if i == s.len() - 1 {
    } else {
        lemma_kv_map_get(s.drop_last(), i);
        assert(s.drop_last()[i] == s[i]);
        assert(s.last().0 != s[i].0);
    }
}

/// Updating the entry at one index updates the mapping at its key.
pub proof fn lemma_kv_map_update(s: Seq<(SP3Key, SP3Entry)>, i: int, e: SP3Entry)
    requires
        0 <= i < s.len(),
        forall|j: int| 0 <= j < s.len() && j != i ==> (#[trigger] s[j]).0 != s[i].0,
    ensures
        kv_map(s.update(i, (s[i].0, e))) =~= kv_map(s).insert(s[i].0, e),
    decreases s.len(),
{
    let s2 = s.update(i, (s[i].0, e));
    if i == s.len() - 1 {
        assert(s2.drop_last() =~= s.drop_last());
        assert(s2.last() == (s[i].0, e));
    } else {
        lemma_kv_map_update(s.drop_last(), i, e);
        assert(s2.drop_last() =~= s.drop_last().update(i, (s[i].0, e)));
        assert(s2.last() == s.last());
        assert(s.last().0 != s[i].0);
        assert(kv_map(s2) =~= kv_map(s.drop_last()).insert(s[i].0, e).insert(
            s.last().0,
            s.last().1,
        ));
    }
}

/// Inserting a pair under a fresh key inserts it into the mapping.
pub proof fn lemma_kv_map_insert(s: Seq<(SP3Key, SP3Entry)>, i: int, k: SP3Key, v: SP3Entry)
    requires
        0 <= i <= s.len(),
        forall|j: int| 0 <= j < s.len() ==> (#[trigger] s[j]).0 != k,
    ensures
        kv_map(s.insert(i, (k, v))) =~= kv_map(s).insert(k, v),
    decreases s.len(),
{
    let s2 = s.insert(i, (k, v));
    if i == s.len() {
        assert(s2.drop_last() =~= s);
        assert(s2.last() == (k, v));
    } else {
        lemma_kv_map_insert(s.drop_last(), i, k, v);
        assert(s2.drop_last() =~= s.drop_last().insert(i, (k, v)));
        assert(s2.last() == s.last());
        assert(s.last().0 != k);
        assert(kv_map(s2) =~= kv_map(s.drop_last()).insert(k, v).insert(s.last().0, s.last().1));
    }
}

/// One complete dataset.
pub struct SP3 {
    pub header: Header,
    /// The body, stored strictly ordered by key.
    pub data: Vec<(SP3Key, SP3Entry)>,
}

impl SP3 {
    /// The structural invariant: the body is strictly ordered, so each
    /// key holds at most one entry.
    pub open spec fn wf(&self) -> bool {
        sorted_unique(self.data@)
    }

    /// The mapping the dataset denotes.
    pub open spec fn map_view(&self) -> Map<SP3Key, SP3Entry> {
        kv_map(self.data@)
    }
}

/// Where `key` belongs in the ordered body: the index of the first
/// stored key not below it.
pub fn find_key(data: &Vec<(SP3Key, SP3Entry)>, key: &SP3Key) -> (r: (usize, bool))
    requires
        sorted_unique(data@),
    ensures
        r.0 <= data@.len(),
        forall|j: int| 0 <= j < r.0 ==> key_lt((#[trigger] data@[j]).0, *key),
        r.1 ==> r.0 < data@.len() && data@[r.0 as int].0 == *key,
        !r.1 ==> (r.0 == data@.len() || key_lt(*key, data@[r.0 as int].0)),
        !r.1 ==> forall|j: int| 0 <= j < data@.len() ==> (#[trigger] data@[j]).0 != *key,
    decreases data@.len(),
{
    let mut i: usize = 0;
    while i < data.len() && key_lt_exec(&data[i].0, key)
        invariant
            i <= data@.len(),
            forall|j: int| 0 <= j < i ==> key_lt((#[trigger] data@[j]).0, *key),
        decreases data@.len() - i,
    {
        i = i + 1;
    }
    if i < data.len() {
        let found = data[i].0 == *key;
        proof {
            if !found {
                lemma_key_lt_connected(data@[i as int].0, *key);
                assert(key_lt(*key, data@[i as int].0));
                assert forall|j: int| 0 <= j < data@.len() implies (#[trigger] data@[j]).0
                    != *key by {
                    if j < i {
                        lemma_key_lt_connected(data@[j].0, *key);
                    } else if j > i {
                        lemma_key_lt_trans(*key, data@[i as int].0, data@[j].0);
                        lemma_key_lt_connected(*key, data@[j].0);
                    }
                }
            }
        }
        (i, found)
    } else {
        proof {
            assert forall|j: int| 0 <= j < data@.len() implies (#[trigger] data@[j]).0 != *key by {
                lemma_key_lt_connected(data@[j].0, *key);
            }
        }
        (i, false)
    }
}

/// Inserting at the returned position keeps the body strictly ordered.
pub proof fn lemma_sorted_insert(s: Seq<(SP3Key, SP3Entry)>, i: int, k: SP3Key, v: SP3Entry)
    requires
        sorted_unique(s),
        0 <= i <= s.len(),
        forall|j: int| 0 <= j < i ==> key_lt((#[trigger] s[j]).0, k),
        i < s.len() ==> key_lt(k, s[i].0),
    ensures
        sorted_unique(s.insert(i, (k, v))),
{
    let s2 = s.insert(i, (k, v));
    assert forall|p: int, q: int| 0 <= p < q < s2.len() implies key_lt(
        (#[trigger] s2[p]).0,
        (#[trigger] s2[q]).0,
    ) by {
        if q > i {
            // the element at q is an old one, shifted up
            assert(s2[q] == s[q - 1]);
            if p == i {
                if q - 1 > i {
                    lemma_key_lt_trans(k, s[i].0, s[q - 1].0);
                }
            } else if p < i {
                assert(s2[p] == s[p]);
                if q - 1 == i {
                    // adjacent across the insertion point
                    assert(key_lt(s[p].0, k) && key_lt(k, s[q - 1].0) ==> key_lt(
                        s[p].0,
                        s[q - 1].0,
                    )) by {
                        if key_lt(s[p].0, k) && key_lt(k, s[q - 1].0) {
                            lemma_key_lt_trans(s[p].0, k, s[q - 1].0);
                        }
                    }
                    assert(key_lt(k, s[i].0));
                    lemma_key_lt_trans(s[p].0, k, s[q - 1].0);
                }
            }
        } else if q == i {
            assert(s2[p] == s[p]);
        }
    }
}

/// Iterated in stored order, the epochs of a well-formed body never
/// decrease: the ordering invariant of the key type.
pub proof fn lemma_epochs_monotone(s: Seq<(SP3Key, SP3Entry)>)
    requires
        sorted_unique(s),
    ensures
        forall|i: int, j: int|
            0 <= i <= j < s.len() ==> epoch_le((#[trigger] s[i]).0.epoch, (#[trigger] s[j]).0.epoch),
{
    assert forall|i: int, j: int| 0 <= i <= j < s.len() implies epoch_le(
        (#[trigger] s[i]).0.epoch,
        (#[trigger] s[j]).0.epoch,
    ) by {
        if i < j {
            assert(key_lt(s[i].0, s[j].0));
        }
    }
}

proof fn lemma_epoch_le_lt_neq(a: Epoch, b: Epoch, c: Epoch)
    requires
        epoch_le(a, b),
        epoch_lt(b, c),
    ensures
        a != c,
        epoch_lt(a, c),
{
    if a == b {
    } else {
        lemma_epoch_lt_trans(a, b, c);
    }
    lemma_epoch_lt_connected(a, c);
}

proof fn lemma_to_set_push(s: Seq<Epoch>, x: Epoch)
    ensures
        (s.push(x)).to_set() =~= s.to_set().insert(x),
{
    broadcast use vstd::set::group_set_axioms;

    assert forall|e: Epoch| #[trigger] (s.push(x)).to_set().contains(e) implies s.to_set().insert(
        x,
    ).contains(e) by {
        let j = choose|j: int| 0 <= j < s.push(x).len() && s.push(x)[j] == e;
        if j < s.len() {
            assert(s[j] == e);
            assert(s.contains(e));
        }
    }
    assert forall|e: Epoch| #[trigger] s.to_set().insert(x).contains(e) implies (s.push(
        x,
    )).to_set().contains(e) by {
        if e == x {
            assert(s.push(x)[s.len() as int] == e);
        } else {
            let j = choose|j: int| 0 <= j < s.len() && s[j] == e;
            assert(s.push(x)[j] == e);
        }
        assert(s.push(x).contains(e));
    }
}

/// Whether two headers carry the same declared fields (the satellite
/// list included).
pub open spec fn header_same(a: Header, b: Header) -> bool {
    &&& a.version == b.version
    &&& a.data_type == b.data_type
    &&& a.coord_system@ == b.coord_system@
    &&& a.orbit_type == b.orbit_type
    &&& a.agency@ == b.agency@
    &&& a.release_datetime == b.release_datetime
    &&& a.num_epochs == b.num_epochs
    &&& a.data_used@ == b.data_used@
    &&& a.week_counter == b.week_counter
    &&& a.epoch_interval == b.epoch_interval
    &&& a.mjd == b.mjd
    &&& a.constellation == b.constellation
    &&& a.timescale == b.timescale
    &&& a.comments@.map_values(|c: String| c@) == b.comments@.map_values(|c: String| c@)
    &&& a.satellites@ == b.satellites@
}

fn clone_strings(v: &Vec<String>) -> (r: Vec<String>)
    ensures
        r@.map_values(|c: String| c@) == v@.map_values(|c: String| c@),
{
    let mut r: Vec<String> = Vec::new();
    let mut i: usize = 0;
    while i < v.len()
        invariant
            i <= v@.len(),
            r@.len() == i,
            forall|j: int| 0 <= j < i ==> (#[trigger] r@[j])@ == v@[j]@,
        decreases v@.len() - i,
    {
        r.push(v[i].clone());
        i = i + 1;
    }
    proof {
        assert(r@.map_values(|c: String| c@) =~= v@.map_values(|c: String| c@));
    }
    r
}

fn clone_svs(v: &Vec<SV>) -> (r: Vec<SV>)
    ensures
        r@ == v@,
{
    let mut r: Vec<SV> = Vec::new();
    let mut i: usize = 0;
    while i < v.len()
        invariant
            i <= v@.len(),
            r@ == v@.take(i as int),
        decreases v@.len() - i,
    {
        r.push(v[i]);
        proof {
            assert(r@ =~= v@.take(i + 1));
        }
        i = i + 1;
    }
    proof {
        assert(v@.take(v@.len() as int) =~= v@);
    }
    r
}

fn clone_header(h: &Header) -> (r: Header)
    ensures
        header_same(*h, r),
{
    Header {
        version: h.version,
        data_type: h.data_type,
        coord_system: h.coord_system.clone(),
        orbit_type: h.orbit_type,
        agency: h.agency.clone(),
        release_datetime: h.release_datetime,
        num_epochs: h.num_epochs,
        data_used: h.data_used.clone(),
        week_counter: h.week_counter,
        epoch_interval: h.epoch_interval,
        mjd: h.mjd,
        constellation: h.constellation,
        timescale: h.timescale,
        comments: clone_strings(&h.comments),
        satellites: clone_svs(&h.satellites),
    }
}

fn clone_pairs(v: &Vec<(SP3Key, SP3Entry)>) -> (r: Vec<(SP3Key, SP3Entry)>)
    ensures
        r@ == v@,
{
    let mut r: Vec<(SP3Key, SP3Entry)> = Vec::new();
    let mut i: usize = 0;
    while i < v.len()
        invariant
            i <= v@.len(),
            r@ == v@.take(i as int),
        decreases v@.len() - i,
    {
        r.push(v[i]);
        proof {
            assert(r@ =~= v@.take(i + 1));
        }
        i = i + 1;
    }
    proof {
        assert(v@.take(v@.len() as int) =~= v@);
    }
    r
}

impl SP3 {
    /// Merges two datasets.  The headers must name the same producing
    /// agency: ephemerides of different producers never combine.  The
    /// merged header keeps this dataset's fields; the body is the
    /// union of both mappings, and on a key present in both, this
    /// dataset's entry is kept (a deterministic prefer-self policy for
    /// the format's open overlap question).
    #[verifier::spinoff_prover]
    #[verifier::rlimit(100)]
    pub fn merge(&self, rhs: &SP3) -> (r: Result<SP3, MergeError>)
        requires
            self.wf(),
            rhs.wf(),
        ensures
            r is Ok <==> self.header.agency@ == rhs.header.agency@,
            r matches Err(e) ==> e is IncompatibleProvenance,
            r matches Ok(m) ==> m.wf() && header_same(self.header, m.header) && kv_map(m.data@)
                =~= kv_map(rhs.data@).union_prefer_right(kv_map(self.data@)),
    {
        if !str_eq(self.header.agency.as_str(), rhs.header.agency.as_str()) {
            return Err(MergeError::IncompatibleProvenance);
        }
        let mut data = clone_pairs(&self.data);
        let ghost amap = kv_map(self.data@);
        let ghost b = rhs.data@;
        let mut j: usize = 0;
        proof {
            assert(kv_map(b.take(0)) =~= Map::<SP3Key, SP3Entry>::empty());
            assert(kv_map(data@) =~= kv_map(b.take(0)).union_prefer_right(amap));
        }
        while j < rhs.data.len()
            invariant
                j <= b.len(),
                b == rhs.data@,
                amap == kv_map(self.data@),
                sorted_unique(b),
                sorted_unique(data@),
                kv_map(data@) =~= kv_map(b.take(j as int)).union_prefer_right(amap),
            decreases b.len() - j,
        {
            let k = rhs.data[j].0;
            let v = rhs.data[j].1;
            let ghost x = kv_map(b.take(j as int));
            proof {
                assert(b.take(j + 1).drop_last() =~= b.take(j as int));
                assert(b.take(j + 1).last() == (k, v));
                assert(kv_map(b.take(j + 1)) == x.insert(k, v));
                // the key is fresh among the earlier merged-in ones
                assert forall|l: int| 0 <= l < j implies (#[trigger] b.take(j as int)[l]).0
                    != k by {
                    assert(key_lt(b[l].0, b[j as int].0));
                    lemma_key_lt_connected(b[l].0, b[j as int].0);
                }
                lemma_kv_map_contains(b.take(j as int), k);
                assert(!x.contains_key(k));
            }
            let (idx, found) = find_key(&data, &k);
            if found {
                proof {
                    lemma_kv_map_contains(data@, k);
                    assert(kv_map(data@).contains_key(k));
                    assert(amap.contains_key(k));
                    assert(kv_map(b.take(j + 1)).union_prefer_right(amap) =~= kv_map(
                        b.take(j as int),
                    ).union_prefer_right(amap));
                }
            } else {
                let ghost before = data@;
                data.insert(idx, (k, v));
                proof {
                    lemma_kv_map_contains(before, k);
                    assert(!amap.contains_key(k));
                    lemma_sorted_insert(before, idx as int, k, v);
                    lemma_kv_map_insert(before, idx as int, k, v);
                    assert(kv_map(data@) =~= kv_map(b.take(j + 1)).union_prefer_right(amap));
                }
            }
            j = j + 1;
        }
        proof {
            assert(b.take(b.len() as int) =~= b);
        }
        Ok(SP3 { header: clone_header(&self.header), data })
    }

    /// How many distinct epochs the body spans.
    #[verifier::spinoff_prover]
    #[verifier::rlimit(100)]
    pub fn total_epochs(&self) -> (r: usize)
        requires
            self.wf(),
        ensures
            r as int == self.data@.map_values(|kv: (SP3Key, SP3Entry)| kv.0.epoch).to_set().len(),
    {
        broadcast use vstd::seq_lib::seq_to_set_is_finite;
        broadcast use vstd::set::group_set_axioms;

        let ghost es = self.data@.map_values(|kv: (SP3Key, SP3Entry)| kv.0.epoch);
        let mut count: usize = 0;
        let mut i: usize = 0;
        proof {
            assert(es.take(0).to_set() =~= Set::<Epoch>::empty());
            lemma_epochs_monotone(self.data@);
        }
        while i < self.data.len()
            invariant
                i <= self.data@.len(),
                es == self.data@.map_values(|kv: (SP3Key, SP3Entry)| kv.0.epoch),
                sorted_unique(self.data@),
                count <= i,
                count as int == es.take(i as int).to_set().len(),
            decreases self.data@.len() - i,
        {
            broadcast use vstd::seq_lib::seq_to_set_is_finite;
            broadcast use vstd::set::group_set_axioms;

            let ghost prevset = es.take(i as int).to_set();
            proof {
                assert(es.take(i + 1) =~= es.take(i as int).push(es[i as int]));
                lemma_to_set_push(es.take(i as int), es[i as int]);
                assert(es.take(i + 1).to_set() =~= prevset.insert(es[i as int]));
                lemma_epochs_monotone(self.data@);
            }
            let is_new = if i == 0 {
                true
            } else {
                let ea = self.data[i - 1].0.epoch;
                let eb = self.data[i].0.epoch;
                let different = !(ea == eb);
                proof {
                    if different {
                        assert(epoch_le(es[i - 1], es[i as int]));
                        assert(epoch_lt(es[i - 1], es[i as int])) by {
                            lemma_epoch_lt_connected(es[i - 1], es[i as int]);
                            lemma_epoch_lt_connected(es[i as int], es[i - 1]);
                        }
                        assert forall|l: int| 0 <= l < i implies es.take(i as int)[l]
                            != es[i as int] by {
                            assert(epoch_le(es[l], es[i - 1]));
                            lemma_epoch_le_lt_neq(es[l], es[i - 1], es[i as int]);
                        }
                        assert(!prevset.contains(es[i as int]));
                    } else {
                        assert(es.take(i as int)[i - 1] == es[i as int]);
                        assert(prevset.contains(es[i as int]));
                        assert(prevset.insert(es[i as int]) =~= prevset);
                    }
                }
                different
            };
            if is_new {
                proof {
                    if i == 0 {
                        assert(es.take(0).to_set() =~= Set::<Epoch>::empty());
                        assert(!prevset.contains(es[i as int]));
                    }
                }
                count = count + 1;
            }
            i = i + 1;
        }
        proof {
            assert(es.take(es.len() as int) =~= es);
        }
        count
    }

    /// The earliest epoch of the body.
    pub fn first_epoch(&self) -> (r: Option<Epoch>)
        requires
            self.wf(),
        ensures
            r is Some <==> self.data@.len() > 0,
            r matches Some(e) ==> e == self.data@[0].0.epoch && forall|i: int|
                0 <= i < self.data@.len() ==> epoch_le(e, (#[trigger] self.data@[i]).0.epoch),
    {
        if self.data.len() == 0 {
            None
        } else {
            proof {
                lemma_epochs_monotone(self.data@);
            }
            Some(self.data[0].0.epoch)
        }
    }

    /// The latest epoch of the body.
    pub fn last_epoch(&self) -> (r: Option<Epoch>)
        requires
            self.wf(),
        ensures
            r is Some <==> self.data@.len() > 0,
            r matches Some(e) ==> e == self.data@[self.data@.len() - 1].0.epoch && forall|i: int|
                0 <= i < self.data@.len() ==> epoch_le((#[trigger] self.data@[i]).0.epoch, e),
    {
        if self.data.len() == 0 {
            None
        } else {
            proof {
                lemma_epochs_monotone(self.data@);
            }
            Some(self.data[self.data.len() - 1].0.epoch)
        }
    }
}

/// Exact character-for-character equality of two fields.
fn str_eq(a: &str, b: &str) -> (r: bool)
    ensures
        r == (a@ == b@),
{
    let na = a.unicode_len();
    let nb = b.unicode_len();
    if na != nb {
        proof {
            assert(a@ != b@);
        }
        return false;
    }
    let mut i: usize = 0;
    while i < na
        invariant
            i <= na,
            na == a@.len(),
            na == b@.len(),
            forall|j: int| 0 <= j < i ==> a@[j] == b@[j],
        decreases na - i,
    {
        if a.get_char(i) != b.get_char(i) {
            return false;
        }
        i = i + 1;
    }
    proof {
        assert(a@ =~= b@);
    }
    true
}

} // verus!
