//! The aggregate result of a run: request records keyed by name, and the
//! detected version.
use vstd::prelude::*;
use crate::http::{HttpRequest, HttpRequestView};
use vstd::string::StringExecFns;

verus! {

/// The version recorded before any version line has been seen.
pub open spec fn unknown_version() -> Seq<char> {
    "unknown"@
}

/// The names of the records, in order.
pub open spec fn names_of(es: Seq<HttpRequestView>) -> Seq<Seq<char>> {
    es.map_values(|r: HttpRequestView| r.name)
}

/// No two records share a name.
pub open spec fn names_unique(es: Seq<HttpRequestView>) -> bool {
    names_of(es).no_duplicates()
}

/// Record `k` carries `name`.
pub open spec fn has_name_at(es: Seq<HttpRequestView>, name: Seq<char>, k: int) -> bool {
    0 <= k < es.len() && es[k].name == name
}

/// The records as a mapping from name to record.
pub open spec fn endpoint_map(es: Seq<HttpRequestView>) -> Map<Seq<char>, HttpRequestView> {
    Map::new(
        |n: Seq<char>| exists|k: int| has_name_at(es, n, k),
        |n: Seq<char>| es[choose|k: int| has_name_at(es, n, k)],
    )
}

/// `es` with `r` in place of the record of the same name, or with `r` added
/// at the end where there is none.
pub open spec fn insert_request(es: Seq<HttpRequestView>, r: HttpRequestView) -> Seq<HttpRequestView> {
    if exists|k: int| has_name_at(es, r.name, k) {
        es.update(choose|k: int| has_name_at(es, r.name, k), r)
    } else {
        es.push(r)
    }
}

/// The content of a result set.
pub struct OutputView {
    pub endpoints: Seq<HttpRequestView>,
    pub version: Seq<char>,
}

/// The result set before any line is read.
pub open spec fn initial_output() -> OutputView {
    OutputView { endpoints: Seq::empty(), version: unknown_version() }
}

/// `o` after version `v` is offered: taken only while none is known yet.
pub open spec fn offer_version(o: OutputView, v: Seq<char>) -> OutputView {
    if o.version == unknown_version() {
        OutputView { version: v, ..o }
    } else {
        o
    }
}

/// `o` after request `r` is recorded.
pub open spec fn record_request(o: OutputView, r: HttpRequestView) -> OutputView {
    OutputView { endpoints: insert_request(o.endpoints, r), ..o }
}

/// Recording a request keeps names unique, maps its name to it and leaves
/// the other names as they were; the number of records grows by one exactly
/// when the name is new.
pub proof fn lemma_insert_request(es: Seq<HttpRequestView>, r: HttpRequestView)
    requires
        names_unique(es),
    ensures
        names_unique(insert_request(es, r)),
        endpoint_map(insert_request(es, r)) == endpoint_map(es).insert(r.name, r),
        insert_request(es, r).len() == es.len() + if endpoint_map(es).contains_key(r.name) {
            0int
        } else {
            1int
        },
{
    let res = insert_request(es, r);
    let m = endpoint_map(es).insert(r.name, r);
    if exists|k: int| has_name_at(es, r.name, k) {
        let k = choose|k: int| has_name_at(es, r.name, k);
        assert(has_name_at(res, r.name, k));
        assert(names_of(res) =~= names_of(es).update(k, r.name));
        assert forall|a: int, b: int| 0 <= a < b < names_of(res).len() implies names_of(res)[a]
            != names_of(res)[b] by {
            assert(names_of(es)[a] != names_of(es)[b]);
        }
        assert forall|n: Seq<char>| #[trigger] endpoint_map(res).contains_key(n) <==> m.contains_key(n) by {
            if m.contains_key(n) && n != r.name {
                let j = choose|j: int| has_name_at(es, n, j);
                assert(has_name_at(res, n, j));
            }
            if endpoint_map(res).contains_key(n) {
                let j = choose|j: int| has_name_at(res, n, j);
                if j != k {
                    assert(has_name_at(es, n, j));
                }
            }
        }
        assert forall|n: Seq<char>| #[trigger] endpoint_map(res).contains_key(n) implies endpoint_map(res)[n] == m[n] by {
            let j = choose|j: int| has_name_at(res, n, j);
            if n == r.name {
                assert(has_name_at(res, n, k));
                if j != k {
                    assert(names_of(res)[j] == names_of(res)[k]);
                }
            } else {
                assert(has_name_at(es, n, j));
                let i = choose|i: int| has_name_at(es, n, i);
                if i != j {
                    assert(names_of(es)[i] == names_of(es)[j]);
                }
            }
        }
        assert(endpoint_map(res) =~= m);
    } else {
        assert(names_of(res) =~= names_of(es).push(r.name));
        assert forall|a: int, b: int| 0 <= a < b < names_of(res).len() implies names_of(res)[a]
            != names_of(res)[b] by {
            if b == es.len() {
                assert(has_name_at(es, names_of(res)[a], a));
            } else {
                assert(names_of(es)[a] != names_of(es)[b]);
            }
        }
        assert forall|n: Seq<char>| #[trigger] endpoint_map(res).contains_key(n) <==> m.contains_key(n) by {
            if m.contains_key(n) && n != r.name {
                let j = choose|j: int| has_name_at(es, n, j);
                assert(has_name_at(res, n, j));
            }
            if n == r.name {
                assert(has_name_at(res, n, es.len() as int));
            }
            if endpoint_map(res).contains_key(n) && n != r.name {
                let j = choose|j: int| has_name_at(res, n, j);
                assert(has_name_at(es, n, j));
            }
        }
        assert forall|n: Seq<char>| #[trigger] endpoint_map(res).contains_key(n) implies endpoint_map(res)[n] == m[n] by {
            let j = choose|j: int| has_name_at(res, n, j);
            if n == r.name {
                if j != es.len() {
                    assert(has_name_at(es, n, j));
                }
            } else {
                assert(has_name_at(es, n, j));
                let i = choose|i: int| has_name_at(es, n, i);
                if i != j {
                    assert(names_of(es)[i] == names_of(es)[j]);
                }
            }
        }
        assert(endpoint_map(res) =~= m);
    }
}

/// With unique names, there are as many records as distinct names.
pub proof fn lemma_one_record_per_name(es: Seq<HttpRequestView>)
    requires
        names_unique(es),
    ensures
        endpoint_map(es).dom() == names_of(es).to_set(),
        es.len() == endpoint_map(es).dom().len(),
{
    assert forall|n: Seq<char>| #[trigger] endpoint_map(es).dom().contains(n) <==> names_of(es).to_set().contains(n) by {
        if names_of(es).contains(n) {
            let j = choose|j: int| 0 <= j < names_of(es).len() && names_of(es)[j] == n;
            assert(has_name_at(es, n, j));
        }
        if endpoint_map(es).dom().contains(n) {
            let j = choose|j: int| has_name_at(es, n, j);
            assert(names_of(es)[j] == n);
        }
    }
    assert(endpoint_map(es).dom() =~= names_of(es).to_set());
    names_of(es).unique_seq_to_set();
}

/// Of two requests with one name, the later one stays: the mapping holds it
/// under that name, and one record per distinct name.
pub proof fn lemma_later_request_replaces(es: Seq<HttpRequestView>, a: HttpRequestView, b: HttpRequestView)
    requires
        names_unique(es),
        a.name == b.name,
    ensures
        endpoint_map(insert_request(insert_request(es, a), b)) == endpoint_map(es).insert(b.name, b),
        insert_request(insert_request(es, a), b).len() == endpoint_map(
            insert_request(insert_request(es, a), b),
        ).dom().len(),
{
    lemma_insert_request(es, a);
    lemma_insert_request(insert_request(es, a), b);
    assert(endpoint_map(es).insert(a.name, a).insert(b.name, b) =~= endpoint_map(es).insert(b.name, b));
    lemma_one_record_per_name(insert_request(insert_request(es, a), b));
}

/// The result set of a run: one record per request name, and the version.
pub struct Output {
    pub endpoints: Vec<HttpRequest>,
    pub version: String,
}

impl View for Output {
    type V = OutputView;

    open spec fn view(&self) -> OutputView {
        OutputView { endpoints: self.endpoints@.map_values(|r: HttpRequest| r@), version: self.version@ }
    }
}

impl Output {
    /// Names are unique among the records.
    pub open spec fn wf(&self) -> bool {
        names_unique(self@.endpoints)
    }

    /// An empty result set whose version is still unknown.
    pub fn new() -> (r: Output)
        ensures
            r@ == initial_output(),
            r.wf(),
    {
        let r = Output { endpoints: Vec::new(), version: String::from_str("unknown") };
        proof {
            reveal_strlit("unknown");
            assert(r@.endpoints =~= Seq::<HttpRequestView>::empty());
            assert(names_of(r@.endpoints) =~= Seq::<Seq<char>>::empty());
        }
        r
    }

    /// Records `request`, in place of any earlier record of the same name.
    pub fn insert(&mut self, request: HttpRequest)
        requires
            old(self).wf(),
        ensures
            final(self).wf(),
            final(self)@ == record_request(old(self)@, request@),
    {
        let ghost es = self@.endpoints;
        let mut k: usize = 0;
        while k < self.endpoints.len()
            invariant
                self@ == old(self)@,
                es == old(self)@.endpoints,
                names_unique(es),
                k <= es.len(),
                forall|j: int| 0 <= j < k ==> !has_name_at(es, request.name@, j),
            decreases es.len() - k,
        {
            if self.endpoints[k].name == request.name {
                proof {
                    assert(has_name_at(es, request.name@, k as int));
                    let c = choose|j: int| has_name_at(es, request.name@, j);
                    if c != k {
                        assert(names_of(es)[c] == names_of(es)[k as int]);
                    }
                }
                self.endpoints.set(k, request);
                proof {
                    lemma_insert_request(es, request@);
                    assert(self@.endpoints =~= insert_request(es, request@));
                }
                return;
            }
            k = k + 1;
        }
        self.endpoints.push(request);
        proof {
            lemma_insert_request(es, request@);
            assert(self@.endpoints =~= insert_request(es, request@));
        }
    }

    /// Takes `version` unless a version is already known.
    pub fn set_version(&mut self, version: String)
        ensures
            final(self)@ == offer_version(old(self)@, version@),
            final(self).endpoints == old(self).endpoints,
    {
        let unknown = String::from_str("unknown");
        if self.version == unknown {
            self.version = version;
        }
    }
}

} // verus!
