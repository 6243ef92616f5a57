//! The network resource kind: its raw runtime shape, its normalized
//! domain record, the order its listings come in, and its description.

use vstd::prelude::*;

use crate::docker::traits::Describe;
use crate::docker::traits::DescribeSection;
use crate::text::lex_le;
use crate::text::opt_bool_text;
use crate::text::decimal;
use crate::text::count_string;
use crate::text::opt_bool_string;
use crate::text::str_le;

verus! {

/// Attachment details the runtime reports for one container on a network.
/// Every field is optional at the source and is preserved as such.
#[derive(Clone, Debug, PartialEq)]
pub struct NetworkContainer {
    pub name: Option<String>,
    pub endpoint_id: Option<String>,
    pub mac_address: Option<String>,
    pub ipv4_address: Option<String>,
    pub ipv6_address: Option<String>,
}

/// Mathematical model of a [`NetworkContainer`].
pub struct NetworkContainerModel {
    pub name: Option<Seq<char>>,
    pub endpoint_id: Option<Seq<char>>,
    pub mac_address: Option<Seq<char>>,
    pub ipv4_address: Option<Seq<char>>,
    pub ipv6_address: Option<Seq<char>>,
}

/// The view of an optional string: present text, or absent.
pub open spec fn opt_text(o: Option<String>) -> Option<Seq<char>> {
    match o {
        Some(s) => Some(s@),
        None => None,
    }
}

impl View for NetworkContainer {
    type V = NetworkContainerModel;

    open spec fn view(&self) -> NetworkContainerModel {
        NetworkContainerModel {
            name: opt_text(self.name),
            endpoint_id: opt_text(self.endpoint_id),
            mac_address: opt_text(self.mac_address),
            ipv4_address: opt_text(self.ipv4_address),
            ipv6_address: opt_text(self.ipv6_address),
        }
    }
}

/// A network as the runtime reports it: every field optional, populated
/// subsets varying by runtime version and driver. The attached-container
/// map arrives as (container id, attachment) pairs.
pub struct RawNetwork {
    pub id: Option<String>,
    pub name: Option<String>,
    pub driver: Option<String>,
    pub created: Option<String>,
    pub scope: Option<String>,
    pub internal: Option<bool>,
    pub attachable: Option<bool>,
    pub containers: Option<Vec<(String, NetworkContainer)>>,
}

/// The normalized network record. String fields are always present
/// (empty when the runtime did not report them); the boolean and
/// collection fields stay optional because "unknown" and "false"/"empty"
/// differ for them.
///
/// Identity convention: display and deletion key off `name`, not the raw
/// runtime `id`, because the runtime's removal call addresses networks by
/// name.
#[derive(Clone, Debug, PartialEq)]
pub struct DockerNetwork {
    pub id: String,
    pub name: String,
    pub driver: String,
    pub created_at: String,
    pub scope: String,
    pub internal: Option<bool>,
    pub attachable: Option<bool>,
    pub containers: Option<Vec<(String, NetworkContainer)>>,
}

/// Mathematical model of a [`DockerNetwork`].
#[verifier::ext_equal]
pub struct NetworkModel {
    pub id: Seq<char>,
    pub name: Seq<char>,
    pub driver: Seq<char>,
    pub created_at: Seq<char>,
    pub scope: Seq<char>,
    pub internal: Option<bool>,
    pub attachable: Option<bool>,
    pub containers: Option<Seq<(Seq<char>, NetworkContainerModel)>>,
}

/// Model of an optional attachment collection: each pair keeps the
/// container id and the attachment details.
pub open spec fn containers_model(
    c: Option<Vec<(String, NetworkContainer)>>,
) -> Option<Seq<(Seq<char>, NetworkContainerModel)>> {
    match c {
        Some(v) => Some(v@.map_values(|p: (String, NetworkContainer)| (p.0@, p.1@))),
        None => None,
    }
}

impl View for DockerNetwork {
    type V = NetworkModel;

    open spec fn view(&self) -> NetworkModel {
        NetworkModel {
            id: self.id@,
            name: self.name@,
            driver: self.driver@,
            created_at: self.created_at@,
            scope: self.scope@,
            internal: self.internal,
            attachable: self.attachable,
            containers: containers_model(self.containers),
        }
    }
}

/// The text of an optional string after normalization: empty when absent.
pub open spec fn text_or_empty(o: Option<String>) -> Seq<char> {
    match o {
        Some(s) => s@,
        None => Seq::empty(),
    }
}

/// The normalization policy, stated once per field: string-typed absence
/// becomes empty text; boolean- and collection-typed fields keep their
/// present/absent distinction.
pub open spec fn normalized(v: RawNetwork) -> NetworkModel {
    NetworkModel {
        id: text_or_empty(v.id),
        name: text_or_empty(v.name),
        driver: text_or_empty(v.driver),
        created_at: text_or_empty(v.created),
        scope: text_or_empty(v.scope),
        internal: v.internal,
        attachable: v.attachable,
        containers: containers_model(v.containers),
    }
}

fn or_empty(o: Option<String>) -> (r: String)
    ensures
        r@ == text_or_empty(o),
{
    match o {
        Some(s) => s,
        None => String::new(),
    }
}

impl DockerNetwork {
    /// Builds the normalized record from a raw runtime object. Total: no
    /// subset of populated raw fields can make it fail.
    pub fn from(v: RawNetwork) -> (r: DockerNetwork)
        ensures
            r@ == normalized(v),
    {
        DockerNetwork {
            id: or_empty(v.id),
            name: or_empty(v.name),
            driver: or_empty(v.driver),
            created_at: or_empty(v.created),
            scope: or_empty(v.scope),
            internal: v.internal,
            attachable: v.attachable,
            containers: v.containers,
        }
    }
}

/// The models of a sequence of records.
pub open spec fn models_of(s: Seq<DockerNetwork>) -> Seq<NetworkModel> {
    s.map_values(|d: DockerNetwork| d@)
}

/// The models of a sequence of raw objects after normalization.
pub open spec fn normalized_all(s: Seq<RawNetwork>) -> Seq<NetworkModel> {
    s.map_values(|v: RawNetwork| normalized(v))
}

/// Ascending name order, the order every listing is returned in.
pub open spec fn sorted_by_name(s: Seq<NetworkModel>) -> bool {
    forall|i: int, j: int| 0 <= i < j < s.len() ==> lex_le(s[i].name, s[j].name)
}

/// Stable insertion of a record into a name-sorted sequence: the new
/// record goes after every record whose name is not greater than its own.
pub open spec fn insert_by_name(x: NetworkModel, s: Seq<NetworkModel>) -> Seq<NetworkModel>
    decreases s.len(),
{
    if s.len() == 0 {
        seq![x]
    } else if lex_le(x.name, s[0].name) {
        seq![x] + s
    } else {
        seq![s[0]] + insert_by_name(x, s.skip(1))
    }
}

/// Stable by-name insertion sort: the unique name-sorted arrangement in
/// which records with equal names keep their input order.
pub open spec fn sort_by_name(s: Seq<NetworkModel>) -> Seq<NetworkModel>
    decreases s.len(),
{
    if s.len() == 0 {
        Seq::empty()
    } else {
        insert_by_name(s[0], sort_by_name(s.skip(1)))
    }
}

/// Inserting adds exactly the new record to the sequence's contents.
pub proof fn lemma_insert_by_name_multiset(x: NetworkModel, s: Seq<NetworkModel>)
    ensures
        insert_by_name(x, s).to_multiset() =~= s.to_multiset().insert(x),
    decreases s.len(),
{
    broadcast use vstd::seq_lib::group_to_multiset_ensures;

    if s.len() == 0 {
        assert(seq![x] =~= Seq::<NetworkModel>::empty().push(x));
    } else if lex_le(x.name, s[0].name) {
        vstd::seq_lib::lemma_multiset_commutative(seq![x], s);
        assert(seq![x] =~= Seq::<NetworkModel>::empty().push(x));
    } else {
        lemma_insert_by_name_multiset(x, s.skip(1));
        vstd::seq_lib::lemma_multiset_commutative(seq![s[0]], insert_by_name(x, s.skip(1)));
        vstd::seq_lib::lemma_multiset_commutative(seq![s[0]], s.skip(1));
        assert(s =~= seq![s[0]] + s.skip(1));
        assert(seq![s[0]] =~= Seq::<NetworkModel>::empty().push(s[0]));
    }
}

/// Every record of the inserted sequence is the new one or one of the old.
pub proof fn lemma_insert_by_name_elems(x: NetworkModel, s: Seq<NetworkModel>)
    ensures
        insert_by_name(x, s).len() == s.len() + 1,
        forall|k: int|
            0 <= k < insert_by_name(x, s).len() ==> (#[trigger] insert_by_name(x, s)[k] == x
                || s.contains(insert_by_name(x, s)[k])),
    decreases s.len(),
{
    if s.len() == 0 {
    } else if lex_le(x.name, s[0].name) {
        assert forall|k: int|
            0 <= k < insert_by_name(x, s).len() implies (#[trigger] insert_by_name(x, s)[k] == x
            || s.contains(insert_by_name(x, s)[k])) by {
            if k > 0 {
                assert(insert_by_name(x, s)[k] == s[k - 1]);
            }
        }
    } else {
        lemma_insert_by_name_elems(x, s.skip(1));
        let t = insert_by_name(x, s.skip(1));
        assert forall|k: int|
            0 <= k < insert_by_name(x, s).len() implies (#[trigger] insert_by_name(x, s)[k] == x
            || s.contains(insert_by_name(x, s)[k])) by {
            if k == 0 {
                assert(insert_by_name(x, s)[0] == s[0]);
                assert(s.contains(s[0]));
            } else {
                assert(insert_by_name(x, s)[k] == t[k - 1]);
                if t[k - 1] == x {
                } else {
                    let m = choose|m: int| 0 <= m < s.skip(1).len() && s.skip(1)[m] == t[k - 1];
                    assert(s[m + 1] == t[k - 1]);
                    assert(s.contains(s[m + 1]));
                }
            }
        }
    }
}

/// Inserting into a name-sorted sequence keeps it name-sorted.
pub proof fn lemma_insert_by_name_sorted(x: NetworkModel, s: Seq<NetworkModel>)
    requires
        sorted_by_name(s),
    ensures
        sorted_by_name(insert_by_name(x, s)),
    decreases s.len(),
{
    if s.len() == 0 {
    } else if lex_le(x.name, s[0].name) {
        let r = seq![x] + s;
        assert forall|i: int, j: int| 0 <= i < j < r.len() implies lex_le(r[i].name, r[j].name) by {
            if i == 0 {
                if j == 1 {
                    assert(r[j] == s[0]);
                } else {
                    assert(r[j] == s[j - 1]);
                    assert(lex_le(s[0].name, s[j - 1].name));
                    crate::text::lemma_lex_le_trans(x.name, s[0].name, s[j - 1].name);
                }
            } else {
                assert(r[i] == s[i - 1]);
                assert(r[j] == s[j - 1]);
            }
        }
    } else {
        assert(forall|i: int, j: int|
            0 <= i < j < s.skip(1).len() ==> lex_le(s.skip(1)[i].name, s.skip(1)[j].name)) by {
            assert(forall|k: int| 0 <= k < s.skip(1).len() ==> s.skip(1)[k] == s[k + 1]);
        }
        lemma_insert_by_name_sorted(x, s.skip(1));
        lemma_insert_by_name_elems(x, s.skip(1));
        let t = insert_by_name(x, s.skip(1));
        let r = seq![s[0]] + t;
        crate::text::lemma_lex_le_total(x.name, s[0].name);
        assert forall|i: int, j: int| 0 <= i < j < r.len() implies lex_le(r[i].name, r[j].name) by {
            if i == 0 {
                assert(r[j] == t[j - 1]);
                if t[j - 1] == x {
                    assert(lex_le(s[0].name, x.name));
                } else {
                    let m = choose|m: int|
                        0 <= m < s.skip(1).len() && s.skip(1)[m] == t[j - 1];
                    assert(s[m + 1] == t[j - 1]);
                    assert(lex_le(s[0].name, s[m + 1].name));
                }
            } else {
                assert(r[i] == t[i - 1]);
                assert(r[j] == t[j - 1]);
            }
        }
    }
}

/// Sorting returns a name-sorted permutation of its input.
pub proof fn lemma_sort_by_name_props(s: Seq<NetworkModel>)
    ensures
        sorted_by_name(sort_by_name(s)),
        sort_by_name(s).to_multiset() =~= s.to_multiset(),
        sort_by_name(s).len() == s.len(),
    decreases s.len(),
{
    broadcast use vstd::seq_lib::group_to_multiset_ensures;

    if s.len() == 0 {
    } else {
        lemma_sort_by_name_props(s.skip(1));
        lemma_insert_by_name_sorted(s[0], sort_by_name(s.skip(1)));
        lemma_insert_by_name_multiset(s[0], sort_by_name(s.skip(1)));
        lemma_insert_by_name_elems(s[0], sort_by_name(s.skip(1)));
        vstd::seq_lib::lemma_multiset_commutative(seq![s[0]], s.skip(1));
        assert(s =~= seq![s[0]] + s.skip(1));
        assert(seq![s[0]] =~= Seq::<NetworkModel>::empty().push(s[0]));
        assert(sort_by_name(s).to_multiset() =~= s.to_multiset());
        assert(sort_by_name(s).to_multiset().len() == s.to_multiset().len());
    }
}

/// Sorting a sequence that is already name-sorted leaves it unchanged.
pub proof fn lemma_sort_by_name_of_sorted(s: Seq<NetworkModel>)
    requires
        sorted_by_name(s),
    ensures
        sort_by_name(s) == s,
    decreases s.len(),
{
    if s.len() == 0 {
        assert(sort_by_name(s) =~= s);
    } else {
        assert(forall|i: int, j: int|
            0 <= i < j < s.skip(1).len() ==> lex_le(s.skip(1)[i].name, s.skip(1)[j].name)) by {
            assert(forall|k: int| 0 <= k < s.skip(1).len() ==> s.skip(1)[k] == s[k + 1]);
        }
        lemma_sort_by_name_of_sorted(s.skip(1));
        if s.len() == 1 {
            assert(sort_by_name(s) =~= s);
        } else {
            assert(s.skip(1)[0] == s[1]);
            assert(lex_le(s[0].name, s[1].name));
            assert(insert_by_name(s[0], s.skip(1)) =~= seq![s[0]] + s.skip(1));
            assert(seq![s[0]] + s.skip(1) =~= s);
        }
    }
}

/// Where a record lands when inserted by name: after the longest prefix
/// of records whose names are not greater than its own.
pub proof fn lemma_insert_by_name_at(x: NetworkModel, s: Seq<NetworkModel>, j: int)
    requires
        0 <= j <= s.len(),
        forall|k: int| 0 <= k < j ==> !lex_le(x.name, s[k].name),
        j < s.len() ==> lex_le(x.name, s[j].name),
    ensures
        insert_by_name(x, s) == s.insert(j, x),
    decreases j,
{
    if j == 0 {
        assert(insert_by_name(x, s) =~= s.insert(0, x));
    } else {
        assert(!lex_le(x.name, s[0].name));
        assert(forall|k: int| 0 <= k < j - 1 ==> s.skip(1)[k] == s[k + 1]);
        assert(j - 1 < s.skip(1).len() ==> s.skip(1)[j - 1] == s[j]);
        lemma_insert_by_name_at(x, s.skip(1), j - 1);
        assert(insert_by_name(x, s) == seq![s[0]] + s.skip(1).insert(j - 1, x));
        assert(seq![s[0]] + s.skip(1).insert(j - 1, x) =~= s.insert(j, x));
    }
}

/// Sorting by name is idempotent: re-sorting an already returned listing
/// yields the very same sequence.
pub proof fn lemma_sort_by_name_idempotent(s: Seq<NetworkModel>)
    ensures
        sort_by_name(sort_by_name(s)) == sort_by_name(s),
{
    lemma_sort_by_name_props(s);
    lemma_sort_by_name_of_sorted(sort_by_name(s));
}

fn find_insert_pos(records: &Vec<DockerNetwork>, x: &DockerNetwork) -> (j: usize)
    ensures
        j <= records@.len(),
        forall|k: int| 0 <= k < j ==> !lex_le(x@.name, models_of(records@)[k].name),
        j < records@.len() ==> lex_le(x@.name, models_of(records@)[j as int].name),
{
    let n = records.len();
    let mut j: usize = 0;
    while j < n
        invariant
            n == records@.len(),
            j <= n,
            forall|k: int| 0 <= k < j ==> !lex_le(x@.name, models_of(records@)[k].name),
        decreases n - j,
    {
        if str_le(x.name.as_str(), records[j].name.as_str()) {
            return j;
        }
        j = j + 1;
    }
    j
}

fn insert_record(records: &mut Vec<DockerNetwork>, x: DockerNetwork)
    ensures
        models_of(final(records)@) == insert_by_name(x@, models_of(old(records)@)),
{
    let ghost orig = records@;
    let j = find_insert_pos(records, &x);
    proof {
        lemma_insert_by_name_at(x@, models_of(orig), j as int);
    }
    records.insert(j, x);
    proof {
        assert(models_of(records@) =~= models_of(orig).insert(j as int, x@));
    }
}

impl DockerNetwork {
    /// Normalizes a snapshot of raw networks into records sorted by name
    /// ascending. Total: no raw object can make it fail; adapter failures
    /// never reach this function, the caller propagates them unchanged.
    pub fn list(raw: Vec<RawNetwork>) -> (r: Vec<DockerNetwork>)
        ensures
            models_of(r@) == sort_by_name(normalized_all(raw@)),
            sorted_by_name(models_of(r@)),
            models_of(r@).to_multiset() == normalized_all(raw@).to_multiset(),
    {
        let ghost orig = raw@;
        let mut raw = raw;
        let mut records: Vec<DockerNetwork> = Vec::new();
        proof {
            assert(raw@ =~= orig.take(raw@.len() as int));
            assert(normalized_all(orig).skip(orig.len() as int)
                =~= Seq::<NetworkModel>::empty());
            assert(models_of(records@) =~= Seq::<NetworkModel>::empty());
        }
        while raw.len() > 0
            invariant
                raw@.len() <= orig.len(),
                raw@ == orig.take(raw@.len() as int),
                models_of(records@) == sort_by_name(
                    normalized_all(orig).skip(raw@.len() as int),
                ),
            decreases raw@.len(),
        {
            let ghost k: int = raw@.len() as int;
            let v = raw.pop().unwrap();
            proof {
                assert(v == orig.take(k)[k - 1]);
                assert(v == orig[k - 1]);
                assert(raw@ =~= orig.take(k - 1));
            }
            let d = DockerNetwork::from(v);
            insert_record(&mut records, d);
            proof {
                let rest = normalized_all(orig).skip(k);
                let cur = normalized_all(orig).skip(k - 1);
                assert(cur.len() > 0);
                assert(cur[0] == normalized_all(orig)[k - 1]);
                assert(normalized_all(orig)[k - 1] == normalized(orig[k - 1]));
                assert(cur.skip(1) =~= rest);
                assert(sort_by_name(cur) == insert_by_name(cur[0], sort_by_name(rest)));
                assert(models_of(records@) == sort_by_name(cur));
            }
        }
        proof {
            assert(normalized_all(orig).skip(0) =~= normalized_all(orig));
            lemma_sort_by_name_props(normalized_all(orig));
        }
        records
    }
}

impl DockerNetwork {
    /// Turns the adapter's enumeration outcome into the listing outcome:
    /// a failure propagates unchanged, with no partial result; a snapshot
    /// is normalized and sorted by name.
    pub fn list_outcome<E>(outcome: Result<Vec<RawNetwork>, E>) -> (out: Result<
        Vec<DockerNetwork>,
        E,
    >)
        ensures
            outcome matches Ok(raw) ==> out matches Ok(r) && models_of(r@) == sort_by_name(
                normalized_all(raw@),
            ),
            outcome matches Err(e) ==> out == Result::<Vec<DockerNetwork>, E>::Err(e),
    {
        match outcome {
            Ok(raw) => Ok(DockerNetwork::list(raw)),
            Err(e) => Err(e),
        }
    }
}

/// The count the description shows for the attachment collection: the
/// number of reported attachments, zero when the runtime reported none.
pub open spec fn containers_count(c: Option<Seq<(Seq<char>, NetworkContainerModel)>>) -> nat {
    match c {
        Some(s) => s.len(),
        None => 0,
    }
}

/// The rows of a network record's Summary section: every scalar field as
/// text, optional booleans as "true"/"false" or "N/A", the attachment
/// collection as its count.
pub open spec fn summary_of(m: NetworkModel) -> Seq<(Seq<char>, Seq<char>)> {
    seq![
        ("ID"@, m.id),
        ("Name"@, m.name),
        ("Driver"@, m.driver),
        ("Created At"@, m.created_at),
        ("Scope"@, m.scope),
        ("Internal"@, opt_bool_text(m.internal)),
        ("Attachable"@, opt_bool_text(m.attachable)),
        ("Containers"@, decimal(containers_count(m.containers))),
    ]
}

/// The rows of a section as (label, value) text pairs.
pub open spec fn rows_of(items: Seq<(String, String)>) -> Seq<(Seq<char>, Seq<char>)> {
    items.map_values(|p: (String, String)| (p.0@, p.1@))
}

impl DockerNetwork {
    /// Canonical identity of the record, as display text.
    pub open spec fn spec_id(self) -> Seq<char> {
        self@.name
    }

    /// Display name of the record, as display text.
    pub open spec fn spec_name(self) -> Seq<char> {
        self@.name
    }
}

/// Identity convention: a network record's canonical identity equals its
/// display name, because the runtime's removal call addresses networks by
/// name.
pub proof fn lemma_identity_convention(d: DockerNetwork)
    ensures
        d.spec_id() == d.spec_name(),
{
}

impl Describe for DockerNetwork {
    /// Equals `get_name`: see the identity convention on the type.
    fn get_id(&self) -> (r: String)
        ensures
            r@ == self.spec_id(),
    {
        self.get_name()
    }

    fn get_name(&self) -> (r: String)
        ensures
            r@ == self.spec_name(),
    {
        self.name.clone()
    }

    /// A single Summary section holding exactly the rows of `summary_of`.
    fn describe(&self) -> (r: Vec<DescribeSection>)
        ensures
            r@.len() == 1,
            r@[0].title@ == "Summary"@,
            rows_of(r@[0].items@) == summary_of(self@),
    {
        let mut summary = DescribeSection::new("Summary");
        summary.item("ID", self.id.clone());
        summary.item("Name", self.name.clone());
        summary.item("Driver", self.driver.clone());
        summary.item("Created At", self.created_at.clone());
        summary.item("Scope", self.scope.clone());
        summary.item("Internal", opt_bool_string(&self.internal));
        summary.item("Attachable", opt_bool_string(&self.attachable));
        let count: usize = match &self.containers {
            Some(c) => c.len(),
            None => 0,
        };
        summary.item("Containers", count_string(count));
        proof {
            assert(rows_of(summary.items@) =~= summary_of(self@));
        }
        let mut r: Vec<DescribeSection> = Vec::new();
        r.push(summary);
        r
    }
}

/// Rendering of the optional booleans: a field the runtime did not report
/// shows as the literal "N/A"; a reported one as "true" or "false".
pub proof fn lemma_bool_rendering(v: RawNetwork)
    ensures
        v.internal is None ==> summary_of(normalized(v))[5].1 == "N/A"@,
        v.internal == Some(true) ==> summary_of(normalized(v))[5].1 == "true"@,
        v.internal == Some(false) ==> summary_of(normalized(v))[5].1 == "false"@,
        v.attachable is None ==> summary_of(normalized(v))[6].1 == "N/A"@,
        v.attachable == Some(true) ==> summary_of(normalized(v))[6].1 == "true"@,
        v.attachable == Some(false) ==> summary_of(normalized(v))[6].1 == "false"@,
{
}

/// Rendering of the attachment collection: absent shows as "0", present
/// with k entries as the decimal text of k.
pub proof fn lemma_containers_rendering(v: RawNetwork)
    ensures
        v.containers is None ==> summary_of(normalized(v))[7].1 == "0"@,
        v.containers matches Some(c) ==> summary_of(normalized(v))[7].1 == decimal(c@.len()),
{
    reveal_strlit("0");
    if v.containers is None {
        assert(summary_of(normalized(v))[7].1 =~= "0"@);
    }
}

} // verus!
