//! The host range database: ordered host networks, all-or-nothing
//! construction, and first-match address lookup.

use vstd::prelude::*;

verus! {

use crate::descriptor::HostJson;
use crate::error::HostError;
use crate::extract::{count_present, extract_from_json, extracted_cidrs, extraction_error,
    extraction_ok, lemma_extracted_count};
use crate::json::{doc_fields, json_wellformed};
use crate::net::{addr_in_networks, spec_addr_in_networks};

/// The parsed ranges of one host: its display name and its CIDR blocks in
/// document order, duplicates kept. Created once per descriptor during
/// database construction and immutable thereafter.
#[derive(Debug)]
pub struct HostNetwork {
    pub name: String,
    pub subnets: Vec<crate::net::Ipv4Cidr>,
}

/// Whether some subnet of `h` contains the address.
pub open spec fn host_matches(h: HostNetwork, a: u32) -> bool {
    spec_addr_in_networks(a, h.subnets@)
}

/// First-match lookup: the name of the earliest host in `hosts` one of
/// whose subnets contains `a`, if any.
pub open spec fn lookup_spec(hosts: Seq<HostNetwork>, a: u32) -> Option<Seq<char>>
    decreases hosts.len(),
{
    if hosts.len() == 0 {
        None
    } else if host_matches(hosts[0], a) {
        Some(hosts[0].name@)
    } else {
        lookup_spec(hosts.drop_first(), a)
    }
}

/// A database associating host names with the networks they own. Ordered by
/// registration: earlier hosts win ties. Read-only once constructed;
/// lookups never mutate it.
#[derive(Debug)]
pub struct HostDatabase {
    hosts: Vec<HostNetwork>,
}

impl View for HostDatabase {
    type V = Seq<HostNetwork>;

    closed spec fn view(&self) -> Seq<HostNetwork> {
        self.hosts@
    }
}

impl HostDatabase {
    /// Build the database from descriptors and the texts of the documents
    /// they point at: `documents[i]` holds the content of the file at
    /// `host_jsons[i]`'s path. One host network is registered per
    /// descriptor, in input order. Construction is all-or-nothing: the
    /// first failing extraction aborts the build with that failure, and no
    /// partial database is exposed.
    pub fn from_jsons(host_jsons: &[HostJson], documents: &[String]) -> (r: Result<
        HostDatabase,
        HostError,
    >)
        requires
            host_jsons@.len() == documents@.len(),
        ensures
            match r {
                Ok(db) => db@.len() == host_jsons@.len() && (forall|i: int|
                    0 <= i < db@.len() ==> extraction_ok(
                        #[trigger] host_jsons@[i],
                        documents@[i]@,
                    )) && (forall|i: int|
                    0 <= i < db@.len() ==> (#[trigger] db@[i]).name@
                        == host_jsons@[i].hostname_spec()) && (forall|i: int|
                    0 <= i < db@.len() ==> (#[trigger] db@[i]).subnets@ == extracted_cidrs(
                        host_jsons@[i],
                        documents@[i]@,
                    )) && (forall|i: int|
                    0 <= i < db@.len() ==> json_wellformed(#[trigger] documents@[i]@)) && (forall|
                    i: int,
                    k: int,
                |
                    0 <= i < db@.len() && 0 <= k < db@[i].subnets@.len() ==> (
                    #[trigger] db@[i].subnets@[k]).prefix <= 32),
                Err(e) => exists|i: int|
                    0 <= i < documents@.len() && !extraction_ok(
                        #[trigger] host_jsons@[i],
                        documents@[i]@,
                    ) && (forall|j: int|
                        0 <= j < i ==> extraction_ok(#[trigger] host_jsons@[j], documents@[j]@))
                        && extraction_error(host_jsons@[i], documents@[i]@, e),
            },
    {
        let mut hosts: Vec<HostNetwork> = Vec::new();
        let mut i: usize = 0;
        while i < host_jsons.len()
            invariant
                i <= host_jsons@.len(),
                host_jsons@.len() == documents@.len(),
                hosts@.len() == i,
                forall|j: int|
                    0 <= j < i ==> extraction_ok(#[trigger] host_jsons@[j], documents@[j]@),
                forall|j: int|
                    0 <= j < i ==> (#[trigger] hosts@[j]).name@ == host_jsons@[j].hostname_spec(),
                forall|j: int|
                    0 <= j < i ==> (#[trigger] hosts@[j]).subnets@ == extracted_cidrs(
                        host_jsons@[j],
                        documents@[j]@,
                    ),
                forall|j: int| 0 <= j < i ==> json_wellformed(#[trigger] documents@[j]@),
                forall|j: int, k: int|
                    0 <= j < i && 0 <= k < hosts@[j].subnets@.len() ==> (
                    #[trigger] hosts@[j].subnets@[k]).prefix <= 32,
            decreases host_jsons@.len() - i,
        {
            let subnets = match extract_from_json(&host_jsons[i], documents[i].as_str()) {
                Ok(s) => s,
                Err(e) => {
                    return Err(e);
                },
            };
            let name = host_jsons[i].hostname().to_owned();
            hosts.push(HostNetwork { name, subnets });
            i = i + 1;
        }
        Ok(HostDatabase { hosts })
    }

    /// The name of the given address' host, if any: the name of the
    /// earliest-registered host one of whose subnets contains `addr`, or
    /// `None` when no host's subnets contain it. Lookup never fails and
    /// never mutates the database.
    pub fn get_host(&self, addr: u32) -> (r: Option<&str>)
        ensures
            match r {
                Some(name) => lookup_spec(self@, addr) == Some(name@),
                None => lookup_spec(self@, addr) is None,
            },
    {
        let mut i: usize = 0;
        proof {
            assert(self@.skip(0) =~= self@);
        }
        while i < self.hosts.len()
            invariant
                i <= self.hosts@.len(),
                lookup_spec(self.hosts@, addr) == lookup_spec(self.hosts@.skip(i as int), addr),
            decreases self.hosts@.len() - i,
        {
            proof {
                assert(self.hosts@.skip(i as int)[0] == self.hosts@[i as int]);
                assert(self.hosts@.skip(i as int).drop_first() =~= self.hosts@.skip(i as int + 1));
            }
            if addr_in_networks(addr, self.hosts[i].subnets.as_slice()) {
                return Some(self.hosts[i].name.as_str());
            }
            i = i + 1;
        }
        proof {
            assert(self.hosts@.skip(self.hosts@.len() as int) =~= Seq::<HostNetwork>::empty());
        }
        None
    }
}

/// A build from one valid descriptor with a well-formed backing document —
/// what `from_jsons` promises of a one-descriptor success — yields exactly
/// one host, whose subnet count equals the number of array entries carrying
/// the range field; entries missing the field are excluded, not errors.
pub proof fn lemma_single_descriptor_build(hj: HostJson, text: Seq<char>, db: Seq<HostNetwork>)
    requires
        db.len() == 1,
        extraction_ok(hj, text),
        db[0].subnets@ == extracted_cidrs(hj, text),
    ensures
        db[0].subnets@.len() == count_present(
            doc_fields(text, hj.pointer_spec(), hj.field_spec()).unwrap(),
        ),
{
    lemma_extracted_count(hj, text);
}

/// If some subnet of `hosts[i]` contains `a` and no earlier host's subnets
/// do, the lookup returns `hosts[i]`'s name.
pub proof fn lemma_lookup_at(hosts: Seq<HostNetwork>, a: u32, i: int)
    requires
        0 <= i < hosts.len(),
        host_matches(hosts[i], a),
        forall|j: int| 0 <= j < i ==> !host_matches(#[trigger] hosts[j], a),
    ensures
        lookup_spec(hosts, a) == Some(hosts[i].name@),
    decreases i,
{
    if i > 0 {
        lemma_lookup_at(hosts.drop_first(), a, i - 1);
    }
}

/// The lookup comes back absent exactly when no host's subnets contain the
/// address.
pub proof fn lemma_lookup_none(hosts: Seq<HostNetwork>, a: u32)
    ensures
        lookup_spec(hosts, a) is None <==> (forall|i: int|
            0 <= i < hosts.len() ==> !host_matches(#[trigger] hosts[i], a)),
    decreases hosts.len(),
{
    if hosts.len() > 0 {
        lemma_lookup_none(hosts.drop_first(), a);
        let rest = hosts.drop_first();
        if !host_matches(hosts[0], a) && lookup_spec(rest, a) is None {
            assert forall|i: int| 0 <= i < hosts.len() implies !host_matches(
                #[trigger] hosts[i],
                a,
            ) by {
                if i > 0 {
                    assert(!host_matches(rest[i - 1], a));
                }
            }
        }
        if forall|i: int| 0 <= i < hosts.len() ==> !host_matches(#[trigger] hosts[i], a) {
            assert forall|i: int| 0 <= i < rest.len() implies !host_matches(
                #[trigger] rest[i],
                a,
            ) by {
                assert(!host_matches(hosts[i + 1], a));
            }
        }
    }
}

/// When the lookup finds a name, it is the name of some host that contains
/// the address while no earlier-registered host does.
pub proof fn lemma_lookup_some(hosts: Seq<HostNetwork>, a: u32)
    requires
        lookup_spec(hosts, a) is Some,
    ensures
        exists|i: int|
            0 <= i < hosts.len() && #[trigger] host_matches(hosts[i], a) && lookup_spec(hosts, a)
                == Some(hosts[i].name@) && (forall|j: int|
                0 <= j < i ==> !host_matches(#[trigger] hosts[j], a)),
    decreases hosts.len(),
{
    if host_matches(hosts[0], a) {
        assert(0 <= 0 < hosts.len() && host_matches(hosts[0], a) && lookup_spec(hosts, a) == Some(
            hosts[0].name@,
        ) && (forall|j: int| 0 <= j < 0 ==> !host_matches(#[trigger] hosts[j], a)));
    } else {
        lemma_lookup_some(hosts.drop_first(), a);
        let i0 = choose|i: int|
            0 <= i < hosts.drop_first().len() && #[trigger] host_matches(hosts.drop_first()[i], a)
                && lookup_spec(hosts.drop_first(), a) == Some(hosts.drop_first()[i].name@) && (
            forall|j: int| 0 <= j < i ==> !host_matches(#[trigger] hosts.drop_first()[j], a));
        assert(forall|j: int|
            0 <= j < i0 + 1 ==> !host_matches(#[trigger] hosts[j], a)) by {
            assert(forall|j: int|
                1 <= j < i0 + 1 ==> hosts[j] == hosts.drop_first()[j - 1]);
        }
        assert(0 <= i0 + 1 < hosts.len() && host_matches(hosts[i0 + 1], a) && lookup_spec(hosts, a)
            == Some(hosts[i0 + 1].name@));
    }
}

/// For a database whose hosts bear pairwise distinct names, the lookup
/// returns `hosts[i]`'s name exactly when some subnet of `hosts[i]`
/// contains the address and no earlier-registered host's subnets do.
pub proof fn lemma_lookup_name_iff(hosts: Seq<HostNetwork>, a: u32, i: int)
    requires
        0 <= i < hosts.len(),
        forall|p: int, q: int|
            0 <= p < q < hosts.len() ==> (#[trigger] hosts[p]).name@ != (#[trigger] hosts[q]).name@,
    ensures
        lookup_spec(hosts, a) == Some(hosts[i].name@) <==> (host_matches(hosts[i], a) && (forall|
            j: int,
        |
            0 <= j < i ==> !host_matches(#[trigger] hosts[j], a))),
{
    if host_matches(hosts[i], a) && (forall|j: int|
        0 <= j < i ==> !host_matches(#[trigger] hosts[j], a)) {
        lemma_lookup_at(hosts, a, i);
    }
    if lookup_spec(hosts, a) == Some(hosts[i].name@) {
        lemma_lookup_some(hosts, a);
        let i0 = choose|k: int|
            0 <= k < hosts.len() && #[trigger] host_matches(hosts[k], a) && lookup_spec(hosts, a)
                == Some(hosts[k].name@) && (forall|j: int|
                0 <= j < k ==> !host_matches(#[trigger] hosts[j], a));
        assert(i0 == i);
    }
}

/// Lookup has no hidden state: the result is a function of the database
/// contents and the address alone, so repeated calls with the same address
/// on the same database return the same result.
pub proof fn lemma_lookup_idempotent(
    hosts: Seq<HostNetwork>,
    a: u32,
    r1: Option<Seq<char>>,
    r2: Option<Seq<char>>,
)
    requires
        r1 == lookup_spec(hosts, a),
        r2 == lookup_spec(hosts, a),
    ensures
        r1 == r2,
{
}

} // verus!
