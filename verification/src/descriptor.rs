//! Extraction descriptors: where to find a host's CIDR list.

use vstd::prelude::*;

verus! {

use crate::error::HostError;
use crate::text::split_on;
use crate::text::split_str;

/// Declares, for one host, where its CIDR list lives: the path of a JSON
/// document, a slash-delimited pointer selecting an array within it, and the
/// key under which each array entry carries a CIDR string. Immutable once
/// constructed.
#[derive(Debug)]
pub struct HostJson {
    hostname: String,
    path: String,
    array_pointer: String,
    field: String,
}

/// The comma-separated fields of a configuration row.
pub open spec fn row_fields(row: Seq<char>) -> Seq<Seq<char>> {
    split_on(row, ',')
}

/// Whether a configuration row has exactly the four expected fields.
pub open spec fn row_ok(row: Seq<char>) -> bool {
    row_fields(row).len() == 4
}

/// Whether `hj` holds, field for field, what the row's four fields say.
pub open spec fn descriptor_matches_row(hj: HostJson, row: Seq<char>) -> bool {
    &&& hj.hostname_spec() == row_fields(row)[0]
    &&& hj.path_spec() == row_fields(row)[1]
    &&& hj.pointer_spec() == row_fields(row)[2]
    &&& hj.field_spec() == row_fields(row)[3]
}

impl HostJson {
    /// The name of the network host (e.g., "Google Cloud").
    pub closed spec fn hostname_spec(&self) -> Seq<char> {
        self.hostname@
    }

    /// The path of the JSON document holding the host's ranges.
    pub closed spec fn path_spec(&self) -> Seq<char> {
        self.path@
    }

    /// The pointer selecting the array of range entries in the document.
    pub closed spec fn pointer_spec(&self) -> Seq<char> {
        self.array_pointer@
    }

    /// The key under which each array entry carries a CIDR string.
    pub closed spec fn field_spec(&self) -> Seq<char> {
        self.field@
    }

    /// Create a descriptor from its four parts: host name, document path,
    /// pointer to the array of entries, and the field holding each entry's
    /// CIDR string.
    pub fn new(hostname: &str, path: &str, array_pointer: &str, field: &str) -> (r: Self)
        ensures
            r.hostname_spec() == hostname@,
            r.path_spec() == path@,
            r.pointer_spec() == array_pointer@,
            r.field_spec() == field@,
    {
        HostJson {
            hostname: hostname.to_owned(),
            path: path.to_owned(),
            array_pointer: array_pointer.to_owned(),
            field: field.to_owned(),
        }
    }

    /// The host name.
    pub fn hostname(&self) -> (r: &str)
        ensures
            r@ == self.hostname_spec(),
    {
        self.hostname.as_str()
    }

    /// The document path.
    pub fn path(&self) -> (r: &str)
        ensures
            r@ == self.path_spec(),
    {
        self.path.as_str()
    }

    /// The array pointer.
    pub fn array_pointer(&self) -> (r: &str)
        ensures
            r@ == self.pointer_spec(),
    {
        self.array_pointer.as_str()
    }

    /// The range field key.
    pub fn field(&self) -> (r: &str)
        ensures
            r@ == self.field_spec(),
    {
        self.field.as_str()
    }

    /// Parse one configuration row of the form "HOSTNAME,PATH,POINTER,FIELD"
    /// into a descriptor. A row with any other number of comma-separated
    /// fields is rejected, reporting the count found.
    pub fn from_csv_row(row: &str) -> (r: Result<HostJson, HostError>)
        ensures
            match r {
                Ok(hj) => row_ok(row@) && descriptor_matches_row(hj, row@),
                Err(e) => !row_ok(row@) && (e matches HostError::InvalidRow { row: raw, found }
                    && raw@ == row@ && found == row_fields(row@).len()),
            },
    {
        let fields = split_str(row, ',');
        if fields.len() != 4 {
            return Err(HostError::InvalidRow { row: row.to_owned(), found: fields.len() });
        }
        Ok(
            HostJson::new(
                fields[0].as_str(),
                fields[1].as_str(),
                fields[2].as_str(),
                fields[3].as_str(),
            ),
        )
    }
}

/// A descriptor parsed from a well-formed configuration row equals, field
/// for field, one constructed directly from the row's four comma-separated
/// fields.
pub proof fn lemma_row_matches_direct(row: Seq<char>, parsed: HostJson, direct: HostJson)
    requires
        row_ok(row),
        descriptor_matches_row(parsed, row),
        direct.hostname_spec() == row_fields(row)[0],
        direct.path_spec() == row_fields(row)[1],
        direct.pointer_spec() == row_fields(row)[2],
        direct.field_spec() == row_fields(row)[3],
    ensures
        parsed.hostname_spec() == direct.hostname_spec(),
        parsed.path_spec() == direct.path_spec(),
        parsed.pointer_spec() == direct.pointer_spec(),
        parsed.field_spec() == direct.field_spec(),
{
}

/// The two built-in extraction descriptors shipped with the system, in
/// registration order: Google Cloud first, Amazon Web Services second.
pub fn default_host_jsons() -> (r: Vec<HostJson>)
    ensures
        r@.len() == 2,
        r@[0].hostname_spec() == "Google Cloud"@ && r@[0].path_spec()
            == "data/google-cloud-ranges.json"@ && r@[0].pointer_spec() == "/prefixes"@
            && r@[0].field_spec() == "ipv4Prefix"@,
        r@[1].hostname_spec() == "Amazon Web Services"@ && r@[1].path_spec()
            == "data/aws-ranges.json"@ && r@[1].pointer_spec() == "/prefixes"@
            && r@[1].field_spec() == "ip_prefix"@,
{
    let mut out: Vec<HostJson> = Vec::new();
    out.push(
        HostJson::new("Google Cloud", "data/google-cloud-ranges.json", "/prefixes", "ipv4Prefix"),
    );
    out.push(HostJson::new("Amazon Web Services", "data/aws-ranges.json", "/prefixes", "ip_prefix"));
    out
}

/// Parse a sequence of configuration rows into descriptors, stopping at the
/// first malformed row.
pub fn host_jsons_from_rows(rows: &Vec<String>) -> (r: Result<Vec<HostJson>, HostError>)
    ensures
        match r {
            Ok(hjs) => hjs@.len() == rows@.len() && (forall|i: int|
                0 <= i < rows@.len() ==> row_ok(#[trigger] rows@[i]@)) && (forall|i: int|
                0 <= i < rows@.len() ==> descriptor_matches_row(#[trigger] hjs@[i], rows@[i]@)),
            Err(e) => exists|i: int|
                0 <= i < rows@.len() && !row_ok(#[trigger] rows@[i]@) && (forall|j: int|
                    0 <= j < i ==> row_ok(#[trigger] rows@[j]@)) && (
                e matches HostError::InvalidRow { row: raw, found } && raw@ == rows@[i]@ && found
                    == row_fields(rows@[i]@).len()),
        },
{
    let mut out: Vec<HostJson> = Vec::new();
    let mut i: usize = 0;
    while i < rows.len()
        invariant
            i <= rows@.len(),
            out@.len() == i,
            forall|j: int| 0 <= j < i ==> row_ok(#[trigger] rows@[j]@),
            forall|j: int| 0 <= j < i ==> descriptor_matches_row(#[trigger] out@[j], rows@[j]@),
        decreases rows@.len() - i,
    {
        match HostJson::from_csv_row(rows[i].as_str()) {
            Ok(hj) => {
                out.push(hj);
            },
            Err(e) => {
                return Err(e);
            },
        }
        i = i + 1;
    }
    Ok(out)
}

} // verus!
