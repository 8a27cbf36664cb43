//! Extraction: pull an ordered list of CIDR blocks out of a provider's JSON
//! range document, driven by an extraction descriptor.

use vstd::prelude::*;

verus! {

use crate::descriptor::HostJson;
use crate::error::HostError;
use crate::json::{doc_fields, document_fields, fields_view, json_wellformed, DocumentFault};
use crate::net::{cidr_ok, cidr_value, parse_cidr, Ipv4Cidr};

/// Whether every present range field parses as IPv4 CIDR notation.
pub open spec fn all_fields_parse(fields: Seq<Option<Seq<char>>>) -> bool {
    forall|i: int|
        0 <= i < fields.len() ==> (#[trigger] fields[i]) is Some ==> cidr_ok(fields[i].unwrap())
}

/// The blocks denoted by the present fields, in order; absent fields are
/// skipped.
pub open spec fn collect_cidrs(fields: Seq<Option<Seq<char>>>) -> Seq<Ipv4Cidr>
    decreases fields.len(),
{
    if fields.len() == 0 {
        Seq::empty()
    } else {
        match fields.last() {
            None => collect_cidrs(fields.drop_last()),
            Some(s) => collect_cidrs(fields.drop_last()).push(cidr_value(s)),
        }
    }
}

/// `i` is the position of the first present field that fails to parse as
/// CIDR notation.
pub open spec fn first_unparsable(fields: Seq<Option<Seq<char>>>, i: int) -> bool {
    &&& 0 <= i < fields.len()
    &&& fields[i] is Some
    &&& !cidr_ok(fields[i].unwrap())
    &&& forall|j: int|
        0 <= j < i ==> (#[trigger] fields[j]) is Some ==> cidr_ok(fields[j].unwrap())
}

/// How many of the fields are present.
pub open spec fn count_present(fields: Seq<Option<Seq<char>>>) -> nat
    decreases fields.len(),
{
    if fields.len() == 0 {
        0
    } else {
        count_present(fields.drop_last()) + if fields.last() is Some {
            1nat
        } else {
            0nat
        }
    }
}

/// The collected blocks are exactly one per present field: entries missing
/// the field are skipped, not errors, and they do not count.
pub proof fn lemma_collect_count(fields: Seq<Option<Seq<char>>>)
    ensures
        collect_cidrs(fields).len() == count_present(fields),
    decreases fields.len(),
{
    if fields.len() > 0 {
        lemma_collect_count(fields.drop_last());
    }
}

/// Whether extraction succeeds for this descriptor and document text: the
/// text is a JSON document, the descriptor's pointer leads to an array in
/// it, and every present range field is valid CIDR notation.
pub open spec fn extraction_ok(hj: HostJson, text: Seq<char>) -> bool {
    &&& doc_fields(text, hj.pointer_spec(), hj.field_spec()) is Some
    &&& all_fields_parse(doc_fields(text, hj.pointer_spec(), hj.field_spec()).unwrap())
}

/// The ordered blocks that a successful extraction yields for this
/// descriptor and document text.
pub open spec fn extracted_cidrs(hj: HostJson, text: Seq<char>) -> Seq<Ipv4Cidr> {
    collect_cidrs(doc_fields(text, hj.pointer_spec(), hj.field_spec()).unwrap())
}

/// Whether `e` is the failure that extraction owes for this descriptor and
/// document text: not JSON, no array at the pointer, or a present field
/// that is no CIDR block — the first such field, which the error names.
pub open spec fn extraction_error(hj: HostJson, text: Seq<char>, e: HostError) -> bool {
    match e {
        HostError::ParseError { path } => !json_wellformed(text) && path@ == hj.path_spec(),
        HostError::InvalidFormat { path } => json_wellformed(text) && doc_fields(
            text,
            hj.pointer_spec(),
            hj.field_spec(),
        ) is None && path@ == hj.path_spec(),
        HostError::InvalidCidr { cidr } => doc_fields(
            text,
            hj.pointer_spec(),
            hj.field_spec(),
        ) matches Some(fields) && (exists|i: int|
            #[trigger] first_unparsable(fields, i) && cidr@ == fields[i].unwrap()),
        HostError::InvalidRow { .. } => false,
    }
}

/// A well-formed backing document yields exactly one block per array entry
/// carrying the range field: entries missing the field are excluded from
/// the count, not errors.
pub proof fn lemma_extracted_count(hj: HostJson, text: Seq<char>)
    requires
        doc_fields(text, hj.pointer_spec(), hj.field_spec()) is Some,
    ensures
        extracted_cidrs(hj, text).len() == count_present(
            doc_fields(text, hj.pointer_spec(), hj.field_spec()).unwrap(),
        ),
{
    lemma_collect_count(doc_fields(text, hj.pointer_spec(), hj.field_spec()).unwrap());
}

/// Turn the range fields of a document's entries into CIDR blocks: absent
/// fields are skipped silently, and the first present field that is not
/// valid CIDR notation fails the whole extraction, named in the error.
pub fn cidrs_from_fields(fields: &Vec<Option<String>>) -> (r: Result<Vec<Ipv4Cidr>, HostError>)
    ensures
        match r {
            Ok(v) => all_fields_parse(fields_view(fields@)) && v@ == collect_cidrs(
                fields_view(fields@),
            ) && (forall|k: int| 0 <= k < v@.len() ==> (#[trigger] v@[k]).prefix <= 32),
            Err(e) => !all_fields_parse(fields_view(fields@)) && exists|i: int|
                #[trigger] first_unparsable(fields_view(fields@), i) && (
                e matches HostError::InvalidCidr { cidr } && cidr@ == fields_view(
                    fields@,
                )[i].unwrap()),
        },
{
    let ghost fv = fields_view(fields@);
    let mut out: Vec<Ipv4Cidr> = Vec::new();
    let mut i: usize = 0;
    proof {
        assert(fv.take(0) =~= Seq::<Option<Seq<char>>>::empty());
    }
    while i < fields.len()
        invariant
            i <= fields@.len(),
            fv == fields_view(fields@),
            fv.len() == fields@.len(),
            out@ == collect_cidrs(fv.take(i as int)),
            forall|j: int| 0 <= j < i ==> (#[trigger] fv[j]) is Some ==> cidr_ok(fv[j].unwrap()),
            forall|k: int| 0 <= k < out@.len() ==> (#[trigger] out@[k]).prefix <= 32,
        decreases fields@.len() - i,
    {
        proof {
            assert(fv.take(i as int + 1).drop_last() =~= fv.take(i as int));
            assert(fv.take(i as int + 1).last() == fv[i as int]);
        }
        match &fields[i] {
            None => {},
            Some(s) => {
                match parse_cidr(s.as_str()) {
                    None => {
                        proof {
                            assert(fv[i as int] == Some(s@));
                            assert(first_unparsable(fv, i as int));
                            assert(!all_fields_parse(fv));
                        }
                        return Err(HostError::InvalidCidr { cidr: s.clone() });
                    },
                    Some(c) => {
                        proof {
                            assert(fv[i as int] == Some(s@));
                        }
                        out.push(c);
                    },
                }
            },
        }
        i = i + 1;
    }
    proof {
        assert(fv.take(fv.len() as int) =~= fv);
    }
    Ok(out)
}

/// Extract the ordered CIDR list that `host_json` describes from the text
/// of its JSON document: parse the text, resolve the descriptor's pointer
/// to an array, and read each entry's range field.
pub fn extract_from_json(host_json: &HostJson, text: &str) -> (r: Result<
    Vec<Ipv4Cidr>,
    HostError,
>)
    ensures
        match r {
            Ok(v) => json_wellformed(text@) && extraction_ok(*host_json, text@) && v@
                == extracted_cidrs(*host_json, text@) && (forall|k: int|
                0 <= k < v@.len() ==> (#[trigger] v@[k]).prefix <= 32),
            Err(e) => !extraction_ok(*host_json, text@) && extraction_error(
                *host_json,
                text@,
                e,
            ),
        },
{
    let fields = match document_fields(text, host_json.array_pointer(), host_json.field()) {
        Ok(f) => f,
        Err(DocumentFault::NotJson) => {
            return Err(HostError::ParseError { path: host_json.path().to_owned() });
        },
        Err(DocumentFault::NotAnArray) => {
            return Err(HostError::InvalidFormat { path: host_json.path().to_owned() });
        },
    };
    cidrs_from_fields(&fields)
}

} // verus!
