//! Parsing of the routing descriptor file: a line-oriented text whose
//! colon-delimited key/value lines name the schema and the unit a source tree
//! belongs to. Every line is scanned to the end of the file; for each key the
//! last matching line wins.

use vstd::prelude::*;

use crate::text::{
    bytes_starts_with, find_byte_from, first_index_from, line_views, split_lines, split_lines_spec,
    starts_with, sub_vec, trim_bytes, trim_spec,
};
use vstd::string::StringSliceAdditionalSpecFns;

verus! {

/// The routing fields extracted from a descriptor file. Either field may be
/// empty: a missing or colon-less line yields the empty field by design.
pub struct RoutingDescriptor {
    pub schema_id: Vec<u8>,
    pub unit_id: Vec<u8>,
}

/// The key that names the schema field.
pub open spec fn schema_key() -> Seq<u8> {
    "Customer ID:".spec_bytes()
}

/// The key that names the unit field.
pub open spec fn unit_key() -> Seq<u8> {
    "EOT UNIT ID:".spec_bytes()
}

/// The trimmed text between the first colon of `line` and the second colon
/// or the end of the line; empty if the line has no colon.
pub open spec fn field_after_colon(line: Seq<u8>) -> Seq<u8> {
    let c1 = first_index_from(line, ':' as u8, 0);
    if c1 == line.len() {
        Seq::empty()
    } else {
        let c2 = first_index_from(line, ':' as u8, c1 + 1);
        trim_spec(line.subrange(c1 + 1, c2))
    }
}

/// One scan step per line, carrying the fields found so far: a line starting
/// with a key replaces that key's field, so the last matching line wins.
pub open spec fn scan_lines(lines: Seq<Seq<u8>>, schema: Seq<u8>, unit: Seq<u8>) -> (Seq<u8>, Seq<
    u8,
>)
    decreases lines.len(),
{
    if lines.len() == 0 {
        (schema, unit)
    } else {
        let l = lines[0];
        if starts_with(l, unit_key()) {
            scan_lines(lines.drop_first(), schema, field_after_colon(l))
        } else if starts_with(l, schema_key()) {
            scan_lines(lines.drop_first(), field_after_colon(l), unit)
        } else {
            scan_lines(lines.drop_first(), schema, unit)
        }
    }
}

/// The fields a descriptor file with the given contents yields.
pub open spec fn parse_descriptor_spec(content: Seq<u8>) -> (Seq<u8>, Seq<u8>) {
    scan_lines(split_lines_spec(content), Seq::empty(), Seq::empty())
}

/// The schema field of a descriptor file.
pub open spec fn schema_of(content: Seq<u8>) -> Seq<u8> {
    parse_descriptor_spec(content).0
}

/// The unit field of a descriptor file.
pub open spec fn unit_of(content: Seq<u8>) -> Seq<u8> {
    parse_descriptor_spec(content).1
}

/// The trimmed text between the first colon and the second colon or the end
/// of the line; empty if the line has no colon.
pub fn extract_field(line: &[u8]) -> (r: Vec<u8>)
    ensures
        r@ == field_after_colon(line@),
{
    let n = line.len();
    let c1 = find_byte_from(line, ':' as u8, 0);
    proof {
        crate::text::lemma_first_index_from(line@, ':' as u8, 0);
    }
    if c1 == n {
        Vec::new()
    } else {
        let c2 = find_byte_from(line, ':' as u8, c1 + 1);
        proof {
            crate::text::lemma_first_index_from(line@, ':' as u8, c1 + 1);
        }
        let seg = sub_vec(line, c1 + 1, c2);
        trim_bytes(seg.as_slice())
    }
}

/// Scan every line of a descriptor file and return the routing fields; for
/// each key the last matching line wins, and a missing key leaves its field
/// empty.
pub fn parse_descriptor(content: &[u8]) -> (d: RoutingDescriptor)
    ensures
        d.schema_id@ == schema_of(content@),
        d.unit_id@ == unit_of(content@),
{
    let lines = split_lines(content);
    let ukey = "EOT UNIT ID:".as_bytes();
    let skey = "Customer ID:".as_bytes();
    let mut schema: Vec<u8> = Vec::new();
    let mut unit: Vec<u8> = Vec::new();
    let ghost all = line_views(lines@);
    proof {
        assert(all.skip(0) =~~= all);
    }
    let mut i: usize = 0;
    while i < lines.len()
        invariant
            i <= lines@.len(),
            all == line_views(lines@),
            all == split_lines_spec(content@),
            ukey@ == unit_key(),
            skey@ == schema_key(),
            scan_lines(all.skip(i as int), schema@, unit@) == parse_descriptor_spec(content@),
        decreases lines@.len() - i,
    {
        let line = &lines[i];
        proof {
            assert(all.skip(i as int)[0] == line@);
            assert(all.skip(i as int).drop_first() =~~= all.skip(i as int + 1));
        }
        if bytes_starts_with(line.as_slice(), ukey) {
            unit = extract_field(line.as_slice());
        } else if bytes_starts_with(line.as_slice(), skey) {
            schema = extract_field(line.as_slice());
        }
        i = i + 1;
    }
    proof {
        assert(all.skip(i as int) =~~= Seq::<Seq<u8>>::empty());
    }
    RoutingDescriptor { schema_id: schema, unit_id: unit }
}

} // verus!
