//! Resolution of the destination path for a source tree: a depth-first
//! descent that always follows the first entry of each directory until it
//! reaches a plain file, parses that file as a routing descriptor, and joins
//! the fields under the destination base.
//!
//! Resolution is a pure query: it creates nothing. The caller makes the
//! resolved directories exist before materializing a copy plan.

use vstd::prelude::*;

use crate::descriptor::{parse_descriptor, schema_of, unit_of, RoutingDescriptor};
use crate::fs_tree::{entries_model, lemma_entries_model, node_model, FsNode, NodeModel};
use crate::text::{clone_bytes, push_bytes};
use crate::EngineError;

verus! {

/// The descriptor contents the first-entry descent reaches: the contents of
/// the first file on the path that always takes a directory's first entry.
/// An empty directory ends the descent with nothing found; an unreadable
/// file or directory ends it with a read failure.
pub open spec fn find_descriptor_model(m: NodeModel) -> Result<Seq<u8>, EngineError>
    decreases m,
{
    match m {
        NodeModel::File { readable, content } => if readable {
            Ok(content)
        } else {
            Err(EngineError::DescriptorUnreadable)
        },
        NodeModel::Dir { readable, entries } => if !readable {
            Err(EngineError::DescriptorUnreadable)
        } else if entries.len() == 0 {
            Err(EngineError::DescriptorNotFound)
        } else {
            find_descriptor_model(entries[0].node)
        },
    }
}

/// The model of an executable result carrying bytes.
pub open spec fn result_bytes_model(r: Result<Vec<u8>, EngineError>) -> Result<
    Seq<u8>,
    EngineError,
> {
    match r {
        Ok(v) => Ok(v@),
        Err(e) => Err(e),
    }
}

/// The destination path derived from the routing fields:
/// `dest_base/schema/schema unit`, joined with single separators and a
/// single space, exactly as the fields were extracted.
pub open spec fn resolved_path_spec(dest_base: Seq<u8>, schema: Seq<u8>, unit: Seq<u8>) -> Seq<
    u8,
> {
    dest_base + seq!['/' as u8] + schema + seq!['/' as u8] + schema + seq![' ' as u8] + unit
}

/// The path `resolve_destination` yields for a source tree: the routing
/// fields of the descriptor the descent finds, joined under `dest_base`, or
/// the failure of the descent.
pub open spec fn resolve_destination_model(m: NodeModel, dest_base: Seq<u8>) -> Result<
    Seq<u8>,
    EngineError,
> {
    match find_descriptor_model(m) {
        Ok(content) => Ok(resolved_path_spec(dest_base, schema_of(content), unit_of(content))),
        Err(e) => Err(e),
    }
}

/// The law that a source tree containing no descriptor file fails with
/// "not found": if no plain file exists anywhere under `m` and every
/// directory can be listed, resolution fails with `DescriptorNotFound` —
/// never with a path, and not with a read failure.
pub proof fn lemma_no_file_means_not_found(m: NodeModel, dest_base: Seq<u8>)
    requires
        !crate::fs_tree::contains_file(m),
        crate::fs_tree::all_dirs_readable(m),
    ensures
        find_descriptor_model(m) == Err::<Seq<u8>, EngineError>(EngineError::DescriptorNotFound),
        resolve_destination_model(m, dest_base) == Err::<Seq<u8>, EngineError>(
            EngineError::DescriptorNotFound,
        ),
    decreases m,
{
    match m {
        NodeModel::File { .. } => {},
        NodeModel::Dir { entries, .. } => {
            if entries.len() > 0 {
                lemma_no_file_means_not_found(entries[0].node, dest_base);
            }
        },
    }
}

/// The law of the resolved path's shape: whenever a descriptor is found, the
/// resolved path is exactly the destination base, one separator, the schema
/// field, one separator, then the schema field, a single space, and the unit
/// field — with no trimming beyond what field extraction itself did.
pub proof fn lemma_resolved_path_shape(m: NodeModel, dest_base: Seq<u8>)
    requires
        find_descriptor_model(m) is Ok,
    ensures
        ({
            let content = find_descriptor_model(m)->Ok_0;
            resolve_destination_model(m, dest_base) == Ok::<Seq<u8>, EngineError>(
                dest_base + seq!['/' as u8] + schema_of(content) + seq!['/' as u8] + schema_of(
                    content,
                ) + seq![' ' as u8] + unit_of(content),
            )
        }),
{
}

/// Descend from `n`, always into the first entry of each directory, and
/// return the contents of the first plain file reached.
pub fn find_descriptor(n: &FsNode) -> (r: Result<Vec<u8>, EngineError>)
    ensures
        result_bytes_model(r) == find_descriptor_model(node_model(*n)),
    decreases *n,
{
    match n {
        FsNode::File { readable, content } => {
            if *readable {
                Ok(clone_bytes(content))
            } else {
                Err(EngineError::DescriptorUnreadable)
            }
        },
        FsNode::Dir { readable, entries } => {
            if !*readable {
                Err(EngineError::DescriptorUnreadable)
            } else if entries.len() == 0 {
                Err(EngineError::DescriptorNotFound)
            } else {
                proof {
                    lemma_entries_model(entries@);
                }
                find_descriptor(&entries[0].node)
            }
        },
    }
}

/// Join the routing fields under the destination base:
/// `dest_base/schema/schema unit`.
pub fn resolved_destination_path(dest_base: &[u8], d: &RoutingDescriptor) -> (r: Vec<u8>)
    ensures
        r@ == resolved_path_spec(dest_base@, d.schema_id@, d.unit_id@),
{
    let mut out: Vec<u8> = Vec::new();
    push_bytes(&mut out, dest_base);
    out.push('/' as u8);
    push_bytes(&mut out, d.schema_id.as_slice());
    out.push('/' as u8);
    push_bytes(&mut out, d.schema_id.as_slice());
    out.push(' ' as u8);
    push_bytes(&mut out, d.unit_id.as_slice());
    assert(out@ =~= resolved_path_spec(dest_base@, d.schema_id@, d.unit_id@));
    out
}

/// Locate the routing descriptor under `source_root` and derive the
/// destination path from its fields. Fails with `DescriptorNotFound` when
/// the descent reaches no plain file, and with `DescriptorUnreadable` when
/// the file or a directory on the path cannot be read; both fields may be
/// empty and still produce a path, by design.
pub fn resolve_destination(source_root: &FsNode, dest_base: &[u8]) -> (r: Result<
    Vec<u8>,
    EngineError,
>)
    ensures
        result_bytes_model(r) == resolve_destination_model(node_model(*source_root), dest_base@),
{
    match find_descriptor(source_root) {
        Ok(content) => {
            let d = parse_descriptor(content.as_slice());
            Ok(resolved_destination_path(dest_base, &d))
        },
        Err(e) => Err(e),
    }
}

} // verus!
