//! An in-memory model of a filesystem tree. The engine's logic is stated and
//! verified over this model; the surrounding application loads a real source
//! tree into it and materializes planned trees back onto disk.
//!
//! A node is a file or a directory. The `readable` flag records whether the
//! underlying entry could be read (opened, or listed): unreadable entries are
//! what the resilient copy policy must tolerate.

use vstd::prelude::*;

verus! {

/// A named child of a directory.
pub struct DirEntry {
    pub name: Vec<u8>,
    pub node: FsNode,
}

/// A filesystem tree: a file with its contents, or a directory with its
/// children in the order the operating system reported them.
pub enum FsNode {
    File { readable: bool, content: Vec<u8> },
    Dir { readable: bool, entries: Vec<DirEntry> },
}

/// The mathematical counterpart of `DirEntry`.
pub struct EntryModel {
    pub name: Seq<u8>,
    pub node: NodeModel,
}

/// The mathematical counterpart of `FsNode`: the same tree over `Seq`.
pub enum NodeModel {
    File { readable: bool, content: Seq<u8> },
    Dir { readable: bool, entries: Seq<EntryModel> },
}

/// The model of a tree node.
pub open spec fn node_model(n: FsNode) -> NodeModel
    decreases n,
{
    match n {
        FsNode::File { readable, content } => NodeModel::File { readable, content: content@ },
        FsNode::Dir { readable, entries } => NodeModel::Dir {
            readable,
            entries: entries_model(entries@),
        },
    }
}

/// The models of a sequence of directory entries, in order.
pub open spec fn entries_model(es: Seq<DirEntry>) -> Seq<EntryModel>
    decreases es,
{
    if es.len() == 0 {
        Seq::empty()
    } else {
        seq![EntryModel { name: es[0].name@, node: node_model(es[0].node) }] + entries_model(
            es.drop_first(),
        )
    }
}

/// Whether a tree contains a plain file anywhere.
pub open spec fn contains_file(m: NodeModel) -> bool
    decreases m,
{
    match m {
        NodeModel::File { .. } => true,
        NodeModel::Dir { entries, .. } => entries_contain_file(entries),
    }
}

/// Whether any entry's subtree contains a plain file.
pub open spec fn entries_contain_file(es: Seq<EntryModel>) -> bool
    decreases es,
{
    es.len() > 0 && (contains_file(es[0].node) || entries_contain_file(es.drop_first()))
}

/// Whether every directory of a tree, the root included, can be listed.
pub open spec fn all_dirs_readable(m: NodeModel) -> bool
    decreases m,
{
    match m {
        NodeModel::File { .. } => true,
        NodeModel::Dir { readable, entries } => readable && entries_dirs_readable(entries),
    }
}

/// Whether every directory under each of the entries can be listed.
pub open spec fn entries_dirs_readable(es: Seq<EntryModel>) -> bool
    decreases es,
{
    es.len() == 0 || (all_dirs_readable(es[0].node) && entries_dirs_readable(es.drop_first()))
}

/// `entries_model` maps each entry to its model, keeping length and order.
pub proof fn lemma_entries_model(es: Seq<DirEntry>)
    ensures
        entries_model(es).len() == es.len(),
        forall|i: int|
            0 <= i < es.len() ==> entries_model(es)[i] == (EntryModel {
                name: es[i].name@,
                node: node_model(es[i].node),
            }),
    decreases es.len(),
{
    if es.len() > 0 {
        lemma_entries_model(es.drop_first());
    }
}

} // verus!
