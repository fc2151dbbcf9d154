//! The resilient copy planner. Given a source tree, it computes the tree a
//! recursive copy produces: OS-reserved housekeeping entries are skipped at
//! every level, an unreadable file is skipped and recorded rather than
//! aborting, and only an unreadable directory (or an unreadable single-file
//! source root) aborts the whole operation.
//!
//! Copying never overwrites selectively: materializing the planned tree
//! writes every planned file, overwriting an existing destination file
//! unconditionally.

use vstd::prelude::*;

use crate::fs_tree::{entries_model, lemma_entries_model, node_model, DirEntry, EntryModel, FsNode, NodeModel};
use crate::resolve::{resolve_destination, resolve_destination_model};
use crate::text::{bytes_eq_ignore_ascii_case, clone_bytes, eq_ignore_ascii_case, line_views, push_bytes};
use crate::EngineError;
use vstd::string::StringSliceAdditionalSpecFns;

verus! {

/// The name of the indexer artifact that removable media carry.
pub open spec fn indexer_name() -> Seq<u8> {
    "IndexerVolumeGuid".spec_bytes()
}

/// The name of the OS housekeeping directory on removable media.
pub open spec fn sysvol_name() -> Seq<u8> {
    "System Volume Information".spec_bytes()
}

/// An entry name the copy must never carry into the destination, compared
/// without regard to ASCII case.
pub open spec fn is_reserved(name: Seq<u8>) -> bool {
    eq_ignore_ascii_case(name, indexer_name()) || eq_ignore_ascii_case(name, sysvol_name())
}

/// Whether `name` is an OS-reserved entry name, compared case-insensitively.
pub fn is_reserved_name(name: &[u8]) -> (r: bool)
    ensures
        r == is_reserved(name@),
{
    bytes_eq_ignore_ascii_case(name, "IndexerVolumeGuid".as_bytes())
        || bytes_eq_ignore_ascii_case(name, "System Volume Information".as_bytes())
}

/// The path of a directory entry under the path of its parent.
pub open spec fn child_path(prefix: Seq<u8>, name: Seq<u8>) -> Seq<u8> {
    prefix + seq!['/' as u8] + name
}

/// The outcome of copying the tree `m`, whose root lies at `path`: the tree
/// the destination receives and the paths of the files that were skipped
/// because they could not be read, in traversal order. An unreadable
/// directory, or an unreadable single-file root, fails the whole copy.
pub open spec fn copy_node_model(m: NodeModel, path: Seq<u8>) -> Result<
    (NodeModel, Seq<Seq<u8>>),
    EngineError,
>
    decreases m,
{
    match m {
        NodeModel::File { readable, content } => if readable {
            Ok((NodeModel::File { readable: true, content }, Seq::empty()))
        } else {
            Err(EngineError::SourceFileUnreadable)
        },
        NodeModel::Dir { readable, entries } => if !readable {
            Err(EngineError::SourceDirUnreadable)
        } else {
            match copy_entries_model(entries, path) {
                Ok(p) => Ok((NodeModel::Dir { readable: true, entries: p.0 }, p.1)),
                Err(e) => Err(e),
            }
        },
    }
}

/// The outcome of copying the children of a directory at `path`: reserved
/// names are skipped entirely, an unreadable file is skipped and its path
/// recorded, and a subdirectory is copied by `copy_node_model`, whose
/// failure aborts everything.
pub open spec fn copy_entries_model(es: Seq<EntryModel>, path: Seq<u8>) -> Result<
    (Seq<EntryModel>, Seq<Seq<u8>>),
    EngineError,
>
    decreases es,
{
    if es.len() == 0 {
        Ok((Seq::empty(), Seq::empty()))
    } else {
        let e = es[0];
        if is_reserved(e.name) {
            copy_entries_model(es.drop_first(), path)
        } else {
            match e.node {
                NodeModel::File { readable, content } => match copy_entries_model(
                    es.drop_first(),
                    path,
                ) {
                    Ok(rest) => if readable {
                        Ok(
                            (
                                seq![
                                    EntryModel {
                                        name: e.name,
                                        node: NodeModel::File { readable: true, content },
                                    },
                                ] + rest.0,
                                rest.1,
                            ),
                        )
                    } else {
                        Ok((rest.0, seq![child_path(path, e.name)] + rest.1))
                    },
                    Err(err) => Err(err),
                },
                NodeModel::Dir { .. } => match copy_node_model(
                    e.node,
                    child_path(path, e.name),
                ) {
                    Ok(sub) => match copy_entries_model(es.drop_first(), path) {
                        Ok(rest) => Ok(
                            (
                                seq![EntryModel { name: e.name, node: sub.0 }] + rest.0,
                                sub.1 + rest.1,
                            ),
                        ),
                        Err(err) => Err(err),
                    },
                    Err(err) => Err(err),
                },
            }
        }
    }
}

/// What a copy of a source tree produced: the tree the destination received
/// and the paths of the source files skipped because they could not be read.
pub struct CopyReport {
    pub tree: FsNode,
    pub failed: Vec<Vec<u8>>,
}

/// Copy the children of a directory whose own path is `path`.
fn copy_children(entries: &Vec<DirEntry>, path: &[u8]) -> (r: Result<
    (Vec<DirEntry>, Vec<Vec<u8>>),
    EngineError,
>)
    ensures
        match r {
            Ok(p) => copy_entries_model(entries_model(entries@), path@) == Ok::<
                _,
                EngineError,
            >((entries_model(p.0@), line_views(p.1@))),
            Err(e) => copy_entries_model(entries_model(entries@), path@) == Err::<
                (Seq<EntryModel>, Seq<Seq<u8>>),
                _,
            >(e),
        },
    decreases entries@,
{
    let ghost ems = entries_model(entries@);
    let mut out: Vec<DirEntry> = Vec::new();
    let mut failed: Vec<Vec<u8>> = Vec::new();
    proof {
        lemma_entries_model(entries@);
        assert(ems.skip(0) =~= ems);
    }
    let mut i: usize = 0;
    while i < entries.len()
        invariant
            i <= entries@.len(),
            ems == entries_model(entries@),
            ems.len() == entries@.len(),
            forall|j: int|
                0 <= j < entries@.len() ==> ems[j] == (EntryModel {
                    name: entries@[j].name@,
                    node: node_model(entries@[j].node),
                }),
            match copy_entries_model(ems.skip(i as int), path@) {
                Ok(p) => copy_entries_model(ems, path@) == Ok::<_, EngineError>(
                    (entries_model(out@) + p.0, line_views(failed@) + p.1),
                ),
                Err(e) => copy_entries_model(ems, path@) == Err::<
                    (Seq<EntryModel>, Seq<Seq<u8>>),
                    _,
                >(e),
            },
        decreases entries@.len() - i,
    {
        let e = &entries[i];
        proof {
            assert(ems.skip(i as int)[0] == ems[i as int]);
            assert(ems.skip(i as int).drop_first() =~= ems.skip(i as int + 1));
        }
        let ghost old_out = out@;
        let ghost old_failed = failed@;
        let ghost suffix = copy_entries_model(ems.skip(i as int + 1), path@);
        if !is_reserved_name(e.name.as_slice()) {
            match &e.node {
                FsNode::File { readable, content } => {
                    if *readable {
                        let copied = FsNode::File { readable: true, content: clone_bytes(content) };
                        out.push(DirEntry { name: clone_bytes(&e.name), node: copied });
                        proof {
                            let em = EntryModel {
                                name: e.name@,
                                node: NodeModel::File { readable: true, content: content@ },
                            };
                            lemma_entries_model(out@);
                            lemma_entries_model(old_out);
                            assert(entries_model(out@) =~= entries_model(old_out) + seq![em]);
                            if suffix is Ok {
                                let p = suffix->Ok_0;
                                assert(entries_model(old_out) + (seq![em] + p.0) =~= entries_model(
                                    out@,
                                ) + p.0);
                            }
                        }
                    } else {
                        let mut p: Vec<u8> = Vec::new();
                        push_bytes(&mut p, path);
                        p.push('/' as u8);
                        push_bytes(&mut p, e.name.as_slice());
                        assert(p@ =~= child_path(path@, e.name@));
                        failed.push(p);
                        proof {
                            let cp = child_path(path@, e.name@);
                            assert(line_views(failed@) =~= line_views(old_failed) + seq![cp]);
                            if suffix is Ok {
                                let pr = suffix->Ok_0;
                                assert(line_views(old_failed) + (seq![cp] + pr.1) =~= line_views(
                                    failed@,
                                ) + pr.1);
                            }
                        }
                    }
                },
                FsNode::Dir { .. } => {
                    let mut p: Vec<u8> = Vec::new();
                    push_bytes(&mut p, path);
                    p.push('/' as u8);
                    push_bytes(&mut p, e.name.as_slice());
                    assert(p@ =~= child_path(path@, e.name@));
                    match copy_tree(&e.node, p.as_slice()) {
                        Ok(rep) => {
                            let ghost sub_views = line_views(rep.failed@);
                            let ghost em = EntryModel { name: e.name@, node: node_model(rep.tree) };
                            out.push(DirEntry { name: clone_bytes(&e.name), node: rep.tree });
                            let mut sub_failed = rep.failed;
                            failed.append(&mut sub_failed);
                            proof {
                                lemma_entries_model(out@);
                                lemma_entries_model(old_out);
                                assert(entries_model(out@) =~= entries_model(old_out) + seq![em]);
                                assert(line_views(failed@) =~= line_views(old_failed) + sub_views);
                                if suffix is Ok {
                                    let pr = suffix->Ok_0;
                                    assert(entries_model(old_out) + (seq![em] + pr.0)
                                        =~= entries_model(out@) + pr.0);
                                    assert(line_views(old_failed) + (sub_views + pr.1)
                                        =~= line_views(failed@) + pr.1);
                                }
                            }
                        },
                        Err(err) => {
                            return Err(err);
                        },
                    }
                },
            }
        }
        i = i + 1;
    }
    proof {
        assert(ems.skip(i as int) =~= Seq::<EntryModel>::empty());
        if copy_entries_model(ems, path@) is Ok {
            assert(entries_model(out@) + Seq::<EntryModel>::empty() =~= entries_model(out@));
            assert(line_views(failed@) + Seq::<Seq<u8>>::empty() =~= line_views(failed@));
        }
    }
    Ok((out, failed))
}

/// Copy the tree at `source`, whose root lies at `source_path`: the copied
/// tree mirrors the source with reserved names and unreadable files left
/// out, and the report lists the paths of the files skipped because they
/// could not be read. Only an unreadable directory, or an unreadable
/// single-file root, fails.
pub fn copy_tree(source: &FsNode, source_path: &[u8]) -> (r: Result<CopyReport, EngineError>)
    ensures
        match r {
            Ok(rep) => copy_node_model(node_model(*source), source_path@) == Ok::<
                _,
                EngineError,
            >((node_model(rep.tree), line_views(rep.failed@))),
            Err(e) => copy_node_model(node_model(*source), source_path@) == Err::<
                (NodeModel, Seq<Seq<u8>>),
                _,
            >(e),
        },
    decreases *source,
{
    match source {
        FsNode::File { readable, content } => {
            if *readable {
                let rep = CopyReport {
                    tree: FsNode::File { readable: true, content: clone_bytes(content) },
                    failed: Vec::new(),
                };
                proof {
                    assert(line_views(rep.failed@) =~= Seq::<Seq<u8>>::empty());
                }
                Ok(rep)
            } else {
                Err(EngineError::SourceFileUnreadable)
            }
        },
        FsNode::Dir { readable, entries } => {
            if !*readable {
                Err(EngineError::SourceDirUnreadable)
            } else {
                match copy_children(entries, source_path) {
                    Ok(p) => Ok(CopyReport { tree: FsNode::Dir { readable: true, entries: p.0 }, failed: p.1 }),
                    Err(e) => Err(e),
                }
            }
        },
    }
}

/// Whether a tree holds an entry with a reserved name, at any depth.
pub open spec fn has_reserved_entry(m: NodeModel) -> bool
    decreases m,
{
    match m {
        NodeModel::File { .. } => false,
        NodeModel::Dir { entries, .. } => entries_have_reserved(entries),
    }
}

/// Whether any entry bears a reserved name or holds one deeper down.
pub open spec fn entries_have_reserved(es: Seq<EntryModel>) -> bool
    decreases es,
{
    es.len() > 0 && (is_reserved(es[0].name) || has_reserved_entry(es[0].node)
        || entries_have_reserved(es.drop_first()))
}

/// The law that reserved entries never reach the destination: whatever tree
/// a successful copy plans, no entry in it, at any depth, bears a reserved
/// name — whatever such an entry of the source contained.
pub proof fn lemma_copy_has_no_reserved(m: NodeModel, path: Seq<u8>)
    requires
        copy_node_model(m, path) is Ok,
    ensures
        !has_reserved_entry(copy_node_model(m, path)->Ok_0.0),
    decreases m,
{
    match m {
        NodeModel::File { .. } => {},
        NodeModel::Dir { entries, .. } => {
            lemma_copy_entries_no_reserved(entries, path);
        },
    }
}

/// No copied entry sequence holds a reserved name at any depth.
proof fn lemma_copy_entries_no_reserved(es: Seq<EntryModel>, path: Seq<u8>)
    requires
        copy_entries_model(es, path) is Ok,
    ensures
        !entries_have_reserved(copy_entries_model(es, path)->Ok_0.0),
    decreases es,
{
    if es.len() == 0 {
        assert(!entries_have_reserved(copy_entries_model(es, path)->Ok_0.0));
    } else {
        let e = es[0];
        if is_reserved(e.name) {
            lemma_copy_entries_no_reserved(es.drop_first(), path);
            assert(!entries_have_reserved(copy_entries_model(es, path)->Ok_0.0));
        } else {
            match e.node {
                NodeModel::File { readable, content } => {
                    lemma_copy_entries_no_reserved(es.drop_first(), path);
                    if readable {
                        let rest = copy_entries_model(es.drop_first(), path)->Ok_0.0;
                        let em = EntryModel {
                            name: e.name,
                            node: NodeModel::File { readable: true, content },
                        };
                        assert((seq![em] + rest)[0] == em);
                        assert((seq![em] + rest).drop_first() =~= rest);
                        assert(!is_reserved(em.name));
                        assert(!has_reserved_entry(em.node));
                        assert(!entries_have_reserved(rest));
                        assert(!entries_have_reserved(seq![em] + rest));
                    } else {
                        assert(!entries_have_reserved(copy_entries_model(es, path)->Ok_0.0));
                    }
                },
                NodeModel::Dir { .. } => {
                    lemma_copy_has_no_reserved(e.node, child_path(path, e.name));
                    lemma_copy_entries_no_reserved(es.drop_first(), path);
                    let sub = copy_node_model(e.node, child_path(path, e.name))->Ok_0.0;
                    let rest = copy_entries_model(es.drop_first(), path)->Ok_0.0;
                    let em = EntryModel { name: e.name, node: sub };
                    assert((seq![em] + rest)[0] == em);
                    assert((seq![em] + rest).drop_first() =~= rest);
                    assert(!entries_have_reserved(seq![em] + rest));
                    assert(copy_entries_model(es, path)->Ok_0.0 == seq![em] + rest);
                },
            }
        }
    }
}

/// The law of idempotence: the tree a successful copy plans, copied again to
/// any fresh destination, is planned unchanged — byte-identical file
/// contents, identical structure — with no skipped file.
pub proof fn lemma_copy_idempotent(m: NodeModel, path: Seq<u8>, path2: Seq<u8>)
    requires
        copy_node_model(m, path) is Ok,
    ensures
        copy_node_model(copy_node_model(m, path)->Ok_0.0, path2) == Ok::<
            (NodeModel, Seq<Seq<u8>>),
            EngineError,
        >((copy_node_model(m, path)->Ok_0.0, Seq::empty())),
    decreases m,
{
    match m {
        NodeModel::File { .. } => {},
        NodeModel::Dir { entries, .. } => {
            lemma_copy_entries_idempotent(entries, path, path2);
        },
    }
}

/// Copied entry sequences copy again without change or failure.
proof fn lemma_copy_entries_idempotent(es: Seq<EntryModel>, path: Seq<u8>, path2: Seq<u8>)
    requires
        copy_entries_model(es, path) is Ok,
    ensures
        copy_entries_model(copy_entries_model(es, path)->Ok_0.0, path2) == Ok::<
            (Seq<EntryModel>, Seq<Seq<u8>>),
            EngineError,
        >((copy_entries_model(es, path)->Ok_0.0, Seq::empty())),
    decreases es,
{
    if es.len() == 0 {
    } else {
        let e = es[0];
        if is_reserved(e.name) {
            lemma_copy_entries_idempotent(es.drop_first(), path, path2);
        } else {
            match e.node {
                NodeModel::File { readable, content } => {
                    lemma_copy_entries_idempotent(es.drop_first(), path, path2);
                    if readable {
                        let rest = copy_entries_model(es.drop_first(), path)->Ok_0.0;
                        let em = EntryModel {
                            name: e.name,
                            node: NodeModel::File { readable: true, content },
                        };
                        assert((seq![em] + rest).drop_first() =~= rest);
                        assert(seq![em] + rest =~= copy_entries_model(es, path)->Ok_0.0);
                    }
                },
                NodeModel::Dir { .. } => {
                    lemma_copy_idempotent(e.node, child_path(path, e.name), child_path(path2, e.name));
                    lemma_copy_entries_idempotent(es.drop_first(), path, path2);
                    let sub = copy_node_model(e.node, child_path(path, e.name))->Ok_0.0;
                    let rest = copy_entries_model(es.drop_first(), path)->Ok_0.0;
                    let em = EntryModel { name: e.name, node: sub };
                    assert((seq![em] + rest).drop_first() =~= rest);
                    assert(Seq::<Seq<u8>>::empty() + Seq::<Seq<u8>>::empty() =~= Seq::<
                        Seq<u8>,
                    >::empty());
                    assert(seq![em] + rest =~= copy_entries_model(es, path)->Ok_0.0);
                },
            }
        }
    }
}

/// The number of files in a tree.
pub open spec fn file_count(m: NodeModel) -> nat
    decreases m,
{
    match m {
        NodeModel::File { .. } => 1,
        NodeModel::Dir { entries, .. } => entries_file_count(entries),
    }
}

/// The number of files under a sequence of entries.
pub open spec fn entries_file_count(es: Seq<EntryModel>) -> nat
    decreases es,
{
    if es.len() == 0 {
        0
    } else {
        file_count(es[0].node) + entries_file_count(es.drop_first())
    }
}

/// The number of files a copy of `m` is due to deliver: readable files not
/// under a reserved name.
pub open spec fn copyable_file_count(m: NodeModel) -> nat
    decreases m,
{
    match m {
        NodeModel::File { readable, .. } => if readable {
            1
        } else {
            0
        },
        NodeModel::Dir { entries, .. } => entries_copyable_count(entries),
    }
}

/// The number of files due under a sequence of entries, reserved names
/// skipped entirely.
pub open spec fn entries_copyable_count(es: Seq<EntryModel>) -> nat
    decreases es,
{
    if es.len() == 0 {
        0
    } else {
        (if is_reserved(es[0].name) {
            0
        } else {
            copyable_file_count(es[0].node)
        }) + entries_copyable_count(es.drop_first())
    }
}

/// The law behind the resilient policy: a source tree whose directories can
/// all be listed is copied successfully, however many of its files are
/// unreadable — only a directory read failure, or an unreadable single-file
/// root, aborts a copy.
pub proof fn lemma_readable_dirs_copy_succeeds(m: NodeModel, path: Seq<u8>)
    requires
        crate::fs_tree::all_dirs_readable(m),
        m is Dir,
    ensures
        copy_node_model(m, path) is Ok,
    decreases m,
{
    match m {
        NodeModel::File { .. } => {},
        NodeModel::Dir { entries, .. } => {
            lemma_readable_entries_copy_succeed(entries, path);
        },
    }
}

/// Entries whose directories can all be listed copy successfully.
proof fn lemma_readable_entries_copy_succeed(es: Seq<EntryModel>, path: Seq<u8>)
    requires
        crate::fs_tree::entries_dirs_readable(es),
    ensures
        copy_entries_model(es, path) is Ok,
    decreases es,
{
    if es.len() > 0 {
        let e = es[0];
        lemma_readable_entries_copy_succeed(es.drop_first(), path);
        if !is_reserved(e.name) && e.node is Dir {
            lemma_readable_dirs_copy_succeeds(e.node, child_path(path, e.name));
        }
    }
}

/// The number of unreadable files a copy of `m` must skip and record:
/// unreadable files not under a reserved name.
pub open spec fn unreadable_file_count(m: NodeModel) -> nat
    decreases m,
{
    match m {
        NodeModel::File { readable, .. } => if readable {
            0
        } else {
            1
        },
        NodeModel::Dir { entries, .. } => entries_unreadable_count(entries),
    }
}

/// The number of unreadable files under a sequence of entries, reserved
/// names skipped entirely.
pub open spec fn entries_unreadable_count(es: Seq<EntryModel>) -> nat
    decreases es,
{
    if es.len() == 0 {
        0
    } else {
        (if is_reserved(es[0].name) {
            0
        } else {
            unreadable_file_count(es[0].node)
        }) + entries_unreadable_count(es.drop_first())
    }
}

/// The law of what a successful copy delivers: the copied tree holds exactly
/// one file for each readable source file that does not lie under a reserved
/// name — unreadable files are the only ones missing, and each of those
/// contributes one recorded path.
pub proof fn lemma_copy_delivers_copyable_files(m: NodeModel, path: Seq<u8>)
    requires
        copy_node_model(m, path) is Ok,
    ensures
        file_count(copy_node_model(m, path)->Ok_0.0) == copyable_file_count(m),
        file_count(copy_node_model(m, path)->Ok_0.0) + copy_node_model(m, path)->Ok_0.1.len()
            == copyable_file_count(m) + unreadable_file_count(m),
    decreases m,
{
    match m {
        NodeModel::File { .. } => {},
        NodeModel::Dir { entries, .. } => {
            lemma_copy_entries_deliver_copyable(entries, path);
        },
    }
}

/// Copied entries hold exactly the copyable files and record the rest.
proof fn lemma_copy_entries_deliver_copyable(es: Seq<EntryModel>, path: Seq<u8>)
    requires
        copy_entries_model(es, path) is Ok,
    ensures
        entries_file_count(copy_entries_model(es, path)->Ok_0.0) == entries_copyable_count(es),
        entries_file_count(copy_entries_model(es, path)->Ok_0.0) + copy_entries_model(
            es,
            path,
        )->Ok_0.1.len() == entries_copyable_count(es) + entries_unreadable_count(es),
    decreases es,
{
    if es.len() == 0 {
        assert(entries_file_count(copy_entries_model(es, path)->Ok_0.0)
            == entries_copyable_count(es));
        assert(copy_entries_model(es, path)->Ok_0.1.len() == entries_unreadable_count(es));
    } else {
        let e = es[0];
        if is_reserved(e.name) {
            lemma_copy_entries_deliver_copyable(es.drop_first(), path);
            assert(entries_file_count(copy_entries_model(es, path)->Ok_0.0)
                == entries_copyable_count(es));
        } else {
            match e.node {
                NodeModel::File { readable, content } => {
                    lemma_copy_entries_deliver_copyable(es.drop_first(), path);
                    let rest = copy_entries_model(es.drop_first(), path)->Ok_0;
                    assert(unreadable_file_count(e.node) == (if readable { 0nat } else { 1nat }));
                    assert(copyable_file_count(e.node) == (if readable { 1nat } else { 0nat }));
                    if readable {
                        let em = EntryModel {
                            name: e.name,
                            node: NodeModel::File { readable: true, content },
                        };
                        assert((seq![em] + rest.0)[0] == em);
                        assert((seq![em] + rest.0).drop_first() =~= rest.0);
                        assert(file_count(em.node) == 1);
                        assert(entries_file_count((seq![em] + rest.0).drop_first())
                            == entries_file_count(rest.0));
                        assert(entries_file_count(seq![em] + rest.0) == 1 + entries_file_count(
                            rest.0,
                        ));
                    }
                },
                NodeModel::Dir { .. } => {
                    lemma_copy_delivers_copyable_files(e.node, child_path(path, e.name));
                    lemma_copy_entries_deliver_copyable(es.drop_first(), path);
                    let sub = copy_node_model(e.node, child_path(path, e.name))->Ok_0;
                    let rest = copy_entries_model(es.drop_first(), path)->Ok_0;
                    let em = EntryModel { name: e.name, node: sub.0 };
                    assert((seq![em] + rest.0)[0] == em);
                    assert((seq![em] + rest.0).drop_first() =~= rest.0);
                    assert(entries_file_count(seq![em] + rest.0) == file_count(sub.0)
                        + entries_file_count(rest.0));
                },
            }
        }
    }
}

/// The whole engine in one step: the destination path a source tree
/// resolves to, and the copy the destination receives.
pub open spec fn copy_dir_model(m: NodeModel, dest_base: Seq<u8>, source_path: Seq<u8>) -> Result<
    (Seq<u8>, NodeModel, Seq<Seq<u8>>),
    EngineError,
> {
    match resolve_destination_model(m, dest_base) {
        Ok(path) => match copy_node_model(m, source_path) {
            Ok(p) => Ok((path, p.0, p.1)),
            Err(e) => Err(e),
        },
        Err(e) => Err(e),
    }
}

/// Resolve the destination for `source` under `dest_base`, then plan the
/// copy of `source` into it. Resolution failures abort before any copy is
/// planned.
pub fn copy_dir(source: &FsNode, dest_base: &[u8], source_path: &[u8]) -> (r: Result<
    (Vec<u8>, CopyReport),
    EngineError,
>)
    ensures
        match r {
            Ok(p) => copy_dir_model(node_model(*source), dest_base@, source_path@) == Ok::<
                _,
                EngineError,
            >((p.0@, node_model(p.1.tree), line_views(p.1.failed@))),
            Err(e) => copy_dir_model(node_model(*source), dest_base@, source_path@) == Err::<
                (Seq<u8>, NodeModel, Seq<Seq<u8>>),
                _,
            >(e),
        },
{
    match resolve_destination(source, dest_base) {
        Ok(path) => match copy_tree(source, source_path) {
            Ok(rep) => Ok((path, rep)),
            Err(e) => Err(e),
        },
        Err(e) => Err(e),
    }
}

} // verus!
