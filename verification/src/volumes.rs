//! Selection of removable volumes from raw enumeration data. The operating
//! system hands the surrounding application one probe per mounted volume: the
//! device path, the drive-type code, and the volume label where the label
//! query succeeded. This module turns those probes into the volume list the
//! engine's callers see, and models the enumeration-failure sentinel.

use vstd::prelude::*;

verus! {

/// The drive-type code the operating system assigns to removable media.
pub const DRIVE_TYPE_REMOVABLE: u32 = 2;

/// A removable storage volume: its device path and a display label,
/// "Unknown" where no label could be obtained.
pub struct Volume {
    pub device_path: String,
    pub label: String,
}

/// Raw data about one mounted volume: the device path, the drive-type code
/// the OS reported for it, and the volume label where the label query
/// succeeded.
pub struct VolumeProbe {
    pub device_path: String,
    pub drive_type: u32,
    pub label: Option<String>,
}

/// The label a probe yields: the queried label, or "Unknown" where the query
/// failed.
pub open spec fn label_model(l: Option<String>) -> Seq<char> {
    match l {
        Some(s) => s@,
        None => "Unknown"@,
    }
}

/// The model of a volume: its device path and label.
pub open spec fn volume_model(v: Volume) -> (Seq<char>, Seq<char>) {
    (v.device_path@, v.label@)
}

/// The models of a sequence of volumes, in order.
pub open spec fn volume_views(vs: Seq<Volume>) -> Seq<(Seq<char>, Seq<char>)> {
    Seq::new(vs.len(), |i: int| volume_model(vs[i]))
}

/// The removable volumes among the probes, in the order the probes came,
/// each with its label or "Unknown" where the label query failed.
pub open spec fn removable_of(ps: Seq<VolumeProbe>) -> Seq<(Seq<char>, Seq<char>)>
    decreases ps.len(),
{
    if ps.len() == 0 {
        Seq::empty()
    } else {
        let rest = removable_of(ps.drop_last());
        let last = ps.last();
        if last.drive_type == DRIVE_TYPE_REMOVABLE {
            rest + seq![(last.device_path@, label_model(last.label))]
        } else {
            rest
        }
    }
}

/// A probe sequence without a single removable probe yields no volumes.
pub proof fn lemma_no_removable_is_empty(ps: Seq<VolumeProbe>)
    requires
        forall|i: int| 0 <= i < ps.len() ==> ps[i].drive_type != DRIVE_TYPE_REMOVABLE,
    ensures
        removable_of(ps) == Seq::<(Seq<char>, Seq<char>)>::empty(),
    decreases ps.len(),
{
    if ps.len() > 0 {
        lemma_no_removable_is_empty(ps.drop_last());
        assert(removable_of(ps) =~= Seq::<(Seq<char>, Seq<char>)>::empty());
    } else {
        assert(removable_of(ps) =~= Seq::<(Seq<char>, Seq<char>)>::empty());
    }
}

/// The least index at or after `from` holding a NUL unit, or the length if
/// none does.
pub open spec fn first_nul_from(s: Seq<u16>, from: int) -> int
    decreases s.len() - from,
{
    if from < 0 || from >= s.len() {
        s.len() as int
    } else if s[from] == 0 {
        from
    } else {
        first_nul_from(s, from + 1)
    }
}

/// `first_nul_from` stays within bounds, lands on a NUL unless it reaches
/// the end, and skips no earlier NUL.
pub proof fn lemma_first_nul_from(s: Seq<u16>, from: int)
    requires
        0 <= from <= s.len(),
    ensures
        from <= first_nul_from(s, from) <= s.len(),
        first_nul_from(s, from) < s.len() ==> s[first_nul_from(s, from)] == 0,
        forall|j: int| from <= j < first_nul_from(s, from) ==> s[j] != 0,
    decreases s.len() - from,
{
    if from < s.len() && s[from] != 0 {
        lemma_first_nul_from(s, from + 1);
    }
}

/// The drive strings packed in `buf` from `pos` on: the maximal nonempty
/// runs of non-NUL units, in order, as the drive-enumeration buffer packs
/// them with NUL separators and NUL padding.
pub open spec fn drive_strings_from(buf: Seq<u16>, pos: int) -> Seq<Seq<u16>>
    decreases buf.len() - pos,
    via drive_strings_from_decreases
{
    if pos < 0 || pos >= buf.len() {
        Seq::empty()
    } else if buf[pos] == 0 {
        drive_strings_from(buf, pos + 1)
    } else {
        let k = first_nul_from(buf, pos);
        seq![buf.subrange(pos, k)] + drive_strings_from(buf, k)
    }
}

#[via_fn]
proof fn drive_strings_from_decreases(buf: Seq<u16>, pos: int) {
    if 0 <= pos < buf.len() && buf[pos] != 0 {
        lemma_first_nul_from(buf, pos);
    }
}

/// The views of a sequence of buffers of UTF-16 units.
pub open spec fn u16_views(v: Seq<Vec<u16>>) -> Seq<Seq<u16>> {
    Seq::new(v.len(), |i: int| v[i]@)
}

/// The least index at or after `from` holding a NUL unit, or the length.
fn find_nul_from(buf: &[u16], from: usize) -> (r: usize)
    requires
        from <= buf@.len(),
    ensures
        r == first_nul_from(buf@, from as int),
{
    let mut i: usize = from;
    while i < buf.len()
        invariant
            from <= i <= buf@.len(),
            forall|j: int| from <= j < i ==> buf@[j] != 0,
        decreases buf@.len() - i,
    {
        if buf[i] == 0 {
            proof {
                lemma_first_nul_from(buf@, from as int);
            }
            return i;
        }
        i = i + 1;
    }
    proof {
        lemma_first_nul_from(buf@, from as int);
    }
    i
}

/// The drive strings packed in a NUL-separated enumeration buffer, in order,
/// empties dropped: trailing NUL padding yields nothing.
pub fn split_drive_strings(buf: &[u16]) -> (r: Vec<Vec<u16>>)
    ensures
        u16_views(r@) == drive_strings_from(buf@, 0),
{
    let n = buf.len();
    let mut out: Vec<Vec<u16>> = Vec::new();
    proof {
        assert(u16_views(out@) + drive_strings_from(buf@, 0) =~~= drive_strings_from(buf@, 0));
    }
    let mut pos: usize = 0;
    while pos < n
        invariant
            n == buf@.len(),
            pos <= n,
            drive_strings_from(buf@, 0) == u16_views(out@) + drive_strings_from(buf@, pos as int),
        decreases n - pos,
    {
        if buf[pos] == 0 {
            pos = pos + 1;
        } else {
            let k = find_nul_from(buf, pos);
            proof {
                lemma_first_nul_from(buf@, pos as int);
            }
            let sl = vstd::slice::slice_subrange(buf, pos, k);
            let seg = vstd::slice::slice_to_vec(sl);
            let ghost old_out = out@;
            out.push(seg);
            proof {
                let piece = buf@.subrange(pos as int, k as int);
                assert(u16_views(out@) =~~= u16_views(old_out) + seq![piece]);
                assert(u16_views(old_out) + (seq![piece] + drive_strings_from(buf@, k as int))
                    =~~= u16_views(out@) + drive_strings_from(buf@, k as int));
            }
            pos = k;
        }
    }
    proof {
        assert(u16_views(out@) + drive_strings_from(buf@, pos as int) =~~= u16_views(out@));
    }
    out
}

/// The label a probe carries, or "Unknown" where the label query failed.
fn label_or_unknown(l: &Option<String>) -> (r: String)
    ensures
        r@ == label_model(*l),
{
    match l {
        Some(s) => s.clone(),
        None => "Unknown".to_owned(),
    }
}

/// The volume list for an enumeration outcome. `None` means the enumeration
/// call itself failed: the result is then a single sentinel entry, which
/// callers must treat as "no real volumes", never as a device path. `Some`
/// carries one probe per mounted volume: the result holds the removable ones,
/// in order, labelled "Unknown" where the label query failed; with no
/// removable probe it is empty.
pub fn list_volumes(probes: Option<Vec<VolumeProbe>>) -> (r: Vec<Volume>)
    ensures
        match probes {
            None => volume_views(r@) == seq![("Error retrieving drives."@, "Unknown"@)],
            Some(ps) => volume_views(r@) == removable_of(ps@),
        },
{
    match probes {
        None => {
            let mut r: Vec<Volume> = Vec::new();
            r.push(
                Volume {
                    device_path: "Error retrieving drives.".to_owned(),
                    label: "Unknown".to_owned(),
                },
            );
            assert(volume_views(r@) =~= seq![("Error retrieving drives."@, "Unknown"@)]);
            r
        },
        Some(ps) => {
            let mut r: Vec<Volume> = Vec::new();
            proof {
                assert(ps@.subrange(0, 0) =~= Seq::<VolumeProbe>::empty());
            }
            let mut i: usize = 0;
            while i < ps.len()
                invariant
                    i <= ps@.len(),
                    volume_views(r@) == removable_of(ps@.subrange(0, i as int)),
                decreases ps@.len() - i,
            {
                let p = &ps[i];
                let ghost old_r = r@;
                proof {
                    assert(ps@.subrange(0, i as int + 1).drop_last() =~= ps@.subrange(0, i as int));
                    assert(ps@.subrange(0, i as int + 1).last() == ps@[i as int]);
                }
                if p.drive_type == DRIVE_TYPE_REMOVABLE {
                    r.push(Volume { device_path: p.device_path.clone(), label: label_or_unknown(&p.label) });
                    proof {
                        assert(volume_views(r@) =~= volume_views(old_r) + seq![
                            (ps@[i as int].device_path@, label_model(ps@[i as int].label)),
                        ]);
                    }
                }
                i = i + 1;
            }
            proof {
                assert(ps@.subrange(0, i as int) =~= ps@);
            }
            r
        },
    }
}

} // verus!
