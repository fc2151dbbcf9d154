//! Tests of removable-volume selection and the enumeration-failure sentinel.

use volsync::volumes::{list_volumes, split_drive_strings, Volume, VolumeProbe, DRIVE_TYPE_REMOVABLE};

fn probe(path: &str, drive_type: u32, label: Option<&str>) -> VolumeProbe {
    VolumeProbe {
        device_path: path.to_string(),
        drive_type,
        label: label.map(|l| l.to_string()),
    }
}

#[test]
fn drive_buffer_splits_on_nul_and_drops_padding() {
    // "C:\" NUL "D:\" NUL "E:\" NUL NUL, padded with zeros as the
    // enumeration call leaves the buffer.
    let mut buf: Vec<u16> = Vec::new();
    for drive in ["C:\\", "D:\\", "E:\\"] {
        buf.extend(drive.encode_utf16());
        buf.push(0);
    }
    buf.push(0);
    while buf.len() < 30 {
        buf.push(0);
    }
    let parts = split_drive_strings(&buf);
    let expected: Vec<Vec<u16>> = ["C:\\", "D:\\", "E:\\"]
        .iter()
        .map(|d| d.encode_utf16().collect())
        .collect();
    assert_eq!(parts, expected);
    assert_eq!(split_drive_strings(&[0u16; 8]), Vec::<Vec<u16>>::new());
    assert_eq!(split_drive_strings(&[]), Vec::<Vec<u16>>::new());
}

#[test]
fn no_probes_yield_no_volumes() {
    let vols: Vec<Volume> = list_volumes(Some(Vec::new()));
    assert!(vols.is_empty());
}

#[test]
fn no_removable_probe_yields_no_volumes() {
    // Fixed (3), network (4), optical (5) and RAM (6) drives are all left out.
    let vols = list_volumes(Some(vec![
        probe("C:\\", 3, Some("System")),
        probe("N:\\", 4, None),
        probe("O:\\", 5, Some("Disc")),
        probe("R:\\", 6, None),
    ]));
    assert!(vols.is_empty());
}

#[test]
fn enumeration_failure_yields_the_sentinel() {
    let vols = list_volumes(None);
    assert_eq!(vols.len(), 1);
    assert_eq!(vols[0].device_path, "Error retrieving drives.");
    assert_eq!(vols[0].label, "Unknown");
}

#[test]
fn removable_probes_keep_their_order_and_labels() {
    let vols = list_volumes(Some(vec![
        probe("C:\\", 3, Some("System")),
        probe("E:\\", DRIVE_TYPE_REMOVABLE, Some("BACKUP")),
        probe("F:\\", DRIVE_TYPE_REMOVABLE, None),
        probe("G:\\", DRIVE_TYPE_REMOVABLE, Some("EOT DATA")),
    ]));
    assert_eq!(vols.len(), 3);
    assert_eq!(vols[0].device_path, "E:\\");
    assert_eq!(vols[0].label, "BACKUP");
    assert_eq!(vols[1].device_path, "F:\\");
    assert_eq!(vols[1].label, "Unknown");
    assert_eq!(vols[2].device_path, "G:\\");
    assert_eq!(vols[2].label, "EOT DATA");
}
