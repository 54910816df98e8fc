use superdeduper::cluster::{cluster, ProcessedItem};
use superdeduper::naming::{new_filename, ImageFormat};
use superdeduper::phash::PHash;

fn item(fp: u64, path: &str, pixels: u64) -> ProcessedItem {
    ProcessedItem {
        fingerprint: PHash(fp),
        source_path: path.to_string(),
        pixel_count: pixels,
    }
}

#[test]
fn empty_input_yields_no_groups() {
    let groups = cluster(Vec::new());
    assert_eq!(groups.len(), 0);
}

#[test]
fn single_item_yields_single_group() {
    let groups = cluster(vec![item(0xabcd, "one", 4096)]);
    assert_eq!(groups.len(), 1);
    assert_eq!(groups[0].len(), 1);
    assert_eq!(groups[0][0].source_path, "one");
    // named with rank 0: the bare canonical hex, no dash-suffixed variant
    let canon = groups[0][groups[0].len() - 1].fingerprint;
    let name = new_filename(&canon, &groups[0][0].fingerprint, 0, Some(ImageFormat::Png));
    assert_eq!(name, "000000000000abcd.png");
}

#[test]
fn end_to_end_three_images() {
    // A and B are within the threshold of each other; C is maximally far
    let a = item(0x0, "a", 64 * 64);
    let b = item(0x7, "b", 64 * 64);
    let c = item(u64::MAX, "c", 128 * 128);
    assert_eq!(PHash(0x0).distance(&PHash(0x7)), 3);
    assert_eq!(PHash(0x0).distance(&PHash(u64::MAX)), 64);

    let groups = cluster(vec![a, b, c]);
    assert_eq!(groups.len(), 2);
    assert_eq!(groups[0].len(), 2);
    assert_eq!(groups[1].len(), 1);

    // the pair {A, B}, anchored on B, comes before the singleton {C}
    let pair: Vec<&str> = groups[0].iter().map(|i| i.source_path.as_str()).collect();
    assert_eq!(pair, vec!["a", "b"]);
    assert_eq!(groups[1][0].source_path, "c");

    // names: the pair shares B's hex as canonical prefix, C stands alone
    let canon0 = groups[0][groups[0].len() - 1].fingerprint;
    assert_eq!(canon0.0, 0x7);
    let n0 = new_filename(&canon0, &groups[0][0].fingerprint, 0, Some(ImageFormat::Png));
    let n1 = new_filename(&canon0, &groups[0][1].fingerprint, 1, Some(ImageFormat::Png));
    assert_eq!(n0, "0000000000000007.png");
    assert_eq!(n1, "0000000000000007-1-0000000000000007.png");
    let canon1 = groups[1][groups[1].len() - 1].fingerprint;
    let n2 = new_filename(&canon1, &groups[1][0].fingerprint, 0, Some(ImageFormat::Png));
    assert_eq!(n2, "ffffffffffffffff.png");
}

#[test]
fn grouping_is_anchored_not_transitive() {
    // x and y are both similar to the anchor z but not to each other
    let x = item(0x0f, "x", 1);
    let y = item(0xf0, "y", 1);
    let z = item(0x00, "z", 1);
    assert_eq!(PHash(0x0f).distance(&PHash(0xf0)), 8);

    let groups = cluster(vec![x, y, z]);
    assert_eq!(groups.len(), 1);
    let order: Vec<&str> = groups[0].iter().map(|i| i.source_path.as_str()).collect();
    // z is popped as anchor, the scan meets y before x, the anchor is last
    assert_eq!(order, vec!["y", "x", "z"]);
}

#[test]
fn every_item_lands_in_exactly_one_group() {
    let items = vec![
        item(0x00, "p0", 1),
        item(0x01, "p1", 2),
        item(0xff00, "p2", 3),
        item(0xff01, "p3", 4),
        item(0x00ff_0000, "p4", 5),
    ];
    let groups = cluster(items);
    let mut seen: Vec<String> = Vec::new();
    for g in groups.iter() {
        assert!(g.len() >= 1);
        for m in g.iter() {
            seen.push(m.source_path.clone());
        }
    }
    seen.sort();
    assert_eq!(seen, vec!["p0", "p1", "p2", "p3", "p4"]);
}

#[test]
fn groups_come_out_largest_first() {
    // three mutually-far clusters of sizes 1, 2 and 3
    let items = vec![
        item(0x0000_0000_0000_0000, "a1", 1),
        item(0x0000_0000_0000_0001, "a2", 1),
        item(0x0000_0000_0000_0003, "a3", 1),
        item(0xffff_ffff_0000_0000, "b1", 1),
        item(0xffff_ffff_0000_0001, "b2", 1),
        item(0x0000_0000_ffff_ffff, "c1", 1),
    ];
    let groups = cluster(items);
    let lens: Vec<usize> = groups.iter().map(|g| g.len()).collect();
    assert_eq!(lens, vec![3, 2, 1]);
    for i in 0..groups.len() - 1 {
        assert!(groups[i].len() >= groups[i + 1].len());
    }
}
