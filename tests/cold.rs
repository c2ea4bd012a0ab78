use rasn::cold::{decode_range, metadata_key, range_key, range_scan_step, range_value, ScanStep};

fn walk(ip: u32, records: &[(Vec<u8>, Vec<u8>)]) -> Option<u32> {
    for (key, value) in records {
        match range_scan_step(ip, key, value) {
            ScanStep::Found(asn) => return Some(asn),
            ScanStep::Stop => return None,
            ScanStep::Continue => {}
        }
    }
    None
}

fn stored_at_or_below(ip: u32, ranges: &[(u32, u32, u32)]) -> Vec<(Vec<u8>, Vec<u8>)> {
    let mut rs: Vec<(u32, u32, u32)> = ranges.iter().copied().filter(|r| r.0 <= ip).collect();
    rs.sort_by(|a, b| b.0.cmp(&a.0));
    rs.iter().map(|r| (range_key(r.0), range_value(r.1, r.2))).collect()
}

#[test]
fn record_layout_is_big_endian() {
    assert_eq!(range_key(0x08080800), vec![8, 8, 8, 0]);
    assert_eq!(range_value(0x080808FF, 15169), vec![8, 8, 8, 0xFF, 0, 0, 0x3B, 0x41]);
    assert_eq!(metadata_key(15169), vec![0, 0, 0x3B, 0x41]);
}

#[test]
fn records_read_back() {
    let key = range_key(0x01010100);
    let value = range_value(0x010101FF, 13335);
    assert_eq!(decode_range(&key, &value), Some((0x01010100, 0x010101FF, 13335)));
    assert_eq!(decode_range(&key[..3], &value), None);
    assert_eq!(decode_range(&key, &value[..7]), None);
}

#[test]
fn put_range_then_find() {
    let ranges = [(0x08080800, 0x080808FF, 15169)];
    assert_eq!(walk(0x08080808, &stored_at_or_below(0x08080808, &ranges)), Some(15169));
    assert_eq!(walk(0x08080800, &stored_at_or_below(0x08080800, &ranges)), Some(15169));
    assert_eq!(walk(0x080808FF, &stored_at_or_below(0x080808FF, &ranges)), Some(15169));
    assert_eq!(walk(0x01010101, &stored_at_or_below(0x01010101, &ranges)), None);
    assert_eq!(walk(0x08080900, &stored_at_or_below(0x08080900, &ranges)), None);
}

#[test]
fn several_ranges_then_find() {
    let ranges = [(0x08080800, 0x080808FF, 15169), (0x01010100, 0x010101FF, 13335)];
    assert_eq!(walk(0x08080808, &stored_at_or_below(0x08080808, &ranges)), Some(15169));
    assert_eq!(walk(0x01010101, &stored_at_or_below(0x01010101, &ranges)), Some(13335));
    assert_eq!(walk(0x05000000, &stored_at_or_below(0x05000000, &ranges)), None);
}

#[test]
fn scan_step_decisions() {
    let key = range_key(100);
    let value = range_value(200, 7);
    assert_eq!(range_scan_step(150, &key, &value), ScanStep::Found(7));
    assert_eq!(range_scan_step(50, &key, &value), ScanStep::Stop);
    assert_eq!(range_scan_step(250, &key, &value), ScanStep::Continue);
    assert_eq!(range_scan_step(150, &[1, 2], &value), ScanStep::Continue);
}
