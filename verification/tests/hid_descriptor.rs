use lightshow::hid;

fn reports(desc: &[u8]) -> Vec<(&'static str, u8, u32, u32)> {
    hid::parse_hid_descriptor_reports(desc)
        .iter()
        .map(|r| (r.kind, r.id, r.total_bits, r.total_bytes))
        .collect()
}

#[test]
fn an_empty_descriptor_declares_nothing() {
    assert_eq!(reports(&[]), vec![]);
}

#[test]
fn a_feature_report_of_64_bytes() {
    let desc = [
        0x06, 0x89, 0xFF, // usage page
        0x09, 0xCC, // usage
        0xA1, 0x01, // collection
        0x85, 0xCC, // report id
        0x75, 0x08, // report size
        0x95, 0x3F, // report count
        0xB1, 0x02, // feature
        0xC0,
    ];
    assert_eq!(reports(&desc), vec![("Feature", 0xCC, 504, 63)]);
}

#[test]
fn fields_of_one_report_add_up() {
    let desc = [0x75, 0x01, 0x95, 0x03, 0x81, 0x02, 0x95, 0x06, 0x81, 0x01];
    assert_eq!(reports(&desc), vec![("Input", 0, 9, 2)]);
}

#[test]
fn reports_come_by_kind_then_by_id() {
    let desc = [
        0x75, 0x08, 0x95, 0x01, // one byte each
        0x85, 0x02, 0x91, 0x00, // output 2
        0x81, 0x00, // input 2
        0x85, 0x01, 0x81, 0x00, // input 1
        0xB1, 0x00, // feature 1
        0x91, 0x00, // output 1
    ];
    assert_eq!(
        reports(&desc),
        vec![
            ("Feature", 1, 8, 1),
            ("Input", 1, 8, 1),
            ("Input", 2, 8, 1),
            ("Output", 1, 8, 1),
            ("Output", 2, 8, 1),
        ]
    );
}

#[test]
fn a_report_without_fields_is_listed() {
    assert_eq!(reports(&[0x81, 0x00]), vec![("Input", 0, 0, 0)]);
}

#[test]
fn data_of_one_two_and_four_bytes() {
    let desc = [
        0x76, 0x10, 0x00, // report size 16 in two bytes
        0x97, 0x02, 0x00, 0x00, 0x00, // report count 2 in four bytes
        0x85, 0x07, 0x91, 0x02,
    ];
    assert_eq!(reports(&desc), vec![("Output", 7, 32, 4)]);
    // An id keeps its low byte only.
    let desc = [0x86, 0x34, 0x12, 0x75, 0x08, 0x95, 0x01, 0xB1, 0x02];
    assert_eq!(reports(&desc), vec![("Feature", 0x34, 8, 1)]);
}

#[test]
fn long_items_are_stepped_over() {
    let rest = [0x75, 0x08, 0x95, 0x02, 0x81, 0x02];
    let mut desc = vec![0xFE, 0x03, 0x77, 0x81, 0x81, 0x81];
    desc.extend_from_slice(&rest);
    assert_eq!(reports(&desc), reports(&rest));
    assert_eq!(reports(&[0x75, 0x08, 0x95, 0x02, 0x81, 0x02, 0xFE]), reports(&rest));
    assert_eq!(reports(&[0xFE, 0x20]), vec![]);
    // Between whole items, a long one among them.
    let (before, after) = ([0xFE, 0x01, 0x10, 0x75, 0x75, 0x08], [0x95, 0x02, 0x81, 0x02]);
    let with = [&before[..], &[0xFE, 0x02, 0x33, 0x75, 0x10], &after[..]].concat();
    assert_eq!(reports(&with), reports(&[&before[..], &after[..]].concat()));
    assert_eq!(reports(&with), vec![("Input", 0, 16, 2)]);
}

#[test]
fn a_cut_off_item_ends_the_descriptor() {
    assert_eq!(reports(&[0x75, 0x08, 0x95, 0x02, 0x81, 0x02, 0x97, 0x01]), vec![("Input", 0, 16, 2)]);
    // Cut off short items, and long ones after one, two and four bytes.
    let whole = [0x75, 0x08, 0x95, 0x02, 0x81, 0x02];
    let tails: [&[u8]; 5] = [&[0x81], &[0x83, 1, 2, 3], &[0xFE], &[0xFE, 0x81], &[0xFE, 2, 0x81, 0x02]];
    for tail in tails {
        assert_eq!(reports(&[&whole[..], tail].concat()), reports(&whole));
    }
}

#[test]
fn other_items_declare_nothing() {
    // A local item, a collection and an unknown main item.
    assert_eq!(reports(&[0x09, 0x01, 0xA1, 0x01, 0xC0, 0x71, 0x00]), vec![]);
    // Nor do they change what others declare: local, collection, end, usage page, reserved.
    let items: [&[u8]; 6] = [&[0x09, 0x01], &[0xA1, 0x01], &[0xC0], &[0x06, 0, 0xFF], &[0x7D, 0x08], &[0x89, 1]];
    let whole = [0x85, 0x03, 0x75, 0x08, 0x95, 0x02, 0x81, 0x02];
    for item in items {
        for at in [0, 2, 4, 6, 8] {
            let desc = [&whole[..at], item, &whole[at..]].concat();
            assert_eq!(reports(&desc), vec![("Input", 3, 16, 2)]);
        }
    }
}

#[test]
fn lengths_that_do_not_fit_are_told() {
    let desc = [0x77, 0, 0, 0, 0x80, 0x95, 0x02, 0x81, 0x02];
    assert!(hid::checked_descriptor_reports(&desc).is_none());
    let sum = [0x77, 0xFF, 0xFF, 0xFF, 0xFF, 0x95, 0x01, 0x81, 0x02, 0x75, 0x01, 0x81, 0x02];
    assert!(hid::checked_descriptor_reports(&sum).is_none());
    let fits = [0x77, 0xFF, 0xFF, 0xFF, 0xFF, 0x95, 0x01, 0x81, 0x02];
    let list = hid::checked_descriptor_reports(&fits).unwrap();
    assert_eq!((list[0].total_bits, list[0].total_bytes), (u32::MAX, 0x2000_0000));
}
