use binjs_io::io::statistics::{Bytes, BytesAndInstances, ContentInfo, Instances};

const NAMES: [&str; 9] = [
    "bools",
    "floats",
    "unsigned_longs",
    "string_enums",
    "property_keys",
    "identifier_names",
    "interface_names",
    "string_literals",
    "list_lengths",
];

fn numbered(start: usize) -> ContentInfo<Instances> {
    ContentInfo::with(|name| {
        Instances::from(start + NAMES.iter().position(|n| *n == name).unwrap())
    })
}

#[test]
fn counters_start_at_zero() {
    assert_eq!(usize::from(Bytes::default()), 0);
    assert_eq!(usize::from(Instances::default()), 0);
}

#[test]
fn counters_convert_from_and_into_usize() {
    let bytes: Bytes = 17usize.into();
    let back: usize = bytes.into();
    assert_eq!(back, 17);
    let instances = Instances::from(usize::MAX);
    assert_eq!(usize::from(instances), usize::MAX);
}

#[test]
fn counters_add() {
    assert_eq!(usize::from(Bytes::from(3) + Bytes::from(4)), 7);
    assert_eq!(usize::from(Instances::from(0) + Instances::from(9)), 9);
    let mut bytes = Bytes::from(10);
    bytes += Bytes::from(5);
    bytes += Bytes::default();
    assert_eq!(usize::from(bytes), 15);
    let mut instances = Instances::default();
    instances += Instances::from(1);
    instances += Instances::from(1);
    assert_eq!(usize::from(instances), 2);
}

#[test]
fn counters_add_in_any_order_and_grouping() {
    let (a, b, c) = (Bytes::from(11), Bytes::from(22), Bytes::from(33));
    assert_eq!(usize::from(a + b), usize::from(b + a));
    assert_eq!(usize::from((a + b) + c), usize::from(a + (b + c)));
}

#[test]
fn counters_sum() {
    assert_eq!(usize::from(Bytes::sum(&[])), 0);
    assert_eq!(
        usize::from(Bytes::sum(&[Bytes::from(1), Bytes::from(2), Bytes::from(3)])),
        6
    );
    assert_eq!(
        usize::from(Instances::sum(&[Instances::from(usize::MAX - 1), Instances::from(1)])),
        usize::MAX
    );
}

#[test]
fn bytes_and_instances_new_keeps_both() {
    let pair = BytesAndInstances::new(Bytes::from(12), Instances::from(3));
    assert_eq!(usize::from(pair.bytes), 12);
    assert_eq!(usize::from(pair.instances), 3);
}

#[test]
fn with_then_iter_lists_nine_categories_in_order() {
    let info = ContentInfo::with(|name| format!("<{}>", name));
    let entries = info.iter();
    assert_eq!(entries.len(), 9);
    for (i, (name, value)) in entries.into_iter().enumerate() {
        assert_eq!(name, NAMES[i]);
        assert_eq!(*value, format!("<{}>", NAMES[i]));
    }
    assert_eq!(info.bools, "<bools>");
    assert_eq!(info.list_lengths, "<list_lengths>");
}

#[test]
fn with_builds_all_zero_accumulators() {
    let info: ContentInfo<Bytes> = ContentInfo::with(|_| Bytes::default());
    for (_, value) in info.iter() {
        assert_eq!(usize::from(*value), 0);
    }
    let by_default: ContentInfo<Bytes> = ContentInfo::default();
    for (_, value) in by_default.into_iter() {
        assert_eq!(usize::from(value), 0);
    }
}

#[test]
fn into_with_transforms_each_category() {
    let info = numbered(100);
    let shown = info.into_with(|name, value| format!("{}={}", name, usize::from(value)));
    let entries = shown.into_iter();
    assert_eq!(entries.len(), 9);
    for (i, (name, value)) in entries.into_iter().enumerate() {
        assert_eq!(name, NAMES[i]);
        assert_eq!(value, format!("{}={}", NAMES[i], 100 + i));
    }
}

#[test]
fn into_with_pairs_bytes_with_instances() {
    let bytes: ContentInfo<Bytes> = ContentInfo::with(|name| Bytes::from(name.len()));
    let instances = numbered(1);
    let pairs = bytes.into_with(|name, bytes| {
        let index = NAMES.iter().position(|n| *n == name).unwrap();
        BytesAndInstances::new(bytes, *instances.iter()[index].1)
    });
    assert_eq!(usize::from(pairs.floats.bytes), 6);
    assert_eq!(usize::from(pairs.floats.instances), 2);
    assert_eq!(usize::from(pairs.list_lengths.bytes), 12);
    assert_eq!(usize::from(pairs.list_lengths.instances), 9);
}

#[test]
fn iter_mut_changes_the_record() {
    let mut info = numbered(0);
    for (name, value) in info.iter_mut() {
        if name == "floats" {
            *value = Instances::from(1000);
        } else {
            *value += Instances::from(1);
        }
    }
    let values: Vec<usize> = info
        .into_iter()
        .into_iter()
        .map(|(_, value)| usize::from(value))
        .collect();
    assert_eq!(values, vec![1, 1000, 3, 4, 5, 6, 7, 8, 9]);
}

#[test]
fn iter_mut_lists_nine_categories_in_order() {
    let mut info = numbered(5);
    let names: Vec<&str> = info.iter_mut().into_iter().map(|(name, _)| name).collect();
    assert_eq!(names, NAMES.to_vec());
}

#[test]
fn into_iter_lists_nine_categories_in_order() {
    let entries = numbered(7).into_iter();
    assert_eq!(entries.len(), 9);
    for (i, (name, value)) in entries.into_iter().enumerate() {
        assert_eq!(name, NAMES[i]);
        assert_eq!(usize::from(value), 7 + i);
    }
}

#[test]
fn merge_adds_each_category() {
    let merged = numbered(0) + numbered(10);
    let values: Vec<usize> = merged
        .iter()
        .into_iter()
        .map(|(_, value)| usize::from(*value))
        .collect();
    assert_eq!(values, vec![10, 12, 14, 16, 18, 20, 22, 24, 26]);
}

#[test]
fn merge_keeps_the_total() {
    let total = |info: &ContentInfo<Instances>| -> usize {
        let values: Vec<Instances> = info.iter().into_iter().map(|(_, v)| *v).collect();
        usize::from(Instances::sum(&values))
    };
    let (a, b) = (numbered(3), numbered(40));
    let (total_a, total_b) = (total(&a), total(&b));
    assert_eq!(total_a, 63);
    assert_eq!(total_b, 396);
    assert_eq!(total(&(a + b)), total_a + total_b);
}

#[test]
fn merge_in_place() {
    let mut info = numbered(1);
    info += numbered(1);
    info += ContentInfo::with(|_| Instances::default());
    let values: Vec<usize> = info
        .into_iter()
        .into_iter()
        .map(|(_, value)| usize::from(value))
        .collect();
    assert_eq!(values, vec![2, 4, 6, 8, 10, 12, 14, 16, 18]);
}

#[test]
fn merge_in_any_order() {
    let values = |info: ContentInfo<Instances>| -> Vec<usize> {
        info.into_iter().into_iter().map(|(_, v)| usize::from(v)).collect()
    };
    assert_eq!(values(numbered(2) + numbered(9)), values(numbered(9) + numbered(2)));
    assert_eq!(
        values((numbered(2) + numbered(9)) + numbered(4)),
        values(numbered(2) + (numbered(9) + numbered(4)))
    );
}

#[test]
fn total_sums_bytes_and_instances() {
    let info = numbered(1).into_with(|_, instances| {
        BytesAndInstances::new(Bytes::from(10 * usize::from(instances)), instances)
    });
    let total = info.total();
    assert_eq!(usize::from(total.instances), 45);
    assert_eq!(usize::from(total.bytes), 450);
    let empty: ContentInfo<BytesAndInstances> =
        ContentInfo::with(|_| BytesAndInstances::new(Bytes::default(), Instances::default()));
    assert_eq!(usize::from(empty.total().bytes), 0);
    assert_eq!(usize::from(empty.total().instances), 0);
}

#[test]
fn report_groups_list_their_categories_in_order() {
    let info = numbered(0).into_with(|_, instances| {
        BytesAndInstances::new(Bytes::from(2 * usize::from(instances)), instances)
    });
    let fixed: Vec<(&str, usize)> = info
        .fixed()
        .into_iter()
        .map(|(name, data)| (name, usize::from(data.instances)))
        .collect();
    assert_eq!(
        fixed,
        vec![("bools", 0), ("string enums", 3), ("interface names", 6)]
    );
    let user: Vec<(&str, usize)> = info
        .user_extensible()
        .into_iter()
        .map(|(name, data)| (name, usize::from(data.bytes)))
        .collect();
    assert_eq!(
        user,
        vec![
            ("property_keys", 8),
            ("identifier names", 10),
            ("string literals", 14),
            ("floats", 2),
            ("unsigned longs", 4),
            ("list lengths", 16)
        ]
    );
}

#[test]
fn checked_total_agrees_with_total() {
    let info = numbered(1).into_with(|_, instances| {
        BytesAndInstances::new(Bytes::from(10 * usize::from(instances)), instances)
    });
    let total = info.checked_total().unwrap();
    assert_eq!(usize::from(total.instances), 45);
    assert_eq!(usize::from(total.bytes), 450);
}

#[test]
fn checked_total_tells_when_a_sum_cannot_be_held() {
    let zero = || BytesAndInstances::new(Bytes::default(), Instances::default());
    let mut info: ContentInfo<BytesAndInstances> = ContentInfo::with(|_| zero());
    info.bools = BytesAndInstances::new(Bytes::from(usize::MAX), Instances::from(1));
    assert_eq!(usize::from(info.checked_total().unwrap().bytes), usize::MAX);
    info.list_lengths = BytesAndInstances::new(Bytes::from(1), Instances::from(1));
    assert!(info.checked_total().is_none());
    info.bools = BytesAndInstances::new(Bytes::from(5), Instances::from(usize::MAX));
    assert!(info.checked_total().is_none());
    info.list_lengths = BytesAndInstances::new(Bytes::from(1), Instances::from(0));
    let total = info.checked_total().unwrap();
    assert_eq!(usize::from(total.bytes), 6);
    assert_eq!(usize::from(total.instances), usize::MAX);
}

#[test]
fn counters_are_shown_in_decimal_digits() {
    assert_eq!(Bytes::from(0).to_string(), "0");
    assert_eq!(Bytes::from(7).to_string(), "7");
    assert_eq!(Bytes::from(10).to_string(), "10");
    assert_eq!(Bytes::from(1024).to_string(), "1024");
    assert_eq!(Instances::from(9_876_543_210).to_string(), "9876543210");
    assert_eq!(Instances::from(usize::MAX).to_string(), format!("{}", usize::MAX));
    let mut state: usize = 12345;
    for _ in 0..2000 {
        state = state.wrapping_mul(6364136223846793005).wrapping_add(1442695040888963407);
        let shown = state >> (state % 64);
        assert_eq!(Bytes::from(shown).to_string(), format!("{}", shown));
    }
}
