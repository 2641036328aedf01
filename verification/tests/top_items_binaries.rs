use cargo_cache::top_items::binaries::binary_stats;
use cargo_cache::top_items::binaries::{bininfo_list_to_string, BinInfo};

#[test]
fn binaries_stats_from_file_desc_none() {
    // empty list
    let list: Vec<BinInfo> = Vec::new();
    let stats: String = bininfo_list_to_string(1, list);

    let empty = String::new();
    assert_eq!(stats, empty);
}

#[test]
fn binaries_stats_from_file_desc_one() {
    let bi = BinInfo {
        name: "cargo-cache".to_string(),
        size: 1,
    };
    let list: Vec<BinInfo> = vec![bi];
    let stats: String = bininfo_list_to_string(1, list);
    let wanted = String::from("Name        Size\ncargo-cache 1 B\n");
    assert_eq!(stats, wanted);
}

#[test]
fn binaries_stats_from_file_desc_two() {
    let bi1 = BinInfo {
        name: "crate-A".to_string(),
        size: 1,
    };
    let bi2 = BinInfo {
        name: "crate-B".to_string(),
        size: 2,
    };
    let list: Vec<BinInfo> = vec![bi1, bi2];
    let stats: String = bininfo_list_to_string(2, list);
    let wanted = String::from("Name    Size\ncrate-B 2 B\ncrate-A 1 B\n");
    assert_eq!(stats, wanted);
}

#[test]
fn binaries_stats_from_file_desc_multiple() {
    let bi1 = BinInfo {
        name: "crate-A".to_string(),
        size: 1,
    };
    let bi2 = BinInfo {
        name: "crate-B".to_string(),
        size: 2,
    };
    let bi3 = BinInfo {
        name: "crate-C".to_string(),
        size: 10,
    };
    let bi4 = BinInfo {
        name: "crate-D".to_string(),
        size: 6,
    };
    let bi5 = BinInfo {
        name: "crate-E".to_string(),
        size: 4,
    };
    let list: Vec<BinInfo> = vec![bi1, bi2, bi3, bi4, bi5];
    let stats: String = bininfo_list_to_string(10, list);
    let mut wanted = String::new();
    for i in &[
        "Name    Size\n",
        "crate-C 10 B\n",
        "crate-D 6 B\n",
        "crate-E 4 B\n",
        "crate-B 2 B\n",
        "crate-A 1 B\n",
    ] {
        wanted.push_str(i);
    }
    assert_eq!(stats, wanted);
}

// @TODO: we should not actually encounter several files of identical names...
// maybe add an assert?

#[test]
fn binaries_stats_from_file_desc_same_name_2_one() {
    let bi1 = BinInfo {
        name: "crate-A".to_string(),
        size: 3,
    };
    let bi2 = BinInfo {
        name: "crate-A".to_string(),
        size: 3,
    };

    let list: Vec<BinInfo> = vec![bi1, bi2];
    let stats: String = bininfo_list_to_string(2, list);
    let mut wanted = String::new();
    for i in &["Name    Size\n", "crate-A 3 B\n", "crate-A 3 B\n"] {
        wanted.push_str(i);
    }
    assert_eq!(stats, wanted);
}

#[test]
fn binaries_stats_from_file_desc_same_name_3_one() {
    let bi1 = BinInfo {
        name: "crate-A".to_string(),
        size: 3,
    };
    let bi2 = BinInfo {
        name: "crate-A".to_string(),
        size: 3,
    };
    let bi3 = BinInfo {
        name: "crate-A".to_string(),
        size: 3,
    };

    let list: Vec<BinInfo> = vec![bi1, bi2, bi3];
    let stats: String = bininfo_list_to_string(4, list);
    let mut wanted = String::new();
    for i in &[
        "Name    Size\n",
        "crate-A 3 B\n",
        "crate-A 3 B\n",
        "crate-A 3 B\n",
    ] {
        wanted.push_str(i);
    }
    assert_eq!(stats, wanted);
}

#[test]
fn bininfo_new() {
    let bi = BinInfo {
        name: String::from("abc"),
        size: 123,
    };
    assert_eq!(bi.name, String::from("abc"));
    assert_eq!(bi.size, 123);
}

#[test]
fn bininfo_new_name_dot() {
    let bi = BinInfo {
        name: String::from("ab.cd"),
        size: 1234,
    };
    assert_eq!(bi.name, String::from("ab.cd"));
    assert_eq!(bi.size, 1234);
}

#[test]
fn bininfo_new_cargo_cache() {
    let bi = BinInfo {
        name: String::from("cargo-cache"),
        size: 1337,
    };
    assert_eq!(bi.name, String::from("cargo-cache"));
    assert_eq!(bi.size, 1337);
}

#[test]
fn bininfo_new_cargo_cache_exe() {
    let bi = BinInfo {
        name: String::from("cargo-cache.exe"),
        size: 1337,
    };
    assert_eq!(bi.name, String::from("cargo-cache.exe"));
    assert_eq!(bi.size, 1337);
}

#[test]
fn bininfo_size_str_small_size() {
    let bi = BinInfo {
        name: String::from("abc"),
        size: 123,
    };
    let size = bi.size_string();
    assert_eq!(size, "123 B");
}

#[test]
fn bininfo_size_str_large_size() {
    let bi = BinInfo {
        name: String::from("abc"),
        size: 1_234_567_890,
    };
    let size = bi.size_string();
    assert_eq!(size, "1.23 GB");
}

#[test]
fn bininfo_sort() {
    let bi_a = BinInfo {
        name: String::from("a"),
        size: 5,
    };
    let bi_b = BinInfo {
        name: String::from("b"),
        size: 3,
    };
    let bi_c = BinInfo {
        name: String::from("c"),
        size: 10,
    };
    let mut v = vec![bi_a, bi_b, bi_c];
    v.sort_by_key(|b| b.size);
    let mut order_string = String::new();
    for bi in v {
        order_string.push_str(&format!("{:?}", bi));
    }
    let mut wanted = String::new();
    for i in &[
        r#"BinInfo { name: "b", size: 3 }"#,
        r#"BinInfo { name: "a", size: 5 }"#,
        r#"BinInfo { name: "c", size: 10 }"#,
    ] {
        wanted.push_str(i);
    }
    assert_eq!(order_string, wanted);
}

#[test]
fn bininfo_sort_stable() {
    let bi_a = BinInfo {
        name: String::from("a"),
        size: 5,
    };
    let bi_b = BinInfo {
        name: String::from("b"),
        size: 5,
    };
    let bi_c = BinInfo {
        name: String::from("c"),
        size: 5,
    };
    let mut v = vec![bi_a, bi_b, bi_c];
    v.sort_by_key(|b| b.size);
    let mut order_string = String::new();
    for bi in v {
        order_string.push_str(&format!("{:?}", bi));
    }
    let mut wanted = String::new();
    for i in &[
        r#"BinInfo { name: "a", size: 5 }"#,
        r#"BinInfo { name: "b", size: 5 }"#,
        r#"BinInfo { name: "c", size: 5 }"#,
    ] {
        wanted.push_str(i);
    }
    assert_eq!(order_string, wanted);
}

#[test]
fn equal_sizes_list_later_first() {
    let list = vec![
        BinInfo { name: "a".to_string(), size: 5 },
        BinInfo { name: "b".to_string(), size: 5 },
        BinInfo { name: "c".to_string(), size: 7 },
    ];
    let stats = bininfo_list_to_string(2, list);
    assert_eq!(stats, "Name Size\nc    7 B\nb    5 B\n");
}

#[test]
fn binary_stats_heading() {
    let list = vec![BinInfo { name: "x".to_string(), size: 1500 }];
    assert_eq!(binary_stats("/b", false, 1500, 3, Vec::new()), "");
    let s = binary_stats("/b", true, 1500, 3, list);
    assert_eq!(s, "\nSummary of: /b (1.50 KB total)\nName Size\nx    1.50 KB\n");
}
