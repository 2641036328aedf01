use cargo_cache::top_items::common::FileDesc;
use cargo_cache::top_items::registry_cache::{regcache_list_to_string, stats_from_file_desc_list, RgchInfo};

#[test]
fn registry_cache_stats_from_file_desc_none() {
    // empty list
    let list: Vec<FileDesc> = Vec::new();
    let stats = { let n = list.len(); stats_from_file_desc_list(list, &vec![false; n]) };
    let is = regcache_list_to_string(4, stats);
    let empty = String::new();
    assert_eq!(is, empty);
}

#[test]
fn registry_cache_stats_from_file_desc_one() {
    let fd = FileDesc {
        path: String::from("crateA"),
        name: "crateA".to_string(),
        size: 1,
    };
    let list_fd: Vec<FileDesc> = vec![fd];
    let list_cb: Vec<RgchInfo> = { let n = list_fd.len(); stats_from_file_desc_list(list_fd, &vec![false; n]) };
    let is: String = regcache_list_to_string(1, list_cb);
    let wanted = String::from("crateA    src ckt: 1   src avg:       1 B   total: 1 B\n");
    assert_eq!(is, wanted);
}

#[test]
fn registry_cache_stats_from_file_desc_two() {
    let fd1 = FileDesc {
        path: String::from("crate-A"),
        name: "crate-A".to_string(),
        size: 1,
    };
    let fd2 = FileDesc {
        path: String::from("crate-B"),
        name: "crate-B".to_string(),
        size: 2,
    };
    let list_fd: Vec<FileDesc> = vec![fd1, fd2];
    let list_cb: Vec<RgchInfo> = { let n = list_fd.len(); stats_from_file_desc_list(list_fd, &vec![false; n]) };
    let is: String = regcache_list_to_string(3, list_cb);

    let mut wanted = String::new();
    for i in &[
        "crate-B    src ckt: 1   src avg:       2 B   total: 2 B\n",
        "crate-A    src ckt: 1   src avg:       1 B   total: 1 B\n",
    ] {
        wanted.push_str(i);
    }
    assert_eq!(is, wanted);
}

#[test]
fn registry_cache_stats_from_file_desc_multiple() {
    let fd1 = FileDesc {
        path: String::from("crate-A"),
        name: "crate-A".to_string(),
        size: 1,
    };
    let fd2 = FileDesc {
        path: String::from("crate-B"),
        name: "crate-B".to_string(),
        size: 2,
    };
    let fd3 = FileDesc {
        path: String::from("crate-C"),
        name: "crate-C".to_string(),
        size: 10,
    };
    let fd4 = FileDesc {
        path: String::from("crate-D"),
        name: "crate-D".to_string(),
        size: 6,
    };
    let fd5 = FileDesc {
        path: String::from("crate-E"),
        name: "crate-E".to_string(),
        size: 4,
    };
    let list_fd: Vec<FileDesc> = vec![fd1, fd2, fd3, fd4, fd5];
    let list_cb: Vec<RgchInfo> = { let n = list_fd.len(); stats_from_file_desc_list(list_fd, &vec![false; n]) };

    let is: String = regcache_list_to_string(6, list_cb);

    let mut wanted = String::new();
    for i in &[
        "crate-C    src ckt: 1   src avg:      10 B   total: 10 B\n",
        "crate-D    src ckt: 1   src avg:       6 B   total: 6 B\n",
        "crate-E    src ckt: 1   src avg:       4 B   total: 4 B\n",
        "crate-B    src ckt: 1   src avg:       2 B   total: 2 B\n",
        "crate-A    src ckt: 1   src avg:       1 B   total: 1 B\n",
    ] {
        wanted.push_str(i);
    }
    assert_eq!(is, wanted);
}

#[test]
fn registry_cache_stats_from_file_desc_same_name_2_one() {
    let fd1 = FileDesc {
        path: String::from("crate-A"),
        name: "crate-A".to_string(),
        size: 3,
    };
    let fd2 = FileDesc {
        path: String::from("crate-A"),
        name: "crate-A".to_string(),
        size: 3,
    };

    let list_fd: Vec<FileDesc> = vec![fd1, fd2];
    let list_cb: Vec<RgchInfo> = { let n = list_fd.len(); stats_from_file_desc_list(list_fd, &vec![false; n]) };
    let is: String = regcache_list_to_string(2, list_cb);
    let wanted = String::from("crate-A    src ckt: 2   src avg:       3 B   total: 6 B\n");
    assert_eq!(is, wanted);
}

#[test]
fn registry_cache_stats_from_file_desc_same_name_3_one() {
    let fd1 = FileDesc {
        path: String::from("crate-A"),
        name: "crate-A".to_string(),
        size: 3,
    };
    let fd2 = FileDesc {
        path: String::from("crate-A"),
        name: "crate-A".to_string(),
        size: 3,
    };
    let fd3 = FileDesc {
        path: String::from("crate-A"),
        name: "crate-A".to_string(),
        size: 3,
    };

    let list_fd: Vec<FileDesc> = vec![fd1, fd2, fd3];

    let list_cb: Vec<RgchInfo> = { let n = list_fd.len(); stats_from_file_desc_list(list_fd, &vec![false; n]) };
    let is: String = regcache_list_to_string(3, list_cb);
    let wanted = String::from("crate-A    src ckt: 3   src avg:       3 B   total: 9 B\n");
    assert_eq!(is, wanted);
}

#[test]
fn registry_cache_stats_from_file_desc_same_name_3_one_2() {
    let fd1 = FileDesc {
        path: String::from("crate-A"),
        name: "crate-A".to_string(),
        size: 2,
    };
    let fd2 = FileDesc {
        path: String::from("crate-A"),
        name: "crate-A".to_string(),
        size: 4,
    };
    let fd3 = FileDesc {
        path: String::from("crate-A"),
        name: "crate-A".to_string(),
        size: 12,
    };

    let list_fd: Vec<FileDesc> = vec![fd1, fd2, fd3];
    let list_cb: Vec<RgchInfo> = { let n = list_fd.len(); stats_from_file_desc_list(list_fd, &vec![false; n]) };
    let is: String = regcache_list_to_string(3, list_cb);
    let wanted = String::from("crate-A    src ckt: 3   src avg:       6 B   total: 18 B\n");
    assert_eq!(is, wanted);
}

#[test]
fn registry_cache_stats_from_file_desc_multi() {
    let fd1 = FileDesc {
        path: String::from("crate-A"),
        name: "crate-A".to_string(),
        size: 2,
    };
    let fd2 = FileDesc {
        path: String::from("crate-A"),
        name: "crate-A".to_string(),
        size: 4,
    };
    let fd3 = FileDesc {
        path: String::from("crate-A"),
        name: "crate-A".to_string(),
        size: 12,
    };

    let fd4 = FileDesc {
        path: String::from("crate-B"),
        name: "crate-B".to_string(),
        size: 2,
    };
    let fd5 = FileDesc {
        path: String::from("crate-B"),
        name: "crate-B".to_string(),
        size: 8,
    };

    let fd6 = FileDesc {
        path: String::from("crate-C"),
        name: "crate-C".to_string(),
        size: 0,
    };
    let fd7 = FileDesc {
        path: String::from("crate-C"),
        name: "crate-C".to_string(),
        size: 100,
    };

    let fd8 = FileDesc {
        path: String::from("crate-D"),
        name: "crate-D".to_string(),
        size: 1,
    };

    let list_fd: Vec<FileDesc> = vec![fd1, fd2, fd3, fd4, fd5, fd6, fd7, fd8];
    let list_cb: Vec<RgchInfo> = { let n = list_fd.len(); stats_from_file_desc_list(list_fd, &vec![false; n]) };
    let is: String = regcache_list_to_string(5, list_cb);

    let mut wanted = String::new();

    for i in &[
        "crate-C    src ckt: 2   src avg:      50 B   total: 100 B\n",
        "crate-A    src ckt: 3   src avg:       6 B   total: 18 B\n",
        "crate-B    src ckt: 2   src avg:       5 B   total: 10 B\n",
        "crate-D    src ckt: 1   src avg:       1 B   total: 1 B\n",
    ] {
        wanted.push_str(i);
    }
    assert_eq!(is, wanted);
}
