use cargo_cache::dirsizes::{DirInfo, DirSizes};

#[allow(non_snake_case)]
#[test]
fn test_DirInfo() {
    let x = DirInfo {
        dir_size: 10,
        file_number: 20,
    };
    assert_eq!(x.dir_size, 10);
    assert_eq!(x.file_number, 20);
}

#[allow(non_snake_case)]
#[test]
fn test_DirSizes() {
    let bindir = DirInfo { dir_size: 121_212, file_number: 31 };
    let git_repos_bare = DirInfo { dir_size: 121_212, file_number: 37 };
    let git_checkouts = DirInfo { dir_size: 34984, file_number: 8 };
    let reg_cache = DirInfo { dir_size: 89, file_number: 23445 };
    let reg_src = DirInfo { dir_size: 1_938_493_989, file_number: 123_909_849 };
    let reg_index = DirInfo { dir_size: 23, file_number: 12345 };
    let pb = "/home/user/.cargo";
    let dirSizes = DirSizes::new_manually(
        &bindir,
        &git_repos_bare,
        &git_checkouts,
        &reg_cache,
        &reg_src,
        &reg_index,
        pb,
    );
    let output_is = dirSizes.to_string();
    let output_should = "Cargo cache '/home/user/.cargo':

Total:                                    1.94 GB
  31 installed binaries:                121.21 KB
  Registry:                               1.94 GB
    Registry index:                         23  B
    23445 crate archives:                   89  B
    123909849 crate source checkouts:     1.94 GB
  Git db:                               156.20 KB
    37 bare git repos:                  121.21 KB
    8 git repo checkouts:                34.98 KB\n";
    assert_eq!(output_is, output_should);
}

#[allow(non_snake_case)]
#[test]
fn test_DirSizes_gigs() {
    let bindir = DirInfo { dir_size: 6_4015_8118, file_number: 69 };
    let git_repos_bare = DirInfo { dir_size: 3_0961_3689, file_number: 123 };
    let git_checkouts = DirInfo { dir_size: 39_2270_2821, file_number: 36 };
    let reg_cache = DirInfo { dir_size: 5_5085_5781, file_number: 3654 };
    let reg_src = DirInfo { dir_size: 9_0559_6846, file_number: 1615 };
    let reg_index = DirInfo { dir_size: 23, file_number: 0 };
    let pb = "/home/user/.cargo";
    let dirSizes = DirSizes::new_manually(
        &bindir,
        &git_repos_bare,
        &git_checkouts,
        &reg_cache,
        &reg_src,
        &reg_index,
        pb,
    );
    let output_is = dirSizes.to_string();
    let output_should = "Cargo cache '/home/user/.cargo':

Total:                               6.33 GB
  69 installed binaries:           640.16 MB
  Registry:                          1.46 GB
    Registry index:                    23  B
    3654 crate archives:           550.86 MB
    1615 crate source checkouts:   905.60 MB
  Git db:                            4.23 GB
    123 bare git repos:            309.61 MB
    36 git repo checkouts:           3.92 GB\n";
    assert_eq!(output_is, output_should);
}

#[allow(non_snake_case)]
#[test]
fn test_DirSizes_almost_empty() {
    let bindir = DirInfo { dir_size: 0, file_number: 0 };
    let git_repos_bare = DirInfo { dir_size: 0, file_number: 0 };
    let git_checkouts = DirInfo { dir_size: 0, file_number: 0 };
    let reg_cache = DirInfo { dir_size: 130_4234_1234, file_number: 4 };
    let reg_src = DirInfo { dir_size: 2_6846_1234, file_number: 4 };
    let reg_index = DirInfo { dir_size: 12_5500_0000, file_number: 1 };
    let pb = "/home/user/.cargo";
    let dirSizes = DirSizes::new_manually(
        &bindir,
        &git_repos_bare,
        &git_checkouts,
        &reg_cache,
        &reg_src,
        &reg_index,
        pb,
    );
    let output_is = dirSizes.to_string();
    let output_should = "Cargo cache '/home/user/.cargo':

Total:                           14.57 GB
  0 installed binaries:              0  B
  Registry:                      14.57 GB
    Registry index:               1.25 GB
    4 crate archives:            13.04 GB
    4 crate source checkouts:   268.46 MB
  Git db:                            0  B
    0 bare git repos:                0  B
    0 git repo checkouts:            0  B\n";
    assert_eq!(output_is, output_should);
}

#[allow(non_snake_case)]
#[test]
fn test_DirSizes_actually_empty() {
    let bindir = DirInfo { dir_size: 0, file_number: 0 };
    let git_repos_bare = DirInfo { dir_size: 0, file_number: 0 };
    let git_checkouts = DirInfo { dir_size: 0, file_number: 0 };
    let reg_cache = DirInfo { dir_size: 0, file_number: 0 };
    let reg_src = DirInfo { dir_size: 0, file_number: 0 };
    let reg_index = DirInfo { dir_size: 0, file_number: 0 };
    let pb = "/home/user/.cargo";
    let dirSizes = DirSizes::new_manually(
        &bindir,
        &git_repos_bare,
        &git_checkouts,
        &reg_cache,
        &reg_src,
        &reg_index,
        pb,
    );
    let output_is = dirSizes.to_string();
    let output_should = "Cargo cache '/home/user/.cargo':

Total:                          0  B
  0 installed binaries:         0  B
  Registry:                     0  B
    Registry index:             0  B
    0 crate archives:           0  B
    0 crate source checkouts:   0  B
  Git db:                       0  B
    0 bare git repos:           0  B
    0 git repo checkouts:       0  B\n";
    assert_eq!(output_is, output_should);
}

#[test]
fn dir_sizes_totals_are_sums() {
    let a = DirInfo { dir_size: 1, file_number: 1 };
    let b = DirInfo { dir_size: 20, file_number: 2 };
    let c = DirInfo { dir_size: 300, file_number: 3 };
    let d = DirInfo { dir_size: 4000, file_number: 4 };
    let e = DirInfo { dir_size: 50000, file_number: 5 };
    let f = DirInfo { dir_size: 600000, file_number: 6 };
    let s = DirSizes::new(&a, &b, &c, &d, &e, &f, 3, "/x");
    assert_eq!(s.total_size(), 654321);
    assert_eq!(s.total_reg_size(), 654000);
    assert_eq!(s.total_git_db_size(), 320);
    assert_eq!(s.total_bin_size(), 1);
    assert_eq!(s.numb_bins(), 1);
    assert_eq!(s.numb_git_repos_bare_repos(), 2);
    assert_eq!(s.numb_git_checkouts(), 3);
    assert_eq!(s.numb_reg_cache_entries(), 4);
    assert_eq!(s.numb_reg_src_checkouts(), 5);
    assert_eq!(s.total_reg_index_num(), 3);
    assert_eq!(s.total_reg_index_size(), 600000);
    assert_eq!(s.total_reg_cache_size(), 4000);
    assert_eq!(s.total_reg_src_size(), 50000);
    assert_eq!(s.total_git_repos_bare_size(), 20);
    assert_eq!(s.total_git_chk_size(), 300);
    assert_eq!(s.root_path(), "/x");
    assert!(s.to_string().contains("    3 registry indices:"));
}

use cargo_cache::dirsizes::{per_registry_summary, size_diff_format, size_difference_summary, RegistryPart};

fn part(folder: &str, name: &str, size: u64, count: u64) -> RegistryPart {
    RegistryPart { folder: folder.to_string(), name: name.to_string(), total_size: size, count }
}

#[test]
fn per_registry_summary_groups_by_folder() {
    let z = DirInfo { dir_size: 0, file_number: 0 };
    let idx = DirInfo { dir_size: 300, file_number: 0 };
    let d = DirSizes::new(&z, &z, &z, &z, &z, &idx, 2, "/c");
    let index = vec![part("b-2", "b", 100, 0), part("a-1", "a", 200, 0)];
    let sources = vec![part("a-1", "a", 5, 1)];
    let archives = vec![part("c-3", "c", 7, 2)];
    let s = per_registry_summary(&d, &index, &sources, &archives);
    let expected = "Cargo cache '/c':\n\nTotal:                          300  B\n  0 installed binaries:           0  B\n  Registry: a                   205  B\n    Registry index:             200  B\n    1 crate source checkouts:     5  B\n  Registry: b                   100  B\n    Registry index:             100  B\n  Registry: c                     7  B\n    2 crate archives:             7  B\n  Git db:                         0  B\n    0 bare git repos:             0  B\n    0 git repo checkouts:         0  B\n";
    assert_eq!(s, expected);
}

#[test]
fn size_diff_format_texts() {
    assert_eq!(size_diff_format(1000, 1000, true, "0"), "1 KB => 1 KB");
    assert_eq!(size_diff_format(1000, 1000, false, "0"), "1 KB");
    assert_eq!(size_diff_format(2000, 1000, true, "-50"), "2 KB => 1 KB (-1 KB, -50%)");
    assert_eq!(size_diff_format(1000, 3000, false, "200"), "3 KB (+2 KB, 200%)");
}

#[test]
fn size_difference_summary_reports_change() {
    let z = DirInfo { dir_size: 0, file_number: 0 };
    let bin = DirInfo { dir_size: 10, file_number: 1 };
    let src_old = DirInfo { dir_size: 2000, file_number: 4 };
    let src_new = DirInfo { dir_size: 0, file_number: 0 };
    let old = DirSizes::new(&bin, &z, &z, &z, &src_old, &z, 1, "/c");
    let new = DirSizes::new(&bin, &z, &z, &z, &src_new, &z, 1, "/c");
    let s = size_difference_summary(&old, &new, "-99.5");
    assert!(s.starts_with("Cargo cache '/c':\n\nTotal: "));
    assert!(s.contains("2.01 KB => 10  B"));
    assert!(s.contains("4 => 0 crate source checkouts: "));
    assert!(s.contains("0 bare git repos:"));
    assert!(s.ends_with("\nSize changed 2.01 KB => 10 B (-2 KB, -99.5%)"));
    let same = size_difference_summary(&new, &new, "0");
    assert!(!same.contains("Size changed"));
}
