use cargo_cache::top_items_summary::get_top_crates;

#[test]
fn top_crates_joined_and_trimmed() {
    assert_eq!(get_top_crates("\nbins\n", "src\n", "", "\nbare", " chk \n"), "bins\nsrc\n\nbare chk");
    assert_eq!(get_top_crates("", "", "", "", ""), "");
}
