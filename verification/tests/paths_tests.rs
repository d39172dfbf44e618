use url_dedup::paths::get_first_folder;

#[test]
fn first_folder_of_nested_file() {
    let r = get_first_folder("/home/work", "/home/work/cn/ip_1.bat");
    assert_eq!(r, Some(String::from("cn")));
}

#[test]
fn deeper_nesting_still_first_folder() {
    let r = get_first_folder("/home/work", "/home/work/eu/de/ip_2.bat");
    assert_eq!(r, Some(String::from("eu")));
}

#[test]
fn base_not_a_prefix() {
    let r = get_first_folder("/home/work", "/srv/data/ip_1.bat");
    assert_eq!(r, None);
}

#[test]
fn prefix_must_end_at_component_boundary() {
    let r = get_first_folder("/home/work", "/home/workshop/ip_1.bat");
    assert_eq!(r, None);
}

#[test]
fn file_equal_to_base_has_no_folder() {
    let r = get_first_folder("/home/work", "/home/work");
    assert_eq!(r, None);
}

#[test]
fn base_with_trailing_slash() {
    let r = get_first_folder("/home/work/", "/home/work/cn/ip_1.bat");
    assert_eq!(r, Some(String::from("cn")));
}

#[test]
fn empty_base_gives_leading_component() {
    let r = get_first_folder("", "work/cn/ip_1.bat");
    assert_eq!(r, Some(String::from("work")));
}

#[test]
fn only_separators_after_base() {
    let r = get_first_folder("/home/work", "/home/work///");
    assert_eq!(r, None);
}
