use sidecar_bridge::names::build_name_list;

fn names(input: &[&str]) -> Vec<String> {
    let files: Vec<String> = input.iter().map(|s| s.to_string()).collect();
    build_name_list(&files)
}

#[test]
fn shared_first_token_is_not_duplicated() {
    let list = names(&["Anubis.jpg", "Anubis_Alpha.jpg"]);
    assert_eq!(list, vec!["Anubis".to_string(), "Anubis Alpha".to_string()]);
}

#[test]
fn generation_is_idempotent() {
    let input = ["Anubis_Alpha.jpg", "Wixen_Noct.jpg", "Anubis.jpg"];
    assert_eq!(names(&input), names(&input));
}

#[test]
fn empty_directory_yields_empty_list() {
    assert_eq!(names(&[]), Vec::<String>::new());
}

#[test]
fn non_jpg_files_are_ignored() {
    let list = names(&["readme.txt", "Foo.jpg", "notes.md"]);
    assert_eq!(list, vec!["Foo".to_string()]);
}

#[test]
fn duplicate_files_collapse() {
    let list = names(&["Anubis.jpg", "Anubis.jpg"]);
    assert_eq!(list, vec!["Anubis".to_string()]);
}

#[test]
fn first_token_becomes_its_own_entry() {
    let list = names(&["Wixen_Noct.jpg"]);
    assert_eq!(list, vec!["Wixen".to_string(), "Wixen Noct".to_string()]);
}

#[test]
fn output_is_sorted_regardless_of_input_order() {
    let list = names(&["Zoe.jpg", "Bat.jpg", "Mau.jpg"]);
    assert_eq!(
        list,
        vec!["Bat".to_string(), "Mau".to_string(), "Zoe".to_string()]
    );
}

#[test]
fn empty_first_token_is_not_an_entry() {
    let list = names(&["_Alpha.jpg"]);
    assert_eq!(list, vec![" Alpha".to_string()]);
}

#[test]
fn bare_extension_contributes_its_empty_display_name() {
    let list = names(&[".jpg"]);
    assert_eq!(list, vec!["".to_string()]);
}

#[test]
fn multiple_underscores_all_become_spaces() {
    let list = names(&["Jetragon_Big_Blue.jpg"]);
    assert_eq!(
        list,
        vec!["Jetragon".to_string(), "Jetragon Big Blue".to_string()]
    );
}
