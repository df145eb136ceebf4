use sunset::resolve::{
    absolutize, get_shim_exe, get_shimfile, get_shimmed_exe, has_dir_component, join_path,
    path_with_entry, resolve_bare, shim_list, shim_name_for_target, shimfile_for_exe,
};

#[test]
fn descriptor_and_stand_in_locations() {
    let dir = String::from("/opt/shims");
    let name = String::from("git");
    assert_eq!(get_shimfile(&dir, &name), "/opt/shims/git.shim");
    assert_eq!(get_shimmed_exe(&dir, &name), "/opt/shims/git.exe");
}

#[test]
fn launcher_binary_follows_the_windowed_flag() {
    let dir = String::from("/opt/sunset");
    assert_eq!(get_shim_exe(&dir, &false), "/opt/sunset/shim.exe");
    assert_eq!(get_shim_exe(&dir, &true), "/opt/sunset/shimw.exe");
}

#[test]
fn the_stand_in_locates_its_descriptor_from_its_own_path() {
    assert_eq!(
        shimfile_for_exe(&String::from("/opt/shims/git.exe")),
        "/opt/shims/git.shim"
    );
    assert_eq!(
        shimfile_for_exe(&String::from("/opt/shims/noext")),
        "/opt/shims/noext.shim"
    );
    assert_eq!(
        shimfile_for_exe(&String::from("/opt/sh.ims/.hidden")),
        "/opt/sh.ims/.hidden.shim"
    );
}

#[test]
fn shim_names_derive_from_the_target() {
    assert_eq!(shim_name_for_target(&String::from("/usr/bin/tool.exe")), "tool");
    assert_eq!(shim_name_for_target(&String::from("/data/pack.tar.gz")), "pack");
    assert_eq!(shim_name_for_target(&String::from("bare")), "bare");
}

#[test]
fn dir_components_are_recognized() {
    assert!(has_dir_component(&String::from("./tool")));
    assert!(has_dir_component(&String::from("/usr/bin/tool")));
    assert!(!has_dir_component(&String::from("tool")));
}

#[test]
fn absolutize_resolves_dots_lexically() {
    let cwd = String::from("/home/me/src");
    assert_eq!(absolutize(&cwd, &String::from("tool")), "/home/me/src/tool");
    assert_eq!(absolutize(&cwd, &String::from("./a/../b")), "/home/me/src/b");
    assert_eq!(absolutize(&cwd, &String::from("../../x")), "/home/x");
    assert_eq!(absolutize(&cwd, &String::from("/abs/./p")), "/abs/p");
    assert_eq!(absolutize(&cwd, &String::from("../../../../up")), "/up");
}

#[test]
fn bare_names_resolve_to_the_first_matching_entry() {
    let name = String::from("tool");
    let entries = vec![
        String::from("/first"),
        String::from("/second"),
        String::from("/third"),
    ];
    // The name exists in the second and third entries: search order wins.
    let present = vec![false, true, true];
    assert_eq!(
        resolve_bare(&name, &entries, &present),
        Some(String::from("/second/tool"))
    );
    // Present everywhere: still the first entry, deterministically.
    let everywhere = vec![true, true, true];
    assert_eq!(
        resolve_bare(&name, &entries, &everywhere),
        Some(String::from("/first/tool"))
    );
    // Present nowhere: not found.
    let nowhere = vec![false, false, false];
    assert_eq!(resolve_bare(&name, &entries, &nowhere), None);
}

#[test]
fn join_path_places_a_name_in_a_directory() {
    assert_eq!(
        join_path(&String::from("/a/b"), &String::from("c")),
        "/a/b/c"
    );
}

#[test]
fn a_search_path_gains_an_entry_only_once() {
    let current = String::from("/usr/bin;/usr/local/bin");
    let entry = String::from("/opt/shims");
    let (present, updated) = path_with_entry(&current, &entry, ';');
    assert!(!present);
    assert_eq!(updated, "/usr/bin;/usr/local/bin;/opt/shims");
    let (present2, updated2) = path_with_entry(&updated, &entry, ';');
    assert!(present2);
    assert_eq!(updated2, updated);
}

#[test]
fn shim_list_keeps_descriptor_stems_in_directory_order() {
    let files = vec![
        String::from("git.shim"),
        String::from("git.exe"),
        String::from("tool.v2.shim"),
        String::from("README"),
        String::from("cargo.shim"),
    ];
    let names = shim_list(&files);
    assert_eq!(
        names,
        vec![
            String::from("git"),
            String::from("tool.v2"),
            String::from("cargo"),
        ]
    );
}
