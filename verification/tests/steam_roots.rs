use texture_manager::steam::{add_library_roots, candidate_steam_roots, steam_vdf_paths, SteamRootInputs};

fn strings(list: &[&str]) -> Vec<String> {
    list.iter().map(|s| s.to_string()).collect()
}

#[test]
fn unix_steam_roots_come_from_the_home_folder() {
    let inputs = SteamRootInputs {
        windows: false,
        program_files: strings(&["C:/ignored"]),
        fixed_drives: vec!['D'],
        home: Some("/home/u".to_string()),
        registry_installs: strings(&["/opt/steam", "/home/u/.steam/steam"]),
    };
    assert_eq!(
        candidate_steam_roots(&inputs),
        strings(&[
            "/home/u/Library/Application Support/Steam",
            "/home/u/.steam/steam",
            "/home/u/.steam/root",
            "/home/u/.local/share/Steam",
            "/home/u/.var/app/com.valvesoftware.Steam/data/Steam",
            "/opt/steam",
        ])
    );
}

#[test]
fn windows_steam_roots_cover_program_files_and_fixed_drives_once() {
    let inputs = SteamRootInputs {
        windows: true,
        program_files: strings(&["C:/Program Files (x86)", "   ", "C:/Program Files (x86)"]),
        fixed_drives: vec!['E'],
        home: None,
        registry_installs: strings(&["", "C:/Program Files/Steam"]),
    };
    assert_eq!(
        candidate_steam_roots(&inputs),
        strings(&[
            "C:/Program Files (x86)/Steam",
            "C:/Program Files/Steam",
            "E:/Steam",
            "E:/SteamLibrary",
            "E:/Program Files (x86)/Steam",
            "E:/Program Files/Steam",
        ])
    );
}

#[test]
fn vdf_files_are_read_under_each_root_then_home() {
    let roots = strings(&["/s1", "/s2/"]);
    assert_eq!(
        steam_vdf_paths(&roots, &Some("/h".to_string())),
        strings(&[
            "/s1/steamapps/libraryfolders.vdf",
            "/s1/config/libraryfolders.vdf",
            "/s2/steamapps/libraryfolders.vdf",
            "/s2/config/libraryfolders.vdf",
            "/h/AppData/Local/Steam/steamapps/libraryfolders.vdf",
            "/h/.steam/steam/steamapps/libraryfolders.vdf",
            "/h/.local/share/Steam/steamapps/libraryfolders.vdf",
            "/h/Library/Application Support/Steam/steamapps/libraryfolders.vdf",
        ])
    );
    assert_eq!(steam_vdf_paths(&Vec::new(), &None), Vec::<String>::new());
}

#[test]
fn library_roots_are_added_once() {
    let mut roots = strings(&["/a"]);
    add_library_roots(&mut roots, &strings(&["/b", "/a", "", "/b", "/c"]));
    assert_eq!(roots, strings(&["/a", "/b", "/c"]));
}
