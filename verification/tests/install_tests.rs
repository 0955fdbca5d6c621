use nitrohydra::install::{file_uri, install_outcome, schema_list};

#[test]
fn schemas_are_the_known_desktops_in_order() {
    let schemas = schema_list();
    assert_eq!(
        schemas,
        vec![
            "org.cinnamon.desktop.background",
            "org.gnome.desktop.background",
            "org.mate.background",
        ]
    );
}

#[test]
fn uri_prefixes_the_saved_path() {
    assert_eq!(
        file_uri("/home/u/.cache/nitrohydra/_composed.jpg").as_str(),
        "file:///home/u/.cache/nitrohydra/_composed.jpg"
    );
}

#[test]
fn install_succeeds_when_one_schema_accepts_both() {
    assert!(install_outcome(&vec![(false, false), (true, true), (false, false)]).is_ok());
    assert!(install_outcome(&vec![(true, true)]).is_ok());
}

#[test]
fn install_fails_when_no_schema_accepts_both() {
    let err = install_outcome(&vec![]).unwrap_err();
    assert_eq!(err.as_str(), "no supported desktop environment found");
    assert!(install_outcome(&vec![(true, false), (false, false)]).is_err());
}
