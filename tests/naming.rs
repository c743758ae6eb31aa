use hemtt::addon::{discouraged_characters, validate_name};
use hemtt::path::join_path;
use hemtt::{Addon, AddonLocation, HEMTTError};

#[test]
fn standard_name_round_trips() {
    for name in ["my_addon", "main", "addon2", "a_b_c_9", ""] {
        let addon = Addon::new(name.to_string(), AddonLocation::Optionals).unwrap();
        assert_eq!(addon.name, name);
        assert_eq!(addon.location, AddonLocation::Optionals);
        assert!(discouraged_characters(name).is_empty());
    }
}

#[test]
fn discouraged_name_accepted_with_one_warning_per_character() {
    let addon = Addon::new("My-Addon".to_string(), AddonLocation::Addons).unwrap();
    assert_eq!(addon.name, "My-Addon");
    assert_eq!(discouraged_characters("My-Addon"), vec!['M', '-', 'A']);
    assert_eq!(discouraged_characters("my_addoN"), vec!['N']);
}

#[test]
fn other_characters_refused() {
    for name in ["my addon", "my.addon", "my/addon", "über", "a@b"] {
        assert_eq!(
            Addon::new(name.to_string(), AddonLocation::Addons),
            Err(HEMTTError::AddonInvalidName(name.to_string()))
        );
    }
    assert_eq!(validate_name("ok_name".to_string()), Ok("ok_name".to_string()));
}

#[test]
fn core_destination_without_prefix() {
    let addon = Addon::new("my_addon".to_string(), AddonLocation::Addons).unwrap();
    assert_eq!(addon.destination("root", None, None), "root/addons/my_addon.pbo");
}

#[test]
fn optional_destination_with_prefix_and_standalone() {
    let addon = Addon::new("my_addon".to_string(), AddonLocation::Optionals).unwrap();
    assert_eq!(
        addon.destination("root", Some("ace"), Some("ACE3")),
        "root/optionals/@ACE3_my_addon/addons/ace_my_addon.pbo"
    );
}

#[test]
fn distinct_configurations_have_distinct_destinations() {
    let a = Addon::new("my_addon".to_string(), AddonLocation::Addons).unwrap();
    let b = Addon::new("my_addon".to_string(), AddonLocation::Optionals).unwrap();
    let c = Addon::new("other".to_string(), AddonLocation::Custom("extras".to_string())).unwrap();
    let all = vec![
        a.destination("root", None, None),
        a.destination("root", None, Some("mod")),
        b.destination("root", None, None),
        b.destination("root", Some("ace"), Some("mod")),
        b.destination("root", None, Some("mod")),
        c.destination("root", None, None),
        c.destination("root", Some("ace"), None),
    ];
    for i in 0..all.len() {
        for j in 0..all.len() {
            if i != j {
                assert_ne!(all[i], all[j]);
            }
        }
    }
}

#[test]
fn custom_location_paths() {
    let addon = Addon::new("extra".to_string(), AddonLocation::Custom("tools".to_string())).unwrap();
    assert_eq!(addon.source(), "tools/extra");
    assert_eq!(addon.destination_parent("root", None), "root/tools");
    assert_eq!(AddonLocation::Custom("tools".to_string()).to_string(), "tools");
}

#[test]
fn standalone_core_addon_is_flagged() {
    let core = Addon::new("main".to_string(), AddonLocation::Addons).unwrap();
    let optional = Addon::new("main".to_string(), AddonLocation::Optionals).unwrap();
    assert!(core.standalone_discouraged(Some("mod")));
    assert!(!core.standalone_discouraged(None));
    assert!(!optional.standalone_discouraged(Some("mod")));
}

#[test]
fn locate_takes_first_location_in_priority_order() {
    let found = Addon::locate("main".to_string(), &vec![false, true, true]).unwrap();
    assert_eq!(found.location, AddonLocation::Optionals);
    assert_eq!(found.name, "main");
    let found = Addon::locate("main".to_string(), &vec![true, true, false]).unwrap();
    assert_eq!(found.location, AddonLocation::Addons);
    assert_eq!(Addon::locate("main".to_string(), &vec![false, false, false]), None);
    assert_eq!(
        AddonLocation::first_class(),
        vec![AddonLocation::Addons, AddonLocation::Optionals, AddonLocation::Compats]
    );
}

#[test]
fn joining_paths() {
    assert_eq!(join_path("", "addons"), "addons");
    assert_eq!(join_path("root/", "addons"), "root/addons");
    assert_eq!(join_path("root", "addons"), "root/addons");
    let addon = Addon::new("my_addon".to_string(), AddonLocation::Addons).unwrap();
    assert_eq!(addon.destination("", None, None), "addons/my_addon.pbo");
}

#[test]
fn addons_sort_by_location_then_name() {
    let mut addons = vec![
        Addon::new("b".to_string(), AddonLocation::Optionals).unwrap(),
        Addon::new("z".to_string(), AddonLocation::Addons).unwrap(),
        Addon::new("a".to_string(), AddonLocation::Optionals).unwrap(),
    ];
    addons.sort();
    let names: Vec<&str> = addons.iter().map(|a| a.name.as_str()).collect();
    assert_eq!(names, vec!["z", "a", "b"]);
}

#[test]
fn construction_reports_its_warnings() {
    let (addon, warnings) = Addon::new_with_warnings("My-Addon".to_string(), AddonLocation::Addons);
    assert_eq!(addon.unwrap().name, "My-Addon");
    assert_eq!(warnings, vec!['M', '-', 'A']);
    let (addon, warnings) = Addon::new_with_warnings("my_addon".to_string(), AddonLocation::Addons);
    assert!(addon.is_ok());
    assert!(warnings.is_empty());
    let (addon, warnings) = Addon::new_with_warnings("Bad name".to_string(), AddonLocation::Addons);
    assert_eq!(addon, Err(HEMTTError::AddonInvalidName("Bad name".to_string())));
    assert_eq!(warnings, vec!['B']);
}

#[test]
fn standalone_policy_flag_comes_with_the_path() {
    let core = Addon::new("main".to_string(), AddonLocation::Addons).unwrap();
    assert_eq!(
        core.destination_parent_with_policy("root", Some("mod")),
        ("root/addons/@mod_main/addons".to_string(), true)
    );
    assert_eq!(core.destination_parent_with_policy("root", None), ("root/addons".to_string(), false));
    let optional = Addon::new("main".to_string(), AddonLocation::Optionals).unwrap();
    assert_eq!(
        optional.destination_parent_with_policy("root", Some("mod")),
        ("root/optionals/@mod_main/addons".to_string(), false)
    );
}

#[test]
fn one_prefix_keeps_underscored_names_apart() {
    let a = Addon::new("a_b".to_string(), AddonLocation::Optionals).unwrap();
    let b = Addon::new("b".to_string(), AddonLocation::Optionals).unwrap();
    assert_ne!(a.destination("root", Some("x"), Some("m_a")), b.destination("root", Some("x"), Some("m")));
    assert_ne!(a.destination("root", Some("p_q"), None), b.destination("root", Some("p_q"), None));
}
