use rstdms::object_path::{
    path_from_channel, path_from_group, ObjectPath, ObjectPathCache, ObjectPathId,
};
use rstdms::TdmsReadError;

#[test]
fn create_and_retrieve() {
    let mut object_path_cache = ObjectPathCache::new();
    let object_id = object_path_cache.get_or_create_id("/".to_string()).unwrap();

    let found_id = object_path_cache.get_id("/");

    assert_eq!(found_id, Some(object_id));
}

#[test]
fn different_ids() {
    let mut object_path_cache = ObjectPathCache::new();

    let object_id_0 = object_path_cache.get_or_create_id("/".to_string()).unwrap();
    let object_id_1 = object_path_cache
        .get_or_create_id("/'group'".to_string())
        .unwrap();

    assert_ne!(object_id_0, object_id_1);
}

#[test]
fn not_found() {
    let object_path_cache = ObjectPathCache::new();

    let missing = object_path_cache.get_id("/");

    assert_eq!(missing, None);
}

#[test]
fn parse_root_path() {
    let path_string = "/";

    let path = ObjectPath::parse(path_string);

    assert_eq!(path.unwrap(), ObjectPath::Root);
}

#[test]
fn parse_group_path() {
    let path_string = "/'GroupName'";

    let path = ObjectPath::parse(path_string);

    assert_eq!(path.unwrap(), ObjectPath::Group("GroupName".to_string()));
}

#[test]
fn parse_channel_path() {
    let path_string = "/'GroupName'/'ChannelName'";

    let path = ObjectPath::parse(path_string);

    assert_eq!(
        path.unwrap(),
        ObjectPath::Channel("GroupName".to_string(), "ChannelName".to_string())
    );
}

#[test]
fn parse_channel_path_test_cases() {
    let test_cases = vec![
        (
            "/'Group''Name'/'Channel''Name'",
            "Group'Name",
            "Channel'Name",
        ),
        (
            "/'''GroupName'''/'''ChannelName'''",
            "'GroupName'",
            "'ChannelName'",
        ),
        ("/''''''/''''''", "''", "''"),
        ("/''''''/''''''", "''", "''"),
        ("/'Group/Name'/'Channel/Name'", "Group/Name", "Channel/Name"),
    ];

    for (path_string, expected_group, expected_channel) in test_cases {
        let path = ObjectPath::parse(path_string);
        match path {
            Ok(ObjectPath::Channel(ref group_name, ref channel_name)) => {
                assert_eq!(group_name, expected_group);
                assert_eq!(channel_name, expected_channel);
            }
            _ => panic!("Expected a valid channel for path {}", path_string),
        }
    }
}

#[test]
fn paths_are_quoted_and_escaped() {
    assert_eq!(path_from_group("Group"), "/'Group'");
    assert_eq!(path_from_group(""), "/''");
    assert_eq!(path_from_group("it's"), "/'it''s'");
    assert_eq!(path_from_group("''"), "/''''''");
    assert_eq!(path_from_channel("Group", "Channel1"), "/'Group'/'Channel1'");
    assert_eq!(path_from_channel("a'b", "c/d"), "/'a''b'/'c/d'");
    assert_eq!(path_from_group("Gr\u{fc}\u{df}e"), "/'Gr\u{fc}\u{df}e'");
}

#[test]
fn parsing_a_canonical_path_gives_the_path_back() {
    let names = vec!["", "Group", "it's", "'", "''", "a/b", "/'x'", "\u{e9}t\u{e9}"];
    for group in names.iter() {
        assert_eq!(
            ObjectPath::parse(&path_from_group(group)).unwrap(),
            ObjectPath::Group(group.to_string())
        );
        for channel in names.iter() {
            assert_eq!(
                ObjectPath::parse(&path_from_channel(group, channel)).unwrap(),
                ObjectPath::Channel(group.to_string(), channel.to_string())
            );
        }
    }
}

#[test]
fn the_canonical_form_of_a_parsed_text_is_the_text() {
    let texts = vec![
        "/'Group'",
        "/'Group'/'Channel'",
        "/''",
        "/'a''b'/'c''''d'",
        "/'Group/Name'/'Channel/Name'",
    ];
    for text in texts {
        let canonical = match ObjectPath::parse(text).unwrap() {
            ObjectPath::Root => "/".to_string(),
            ObjectPath::Group(group) => path_from_group(&group),
            ObjectPath::Channel(group, channel) => path_from_channel(&group, &channel),
        };
        assert_eq!(canonical, text);
    }
}

#[test]
fn the_empty_text_and_a_last_slash_are_accepted() {
    assert_eq!(ObjectPath::parse("").unwrap(), ObjectPath::Root);
    assert_eq!(
        ObjectPath::parse("/'Group'/").unwrap(),
        ObjectPath::Group("Group".to_string())
    );
    assert_eq!(
        ObjectPath::parse("/'Group'/'Channel'/").unwrap(),
        ObjectPath::Channel("Group".to_string(), "Channel".to_string())
    );
}

#[test]
fn more_than_two_components_are_rejected() {
    let error = ObjectPath::parse("/'a'/'b'/'c'").unwrap_err();
    match error {
        TdmsReadError::TdmsError(_) => {}
        _ => panic!("Unexpected error variant"),
    }
    assert!(ObjectPath::parse("/'a'/'b'/'c'/'d'").is_err());
    assert!(ObjectPath::parse("/'a'/'b'/'c'/").is_err());
}

#[test]
fn malformed_paths_are_rejected() {
    let texts = vec![
        "Group",
        "'Group'",
        "/Group",
        "/'Group",
        "/'Group''",
        "/'Group'x",
        "/'Group''/'Channel'",
        "//",
        "/'Group'//",
        "/'a'/'b",
    ];
    for text in texts {
        match ObjectPath::parse(text) {
            Err(TdmsReadError::TdmsError(_)) => {}
            _ => panic!("Expected a format error for path {}", text),
        }
    }
}

#[test]
fn ids_are_dense_and_in_order() {
    let mut cache = ObjectPathCache::new();
    assert_eq!(cache.len(), 0);
    assert_eq!(cache.get_or_create_id("/".to_string()).unwrap(), ObjectPathId(0));
    assert_eq!(
        cache.get_or_create_id("/'g'".to_string()).unwrap(),
        ObjectPathId(1)
    );
    assert_eq!(
        cache.get_or_create_id("/'g'/'c'".to_string()).unwrap(),
        ObjectPathId(2)
    );
    assert_eq!(cache.get_or_create_id("/".to_string()).unwrap(), ObjectPathId(0));
    assert_eq!(
        cache.get_or_create_id("/'g'".to_string()).unwrap(),
        ObjectPathId(1)
    );
    assert_eq!(cache.len(), 3);
    assert_eq!(ObjectPathId(2).as_usize(), 2);
}

#[test]
fn a_new_channel_brings_its_group() {
    let mut cache = ObjectPathCache::new();
    let channel = cache
        .get_or_create_id("/'it''s'/'Channel'".to_string())
        .unwrap();

    assert_eq!(channel, ObjectPathId(0));
    assert_eq!(cache.len(), 2);
    assert_eq!(cache.get_id("/'it''s'"), Some(ObjectPathId(1)));
    assert_eq!(
        cache.get_path(ObjectPathId(1)),
        Some(&ObjectPath::Group("it's".to_string()))
    );
    assert_eq!(
        cache.get_path(ObjectPathId(0)),
        Some(&ObjectPath::Channel("it's".to_string(), "Channel".to_string()))
    );
    assert_eq!(cache.get_path(ObjectPathId(2)), None);

    let other = cache
        .get_or_create_id("/'it''s'/'Other'".to_string())
        .unwrap();
    assert_eq!(other, ObjectPathId(2));
    assert_eq!(cache.len(), 3);
}

#[test]
fn a_text_that_is_no_path_is_not_interned() {
    let mut cache = ObjectPathCache::new();
    cache.get_or_create_id("/'g'".to_string()).unwrap();

    match cache.get_or_create_id("/'g'/'c'/'d'".to_string()) {
        Err(TdmsReadError::TdmsError(_)) => {}
        _ => panic!("Expected a format error"),
    }
    assert!(cache.get_or_create_id("g".to_string()).is_err());

    assert_eq!(cache.len(), 1);
    assert_eq!(cache.get_id("g"), None);
}

#[test]
fn objects_are_listed_by_id() {
    let mut cache = ObjectPathCache::new();
    cache.get_or_create_id("/'g'/'c'".to_string()).unwrap();
    cache.get_or_create_id("/".to_string()).unwrap();

    let objects = cache.objects();

    assert_eq!(objects.len(), 3);
    assert_eq!(objects[0].0, ObjectPathId(0));
    assert_eq!(
        objects[0].1,
        &ObjectPath::Channel("g".to_string(), "c".to_string())
    );
    assert_eq!(objects[1].0, ObjectPathId(1));
    assert_eq!(objects[1].1, &ObjectPath::Group("g".to_string()));
    assert_eq!(objects[2].0, ObjectPathId(2));
    assert_eq!(objects[2].1, &ObjectPath::Root);
}
