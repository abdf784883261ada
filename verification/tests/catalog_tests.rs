use mediarepo::catalog::TagCatalog;
use mediarepo::error::RepoError;
use mediarepo::repo::Repo;
use mediarepo::text::{canonical_pair, chars_of, normalize, parse_namespace_and_tag, same_optional_text};

fn pair(namespace: Option<&str>, name: &str) -> (Option<String>, String) {
    (namespace.map(|n| n.to_string()), name.to_string())
}

#[test]
fn chars_of_lists_the_characters() {
    assert_eq!(chars_of("añb"), vec!['a', 'ñ', 'b']);
    assert!(chars_of("").is_empty());
}

#[test]
fn normalize_trims_and_lowers_ascii() {
    assert_eq!(normalize("  Hello World \t\n"), "hello world");
    assert_eq!(normalize("ALICE"), "alice");
    assert_eq!(normalize("Ärger"), "Ärger");
    assert_eq!(normalize("   "), "");
    assert_eq!(normalize(""), "");
    assert_eq!(normalize("a  b"), "a  b");
    assert_eq!(normalize("\u{b}\u{c}x\r"), "x");
}

#[test]
fn normalize_is_idempotent_on_examples() {
    for raw in ["  Mixed Case  ", "plain", " \tTAB", "Z"] {
        let once = normalize(raw);
        assert_eq!(normalize(&once), once);
    }
}

#[test]
fn parse_splits_on_the_first_colon() {
    assert_eq!(parse_namespace_and_tag("character:alice"), pair(Some("character"), "alice"));
    assert_eq!(parse_namespace_and_tag(" Character : Alice "), pair(Some("character"), "alice"));
    assert_eq!(parse_namespace_and_tag("a:b:c"), pair(Some("a"), "b:c"));
    assert_eq!(parse_namespace_and_tag("alice"), pair(None, "alice"));
    assert_eq!(parse_namespace_and_tag(":alice"), pair(None, "alice"));
    assert_eq!(parse_namespace_and_tag("  :alice"), pair(None, "alice"));
    assert_eq!(parse_namespace_and_tag("ns:"), pair(Some("ns"), ""));
    assert_eq!(parse_namespace_and_tag(""), pair(None, ""));
    assert_eq!(parse_namespace_and_tag(":"), pair(None, ""));
}

#[test]
fn canonical_pair_normalizes_both_parts() {
    assert_eq!(
        canonical_pair(&Some(" Artist ".to_string()), &" BOB".to_string()),
        pair(Some("artist"), "bob")
    );
    assert_eq!(canonical_pair(&Some("  ".to_string()), &"x".to_string()), pair(None, "x"));
    assert_eq!(canonical_pair(&None, &"X y".to_string()), pair(None, "x y"));
}

#[test]
fn same_optional_text_compares_by_content() {
    assert!(same_optional_text(&None, &None));
    assert!(same_optional_text(&Some("a".to_string()), &Some("a".to_string())));
    assert!(!same_optional_text(&Some("a".to_string()), &Some("b".to_string())));
    assert!(!same_optional_text(&Some("a".to_string()), &None));
    assert!(!same_optional_text(&None, &Some("a".to_string())));
}

#[test]
fn find_or_create_twice_returns_the_same_tag() {
    let mut repo = Repo::new();
    let first = repo
        .add_or_find_namespaced_tag("alice".to_string(), "character".to_string())
        .unwrap();
    let second = repo
        .add_or_find_namespaced_tag("alice".to_string(), "character".to_string())
        .unwrap();
    assert_eq!(first.id, second.id);
    assert_eq!(first.id, 1);
    assert_eq!(first.name, "alice");
    assert_eq!(first.namespace.as_ref().unwrap().name, "character");
    assert_eq!(first.namespace.as_ref().unwrap().id, 1);
    assert_eq!(repo.tags().len(), 1);
    let third = repo.add_or_find_tag("Character: Alice").unwrap();
    assert_eq!(third.id, first.id);
    assert_eq!(repo.tags().len(), 1);
}

#[test]
fn find_or_create_shares_an_existing_namespace() {
    let mut catalog = TagCatalog::new();
    let alice = catalog
        .find_or_create(Some("character".to_string()), "alice".to_string())
        .unwrap();
    let bob = catalog
        .find_or_create(Some("character".to_string()), "bob".to_string())
        .unwrap();
    let plain = catalog.find_or_create(None, "alice".to_string()).unwrap();
    assert_eq!(alice.id, 1);
    assert_eq!(bob.id, 2);
    assert_eq!(plain.id, 3);
    assert_eq!(alice.namespace.as_ref().unwrap().id, bob.namespace.as_ref().unwrap().id);
    assert!(plain.namespace.is_none());
    assert_eq!(catalog.namespaces().len(), 1);
    assert_eq!(catalog.tags().len(), 3);
    assert_eq!(catalog.namespace_by_name(&"character".to_string()).unwrap().id, 1);
    assert!(catalog.namespace_by_name(&"artist".to_string()).is_none());
    assert_eq!(
        catalog.tag_by_name(&Some("character".to_string()), &"bob".to_string()).unwrap().id,
        2
    );
    assert!(catalog.tag_by_name(&None, &"bob".to_string()).is_none());
    assert_eq!(catalog.tag_by_id(3).unwrap().name, "alice");
    assert!(catalog.tag_by_id(4).is_none());
    assert!(catalog.tag_by_id(0).is_none());
}

#[test]
fn create_reports_a_conflict_for_an_existing_tag() {
    let mut repo = Repo::new();
    let first = repo.add_unnamespaced_tag("Sunset".to_string()).unwrap();
    assert_eq!(first.name, "sunset");
    assert_eq!(repo.add_unnamespaced_tag(" sunset ".to_string()).err(), Some(RepoError::Conflict));
    let second = repo.add_namespaced_tag("sunset".to_string(), "scene".to_string()).unwrap();
    assert_eq!(second.id, 2);
    assert_eq!(second.namespace.as_ref().unwrap().name, "scene");
    assert_eq!(
        repo.add_namespaced_tag("sunset".to_string(), "Scene".to_string()).err(),
        Some(RepoError::Conflict)
    );
    assert_eq!(repo.tags().len(), 2);
    let found = repo.add_or_find_unnamespaced_tag("SUNSET".to_string()).unwrap();
    assert_eq!(found.id, first.id);
}

#[test]
fn add_all_creates_each_missing_namespace_and_tag_once() {
    let mut catalog = TagCatalog::new();
    catalog.find_or_create(Some("artist".to_string()), "bob".to_string()).unwrap();
    let tags = catalog
        .add_all(vec![
            pair(Some("artist"), "bob"),
            pair(Some("series"), "x"),
            pair(None, "solo"),
            pair(Some("series"), "x"),
            pair(Some("series"), "y"),
            pair(Some("artist"), "carol"),
        ])
        .unwrap();
    let names: Vec<(i64, Option<String>, String)> = tags
        .iter()
        .map(|t| (t.id, t.namespace.as_ref().map(|n| n.name.clone()), t.name.clone()))
        .collect();
    assert_eq!(
        names,
        vec![
            (1, Some("artist".to_string()), "bob".to_string()),
            (2, Some("series".to_string()), "x".to_string()),
            (3, None, "solo".to_string()),
            (4, Some("series".to_string()), "y".to_string()),
            (5, Some("artist".to_string()), "carol".to_string()),
        ]
    );
    let namespaces: Vec<(i64, String)> =
        catalog.namespaces().iter().map(|n| (n.id, n.name.clone())).collect();
    assert_eq!(namespaces, vec![(1, "artist".to_string()), (2, "series".to_string())]);
    assert_eq!(tags[3].namespace.as_ref().unwrap().id, 2);
    assert_eq!(tags[4].namespace.as_ref().unwrap().id, 1);
}

#[test]
fn add_all_returns_only_the_tags_of_the_batch() {
    let mut catalog = TagCatalog::new();
    catalog.find_or_create(None, "old".to_string()).unwrap();
    catalog.find_or_create(None, "kept".to_string()).unwrap();
    let tags = catalog.add_all(vec![pair(None, "new"), pair(None, "kept")]).unwrap();
    let ids: Vec<i64> = tags.iter().map(|t| t.id).collect();
    assert_eq!(ids, vec![2, 3]);
    assert_eq!(catalog.tags().len(), 3);
    let empty = catalog.add_all(Vec::new()).unwrap();
    assert!(empty.is_empty());
    assert_eq!(catalog.tags().len(), 3);
}

#[test]
fn two_batches_sharing_a_pair_leave_one_row_for_it() {
    let mut repo = Repo::new();
    let first = repo
        .add_all_tags(vec![pair(Some("artist"), "bob"), pair(None, "one"), pair(None, "two")])
        .unwrap();
    let second = repo
        .add_all_tags(vec![pair(None, "three"), pair(Some("Artist"), " Bob"), pair(None, "four")])
        .unwrap();
    let bob_first = first.iter().find(|t| t.name == "bob").unwrap().id;
    let bob_second = second.iter().find(|t| t.name == "bob").unwrap().id;
    assert_eq!(bob_first, bob_second);
    let all = repo.tags();
    assert_eq!(all.len(), 5);
    let bobs = all
        .iter()
        .filter(|t| t.name == "bob" && t.namespace.as_ref().map(|n| n.name.as_str()) == Some("artist"))
        .count();
    assert_eq!(bobs, 1);
}

#[test]
fn tags_by_names_finds_existing_tags_in_table_order() {
    let mut repo = Repo::new();
    repo.add_or_find_tag("b").unwrap();
    repo.add_or_find_tag("ns:a").unwrap();
    repo.add_or_find_tag("c").unwrap();
    let found = repo.tags_by_names(vec![
        pair(None, "C"),
        pair(Some("NS"), "a"),
        pair(None, "missing"),
        pair(None, "a"),
    ]);
    let ids: Vec<i64> = found.iter().map(|t| t.id).collect();
    assert_eq!(ids, vec![2, 3]);
    assert!(repo.tags_by_names(Vec::new()).is_empty());
}

#[test]
fn tags_are_linked_to_files_and_listed() {
    let mut repo = Repo::new();
    repo.add_storage("default", "/data").unwrap();
    repo.set_main_storage("default");
    let one = repo.add_file(None, vec![1], 0, 0, 0).unwrap();
    let two = repo.add_file(None, vec![2], 0, 0, 0).unwrap();
    let twin = repo.add_file(None, vec![1], 0, 0, 0).unwrap();
    let a = repo.add_or_find_tag("a").unwrap();
    let b = repo.add_or_find_tag("b").unwrap();
    let c = repo.add_or_find_tag("c").unwrap();
    repo.tag_file(one.id, b.id).unwrap();
    repo.tag_file(one.id, a.id).unwrap();
    repo.tag_file(one.id, a.id).unwrap();
    repo.tag_file(two.id, b.id).unwrap();
    repo.tag_file(twin.id, c.id).unwrap();
    assert!(repo.has_link(one.id, a.id));
    assert!(!repo.has_link(two.id, a.id));
    assert_eq!(repo.tag_file(9, a.id).err(), Some(RepoError::NotFound));
    assert_eq!(repo.tag_file(one.id, 9).err(), Some(RepoError::NotFound));
    let of_one: Vec<i64> = repo.tags_of_file(one.id).iter().map(|t| t.id).collect();
    assert_eq!(of_one, vec![a.id, b.id]);
    assert!(repo.tags_of_file(9).is_empty());
    let of_cd: Vec<i64> = repo.tags_for_cd(one.cd_id).iter().map(|t| t.id).collect();
    assert_eq!(of_cd, vec![a.id, b.id, c.id]);
    let of_two: Vec<i64> = repo.tags_for_cd(two.cd_id).iter().map(|t| t.id).collect();
    assert_eq!(of_two, vec![b.id]);
    assert!(repo.tags_for_cd(77).is_empty());
    let by_hash: Vec<i64> = repo
        .find_tags_for_hashes(vec![two.hash.clone(), "unknown".to_string()])
        .iter()
        .map(|t| t.id)
        .collect();
    assert_eq!(by_hash, vec![b.id]);
    assert!(repo.find_tags_for_hashes(Vec::new()).is_empty());
}

#[test]
fn create_tags_parses_each_raw_string() {
    let mut repo = Repo::new();
    repo.add_or_find_tag("solo").unwrap();
    let tags = repo
        .create_tags(vec![
            "Artist: Bob".to_string(),
            "solo".to_string(),
            "artist:bob".to_string(),
            ":loose".to_string(),
        ])
        .unwrap();
    let ids: Vec<i64> = tags.iter().map(|t| t.id).collect();
    assert_eq!(ids, vec![1, 2, 3]);
    assert_eq!(tags[1].namespace.as_ref().unwrap().name, "artist");
    assert_eq!(tags[1].name, "bob");
    assert_eq!(tags[2].name, "loose");
    assert!(tags[2].namespace.is_none());
}

#[test]
fn a_batch_creates_the_same_rows_as_one_call_per_pair() {
    let pairs = vec![
        pair(Some("series"), "x"),
        pair(None, "solo"),
        pair(Some("artist"), "bob"),
        pair(Some("series"), "x"),
        pair(Some("artist"), "carol"),
        pair(None, "solo"),
    ];
    let mut batch = TagCatalog::new();
    batch.find_or_create(Some("artist".to_string()), "alice".to_string()).unwrap();
    let mut each = TagCatalog::new();
    each.find_or_create(Some("artist".to_string()), "alice".to_string()).unwrap();

    batch.add_all(pairs.clone()).unwrap();
    for (namespace, name) in pairs {
        each.find_or_create(namespace, name).unwrap();
    }

    let rows = |catalog: &TagCatalog| -> Vec<(i64, Option<(i64, String)>, String)> {
        catalog
            .tags()
            .iter()
            .map(|t| (t.id, t.namespace.as_ref().map(|n| (n.id, n.name.clone())), t.name.clone()))
            .collect()
    };
    assert_eq!(rows(&batch), rows(&each));
    assert_eq!(rows(&batch).len(), 5);
    let names = |catalog: &TagCatalog| -> Vec<(i64, String)> {
        catalog.namespaces().iter().map(|n| (n.id, n.name.clone())).collect()
    };
    assert_eq!(names(&batch), names(&each));
    assert_eq!(names(&batch), vec![(1, "artist".to_string()), (2, "series".to_string())]);
}
