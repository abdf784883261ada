use mediarepo::repo::Repo;

struct Fixture {
    repo: Repo,
    f1: i64,
    f2: i64,
    f3: i64,
}

fn fixture() -> Fixture {
    let mut repo = Repo::new();
    repo.add_storage("default", "/data").unwrap();
    repo.set_main_storage("default");
    let f1 = repo.add_file(None, vec![1], 0, 0, 0).unwrap().id;
    let f2 = repo.add_file(None, vec![2], 0, 0, 0).unwrap().id;
    let f3 = repo.add_file(None, vec![3], 0, 0, 0).unwrap().id;
    let a = repo.add_or_find_tag("a").unwrap().id;
    let b = repo.add_or_find_tag("b").unwrap().id;
    repo.tag_file(f1, a).unwrap();
    repo.tag_file(f1, b).unwrap();
    repo.tag_file(f2, a).unwrap();
    repo.tag_file(f3, b).unwrap();
    Fixture { repo, f1, f2, f3 }
}

fn ids(repo: &Repo, query: Vec<(&str, bool)>) -> Vec<i64> {
    let tags = query.into_iter().map(|(name, negate)| (name.to_string(), negate)).collect();
    repo.find_files_by_tags(tags).iter().map(|f| f.id).collect()
}

#[test]
fn a_positive_predicate_selects_the_files_that_carry_the_tag() {
    let fx = fixture();
    assert_eq!(ids(&fx.repo, vec![("a", false)]), vec![fx.f1, fx.f2]);
    assert_eq!(ids(&fx.repo, vec![("b", false)]), vec![fx.f1, fx.f3]);
}

#[test]
fn predicates_are_joined_by_and() {
    let fx = fixture();
    assert_eq!(ids(&fx.repo, vec![("a", false), ("b", true)]), vec![fx.f2]);
    assert_eq!(ids(&fx.repo, vec![("a", false), ("b", false)]), vec![fx.f1]);
    assert_eq!(ids(&fx.repo, vec![("a", true), ("b", true)]), Vec::<i64>::new());
    assert_eq!(ids(&fx.repo, vec![("a", true)]), vec![fx.f3]);
}

#[test]
fn a_tag_asked_for_and_excluded_selects_nothing() {
    let fx = fixture();
    assert_eq!(ids(&fx.repo, vec![("a", false), ("a", true)]), Vec::<i64>::new());
    assert_eq!(ids(&fx.repo, vec![("a", true), ("a", false)]), Vec::<i64>::new());
}

#[test]
fn a_missing_tag_selects_nothing_when_asked_for_and_everything_when_excluded() {
    let fx = fixture();
    assert_eq!(ids(&fx.repo, vec![("nonexistent", false)]), Vec::<i64>::new());
    assert_eq!(ids(&fx.repo, vec![("nonexistent", true)]), vec![fx.f1, fx.f2, fx.f3]);
    assert_eq!(ids(&fx.repo, vec![("a", false), ("nonexistent", false)]), Vec::<i64>::new());
    assert_eq!(ids(&fx.repo, vec![("a", false), ("nonexistent", true)]), vec![fx.f1, fx.f2]);
}

#[test]
fn an_empty_query_selects_every_file() {
    let fx = fixture();
    assert_eq!(ids(&fx.repo, Vec::new()), vec![fx.f1, fx.f2, fx.f3]);
}

#[test]
fn query_names_are_normalized_and_namespaced() {
    let mut fx = fixture();
    let tag = fx.repo.add_or_find_tag("artist:bob").unwrap().id;
    fx.repo.tag_file(fx.f3, tag).unwrap();
    assert_eq!(ids(&fx.repo, vec![(" Artist : BOB ", false)]), vec![fx.f3]);
    assert_eq!(ids(&fx.repo, vec![("bob", false)]), Vec::<i64>::new());
    assert_eq!(ids(&fx.repo, vec![(" A ", false)]), vec![fx.f1, fx.f2]);
}

#[test]
fn a_query_on_an_empty_repository_selects_nothing() {
    let repo = Repo::new();
    assert_eq!(ids(&repo, vec![("a", true)]), Vec::<i64>::new());
    assert_eq!(ids(&repo, Vec::new()), Vec::<i64>::new());
}
