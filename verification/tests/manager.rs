use fluent_resmgr::bundle::{owned_bundle, Bundle};
use fluent_resmgr::locale::Locale;
use fluent_resmgr::manager::{Lookup, ResourceManager};
use fluent_resmgr::resource::{ParsedResource, SyntaxError};

const SCHEME: &str = "./resources/{locale}/{res_id}";

fn locale(text: &str) -> Locale {
    Locale::parse(text).expect("a language identifier")
}

fn ids(names: &[&str]) -> Vec<String> {
    names.iter().map(|name| name.to_string()).collect()
}

fn supply(manager: &mut ResourceManager, path: &str, source: &str) -> Vec<SyntaxError> {
    manager.insert_source(path.to_string(), source.to_string())
}

fn skipped<'a>(source: &'a str, error: &SyntaxError) -> Option<&'a str> {
    error.skipped.map(|(start, end)| &source[start..end])
}

fn message(bundle: &Bundle, id: &str) -> Option<String> {
    let message = bundle.messages.get_message(id)?;
    let pattern = message.value()?;
    let mut errors = vec![];
    Some(bundle.messages.format_pattern(pattern, None, &mut errors).to_string())
}

fn duplicates(bundle: &Bundle) -> Vec<String> {
    bundle.duplicates.iter().map(|duplicate| duplicate.id.clone()).collect()
}

fn chain(bundle: &Bundle) -> Vec<String> {
    bundle.messages.locales.iter().map(|locale| locale.to_string()).collect()
}

fn source_of(manager: &ResourceManager, res_id: &str, locale: &str) -> Option<String> {
    match manager.get_resource(res_id, locale) {
        Lookup::Cached(parsed) => Some(parsed.resource().source().to_string()),
        Lookup::Missing(_) => None,
    }
}

fn address_of(manager: &ResourceManager, res_id: &str, locale: &str) -> Option<String> {
    match manager.get_resource(res_id, locale) {
        Lookup::Cached(resource) => Some(format!("{:p}", resource)),
        Lookup::Missing(_) => None,
    }
}

fn two_locales() -> ResourceManager {
    let mut manager = ResourceManager::new(SCHEME.to_string());
    supply(&mut manager, "./resources/en-US/main.ftl", "hello = Hello\nonly-en = English");
    supply(&mut manager, "./resources/en-US/menu.ftl", "open = Open");
    supply(&mut manager, "./resources/pl/main.ftl", "hello = Witaj");
    supply(&mut manager, "./resources/pl/menu.ftl", "open = Otwórz");
    manager
}

#[test]
fn new_manager_caches_nothing() {
    let manager = ResourceManager::new(SCHEME.to_string());
    match manager.get_resource("main.ftl", "en-US") {
        Lookup::Missing(path) => assert_eq!(path, "./resources/en-US/main.ftl"),
        Lookup::Cached(_) => panic!("nothing was supplied"),
    }
    assert_eq!(manager.resource_path("menu.ftl", "pl"), "./resources/pl/menu.ftl");
}

#[test]
fn supplied_resource_is_cached() {
    let mut manager = ResourceManager::new(SCHEME.to_string());
    let errors = supply(&mut manager, "./resources/en-US/main.ftl", "hello = Hello");
    assert!(errors.is_empty());
    assert_eq!(source_of(&manager, "main.ftl", "en-US"), Some("hello = Hello".to_string()));
    assert_eq!(source_of(&manager, "main.ftl", "pl"), None);
    assert_eq!(source_of(&manager, "menu.ftl", "en-US"), None);
}

#[test]
fn repeated_lookup_returns_same_instance() {
    let mut manager = ResourceManager::new(SCHEME.to_string());
    supply(&mut manager, "./resources/en-US/main.ftl", "hello = Hello");
    supply(&mut manager, "./resources/pl/main.ftl", "hello = Hello");
    let first = manager.get_resource("main.ftl", "en-US");
    let second = manager.get_resource("main.ftl", "en-US");
    let other = manager.get_resource("main.ftl", "pl");
    match (first, second, other) {
        (Lookup::Cached(first), Lookup::Cached(second), Lookup::Cached(other)) => {
            assert!(std::ptr::eq(first, second));
            assert!(std::ptr::eq(first.resource(), second.resource()));
            assert!(!std::ptr::eq(first, other));
            assert_eq!(first.resource().source(), other.resource().source());
        },
        _ => panic!("the resources were supplied"),
    }
}

#[test]
fn second_supply_is_dropped() {
    let mut manager = ResourceManager::new(SCHEME.to_string());
    supply(&mut manager, "./resources/en-US/main.ftl", "hello = First");
    let before = address_of(&manager, "main.ftl", "en-US");
    assert!(before.is_some());
    supply(&mut manager, "./resources/en-US/main.ftl", "hello = Second");
    supply(&mut manager, "./resources/en-US/menu.ftl", "open = Open");
    assert_eq!(source_of(&manager, "main.ftl", "en-US"), Some("hello = First".to_string()));
    assert_eq!(address_of(&manager, "main.ftl", "en-US"), before);
}

#[test]
fn cached_resources_stay_while_cache_grows() {
    let mut manager = ResourceManager::new(SCHEME.to_string());
    supply(&mut manager, "./resources/en-US/main.ftl", "hello = Hello");
    let before = address_of(&manager, "main.ftl", "en-US");
    for i in 0..200 {
        let path = format!("./resources/en-US/{}.ftl", i);
        supply(&mut manager, &path, "other = Other");
    }
    assert_eq!(address_of(&manager, "main.ftl", "en-US"), before);
    assert_eq!(source_of(&manager, "main.ftl", "en-US"), Some("hello = Hello".to_string()));
    assert_eq!(source_of(&manager, "17.ftl", "en-US"), Some("other = Other".to_string()));
}

#[test]
fn source_with_syntax_errors_keeps_what_parsed() {
    let mut manager = ResourceManager::new(SCHEME.to_string());
    let source = "hello = Hello\n!!! not an entry\nbye = Bye\n= neither\n";
    let errors = supply(&mut manager, "./resources/en-US/main.ftl", source);
    assert_eq!(errors.len(), 2);
    assert_eq!(skipped(source, &errors[0]), Some("!!! not an entry\n"));
    assert_eq!(skipped(source, &errors[1]), Some("= neither\n"));
    assert_eq!((errors[0].start, errors[0].end), (14, 15));
    assert_eq!((errors[1].start, errors[1].end), (41, 42));
    assert_eq!(source_of(&manager, "main.ftl", "en-US"), Some(source.to_string()));
    match manager.get_resource("main.ftl", "en-US") {
        Lookup::Cached(parsed) => assert_eq!(parsed.syntax_errors(), &errors),
        Lookup::Missing(_) => panic!("the resource was supplied"),
    }
    let bundle = manager.get_bundle(vec![locale("en-US")], ids(&["main.ftl"])).unwrap();
    assert_eq!(message(&bundle, "hello"), Some("Hello".to_string()));
    assert_eq!(message(&bundle, "bye"), Some("Bye".to_string()));
    assert!(bundle.duplicates.is_empty());
}

#[test]
fn missing_resources_are_named_in_order() {
    let mut manager = ResourceManager::new(SCHEME.to_string());
    let en = locale("en-US");
    let wanted = ids(&["a.ftl", "b.ftl", "c.ftl"]);
    assert_eq!(manager.missing_resource(&en, &wanted), Some("./resources/en-US/a.ftl".to_string()));
    supply(&mut manager, "./resources/en-US/b.ftl", "b = B");
    assert_eq!(manager.missing_resource(&en, &wanted), Some("./resources/en-US/a.ftl".to_string()));
    supply(&mut manager, "./resources/en-US/a.ftl", "a = A");
    assert_eq!(manager.missing_resource(&en, &wanted), Some("./resources/en-US/c.ftl".to_string()));
    supply(&mut manager, "./resources/en-US/c.ftl", "c = C");
    assert_eq!(manager.missing_resource(&en, &wanted), None);
    assert_eq!(
        manager.missing_resource(&locale("pl"), &wanted),
        Some("./resources/pl/a.ftl".to_string())
    );
    assert_eq!(manager.missing_resource(&locale("pl"), &ids(&[])), None);
}

#[test]
fn bundle_is_scoped_to_first_locale() {
    let manager = two_locales();
    let bundle = manager
        .get_bundle(vec![locale("en-US"), locale("pl")], ids(&["main.ftl", "menu.ftl"]))
        .unwrap();
    assert_eq!(message(&bundle, "hello"), Some("Hello".to_string()));
    assert_eq!(message(&bundle, "open"), Some("Open".to_string()));
    assert_eq!(message(&bundle, "only-en"), Some("English".to_string()));
    assert_eq!(chain(&bundle), vec!["en-US".to_string()]);
    assert_eq!(bundle.resource_ids, ids(&["main.ftl", "menu.ftl"]));
    assert!(bundle.duplicates.is_empty());

    let bundle = manager
        .get_bundle(vec![locale("pl"), locale("en-US")], ids(&["main.ftl", "menu.ftl"]))
        .unwrap();
    assert_eq!(message(&bundle, "hello"), Some("Witaj".to_string()));
    assert_eq!(message(&bundle, "open"), Some("Otwórz".to_string()));
    assert_eq!(message(&bundle, "only-en"), None);
    assert_eq!(chain(&bundle), vec!["pl".to_string()]);
}

#[test]
fn bundle_needs_only_first_locale() {
    let mut manager = ResourceManager::new(SCHEME.to_string());
    supply(&mut manager, "./resources/en-US/main.ftl", "hello = Hello");
    let built = manager.get_bundle(vec![locale("en-US"), locale("pl")], ids(&["main.ftl"]));
    assert!(built.is_ok());
    let built = manager.get_bundle(vec![locale("pl"), locale("en-US")], ids(&["main.ftl"]));
    match built {
        Err(failure) => assert_eq!(failure.path, "./resources/pl/main.ftl"),
        Ok(_) => panic!("the resource was never supplied"),
    }
}

#[test]
fn bundle_borrows_the_cached_instances() {
    let manager = two_locales();
    let bundle = manager.get_bundle(vec![locale("pl")], ids(&["main.ftl"])).unwrap();
    let again = manager.get_bundle(vec![locale("pl")], ids(&["main.ftl"])).unwrap();
    assert_eq!(message(&bundle, "hello"), message(&again, "hello"));
    match manager.get_resource("main.ftl", "pl") {
        Lookup::Cached(parsed) => assert_eq!(parsed.resource().source(), "hello = Witaj"),
        Lookup::Missing(_) => panic!("the resource was supplied"),
    }
}

#[test]
fn bundle_fails_on_first_missing_resource() {
    let mut manager = ResourceManager::new(SCHEME.to_string());
    supply(&mut manager, "./resources/en-US/a.ftl", "a = A");
    supply(&mut manager, "./resources/en-US/c.ftl", "c = C");
    let built = manager.get_bundle(vec![locale("en-US")], ids(&["a.ftl", "b.ftl", "c.ftl", "d.ftl"]));
    match built {
        Err(failure) => assert_eq!(failure.path, "./resources/en-US/b.ftl"),
        Ok(_) => panic!("two resources were never supplied"),
    }
}

#[test]
fn bundle_of_no_resources_is_empty() {
    let manager = ResourceManager::new(SCHEME.to_string());
    let bundle = manager.get_bundle(vec![locale("en-US")], ids(&[])).unwrap();
    assert_eq!(message(&bundle, "hello"), None);
    assert!(bundle.resource_ids.is_empty());
    assert!(bundle.duplicates.is_empty());
}

#[test]
fn later_duplicates_are_recorded_and_ignored() {
    let mut manager = ResourceManager::new(SCHEME.to_string());
    supply(&mut manager, "./resources/en-US/a.ftl", "hello = First\nbye = Bye");
    supply(&mut manager, "./resources/en-US/b.ftl", "new = New\nhello = Second\nlast = Last");
    supply(&mut manager, "./resources/en-US/c.ftl", "bye = Again\nhello = Third\nbye = Once more");
    let bundle = manager
        .get_bundle(vec![locale("en-US")], ids(&["a.ftl", "b.ftl", "c.ftl"]))
        .unwrap();
    assert_eq!(duplicates(&bundle), ids(&["hello", "bye", "hello", "bye"]));
    assert_eq!(message(&bundle, "hello"), Some("First".to_string()));
    assert_eq!(message(&bundle, "bye"), Some("Bye".to_string()));
    assert_eq!(message(&bundle, "new"), Some("New".to_string()));
    assert_eq!(message(&bundle, "last"), Some("Last".to_string()));

    let bundle = manager.get_bundle(vec![locale("en-US")], ids(&["b.ftl", "a.ftl"])).unwrap();
    assert_eq!(duplicates(&bundle), ids(&["hello"]));
    assert_eq!(message(&bundle, "hello"), Some("Second".to_string()));
}

#[test]
fn duplicates_within_one_resource_are_recorded() {
    let mut manager = ResourceManager::new(SCHEME.to_string());
    supply(&mut manager, "./resources/en-US/a.ftl", "hello = First\nhello = Second\n-hello = Term");
    let bundle = manager.get_bundle(vec![locale("en-US")], ids(&["a.ftl", "a.ftl"])).unwrap();
    assert_eq!(duplicates(&bundle), ids(&["hello", "hello", "hello", "hello", "hello"]));
    assert_eq!(message(&bundle, "hello"), Some("First".to_string()));
}

#[test]
fn bundles_come_one_per_locale_in_order() {
    let manager = two_locales();
    let mut bundles =
        manager.get_bundles(vec![locale("pl"), locale("en-US")], ids(&["main.ftl", "menu.ftl"]));

    assert_eq!(bundles.pending_locale().map(|l| l.tag().to_string()), Some("pl".to_string()));
    let first = bundles.next(&manager).unwrap().unwrap();
    assert_eq!(chain(&first), vec!["pl".to_string()]);
    assert_eq!(message(&first, "hello"), Some("Witaj".to_string()));
    assert_eq!(message(&first, "open"), Some("Otwórz".to_string()));
    assert_eq!(message(&first, "only-en"), None);
    assert_eq!(first.resource_ids, ids(&["main.ftl", "menu.ftl"]));

    assert_eq!(bundles.pending_locale().map(|l| l.tag().to_string()), Some("en-US".to_string()));
    let second = bundles.next(&manager).unwrap().unwrap();
    assert_eq!(chain(&second), vec!["en-US".to_string()]);
    assert_eq!(message(&second, "hello"), Some("Hello".to_string()));
    assert_eq!(message(&second, "only-en"), Some("English".to_string()));
    assert_eq!(second.resource_ids, ids(&["main.ftl", "menu.ftl"]));

    assert!(bundles.pending_locale().is_none());
    assert!(bundles.next(&manager).is_none());
    assert!(bundles.next(&manager).is_none());
    assert_eq!(message(&first, "hello"), Some("Witaj".to_string()));
}

#[test]
fn bundles_are_built_only_when_asked_for() {
    let mut manager = ResourceManager::new(SCHEME.to_string());
    supply(&mut manager, "./resources/en-US/main.ftl", "hello = Hello");
    let mut bundles = manager.get_bundles(vec![locale("en-US"), locale("pl")], ids(&["main.ftl"]));
    assert_eq!(bundles.missing_resource(&manager), None);
    {
        let first = bundles.next(&manager).unwrap().unwrap();
        assert_eq!(message(&first, "hello"), Some("Hello".to_string()));
    }

    assert_eq!(bundles.missing_resource(&manager), Some("./resources/pl/main.ftl".to_string()));
    match bundles.next(&manager) {
        Some(Err(failure)) => assert_eq!(failure.path, "./resources/pl/main.ftl"),
        _ => panic!("the resource was never supplied"),
    }
    assert_eq!(bundles.pending_locale().map(|l| l.tag().to_string()), Some("pl".to_string()));

    supply(&mut manager, "./resources/pl/main.ftl", "hello = Witaj");
    assert_eq!(bundles.missing_resource(&manager), None);
    {
        let second = bundles.next(&manager).unwrap().unwrap();
        assert_eq!(message(&second, "hello"), Some("Witaj".to_string()));
    }
    assert!(bundles.next(&manager).is_none());
    assert_eq!(bundles.missing_resource(&manager), None);
}

#[test]
fn bundles_of_no_locales_end_at_once() {
    let manager = two_locales();
    let mut bundles = manager.get_bundles(Vec::new(), ids(&["main.ftl"]));
    assert!(bundles.pending_locale().is_none());
    assert!(bundles.next(&manager).is_none());
}

#[test]
fn sequences_start_over_only_when_made_again() {
    let manager = two_locales();
    let mut bundles = manager.get_bundles(vec![locale("pl")], ids(&["main.ftl"]));
    assert!(bundles.next(&manager).is_some());
    assert!(bundles.next(&manager).is_none());
    let mut again = manager.get_bundles(vec![locale("pl")], ids(&["main.ftl"]));
    assert!(again.next(&manager).is_some());
    assert!(again.next(&manager).is_none());
}

#[test]
fn locales_are_brought_into_canonical_form() {
    assert_eq!(locale("en-US").tag(), "en-US");
    assert_eq!(locale("en-us").tag(), "en-US");
    assert_eq!(locale("EN_us").tag(), "en-US");
    assert_eq!(locale("pL_latn_pl").tag(), "pl-Latn-PL");
    assert_eq!(locale("pl").tag(), "pl");
    assert_eq!(locale("pl").clone().tag(), "pl");
}

#[test]
fn other_texts_are_no_locales() {
    assert!(Locale::parse("x-testing").is_none());
    assert!(Locale::parse("not a locale").is_none());
    assert!(Locale::parse("en-").is_none());
    assert!(Locale::parse("e").is_none());
}

#[test]
fn cached_resource_keeps_its_own_errors() {
    let mut manager = ResourceManager::new(SCHEME.to_string());
    let first = supply(&mut manager, "./resources/en-US/main.ftl", "hello = Hello\n???\n");
    assert_eq!(first.len(), 1);
    let second = supply(&mut manager, "./resources/en-US/main.ftl", "hello = Other");
    assert!(second.is_empty());
    match manager.get_resource("main.ftl", "en-US") {
        Lookup::Cached(parsed) => {
            assert_eq!(parsed.syntax_errors(), &first);
            assert_eq!(parsed.resource().source(), "hello = Hello\n???\n");
        },
        Lookup::Missing(_) => panic!("the resource was supplied"),
    }
}

#[test]
fn parsed_resource_holds_entries_and_errors() {
    let clean = ParsedResource::parse("a = A\nb = B".to_string());
    assert!(clean.syntax_errors().is_empty());
    assert_eq!(clean.resource().entries().count(), 2);

    let source = "a = A\n# note\n%%%\nb = B\n";
    let broken = ParsedResource::parse(source.to_string());
    assert_eq!(broken.syntax_errors().len(), 1);
    assert_eq!(skipped(source, &broken.syntax_errors()[0]), Some("%%%\n"));
    assert_eq!(broken.resource().source(), source);
    assert_eq!(broken.into_resource().source(), source);
}

#[test]
fn owned_bundle_gathers_sources_in_order() {
    let sources = vec![
        "hello = First\nbye = Bye".to_string(),
        "hello = Second\n!!!\nnew = New".to_string(),
        "-bye = Term\nlast = Last".to_string(),
    ];
    let built = owned_bundle(&locale("pl"), sources);
    let locales: Vec<String> = built.messages.locales.iter().map(|l| l.to_string()).collect();
    assert_eq!(locales, vec!["pl".to_string()]);
    let ignored: Vec<String> = built.duplicates.iter().map(|d| d.id.clone()).collect();
    assert_eq!(ignored, ids(&["hello", "bye"]));
    let counts: Vec<usize> = built.syntax_errors.iter().map(|errors| errors.len()).collect();
    assert_eq!(counts, vec![0, 1, 0]);
    let mut errors = vec![];
    let hello = built.messages.get_message("hello").unwrap().value().unwrap();
    assert_eq!(built.messages.format_pattern(hello, None, &mut errors), "First");
    let new = built.messages.get_message("new").unwrap().value().unwrap();
    assert_eq!(built.messages.format_pattern(new, None, &mut errors), "New");
    assert!(built.messages.has_message("bye"));
    assert!(built.messages.has_message("last"));
}

#[test]
fn owned_bundle_of_no_sources_is_empty() {
    let built = owned_bundle(&locale("en-US"), Vec::new());
    assert!(!built.messages.has_message("hello"));
    assert!(built.duplicates.is_empty());
    assert!(built.syntax_errors.is_empty());
}
