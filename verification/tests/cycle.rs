use spelli::cycle::{refresh, Speller};
use spelli::reg::{record_key, Langs, StoredValue, Subtree};
use spelli::root::Root;
use spelli::table::Table;

const DLL_32: &str = r"C:\Program Files\WinDivvun\divvunspell-mso32.dll";
const DLL_64: &str = r"C:\Program Files\WinDivvun\divvunspell-mso64.dll";

fn spellers(v: &[(&str, &str)]) -> Vec<Speller> {
    v.iter().map(|(tag, path)| Speller { tag: tag.to_string(), path: path.to_string() }).collect()
}

fn snapshot(store: &Table<StoredValue>) -> Vec<(String, Option<String>)> {
    (0..store.len())
        .map(|i| {
            let value = match store.value_at(i) {
                StoredValue::Path(p) => Some(p.clone()),
                StoredValue::Absent => None,
                StoredValue::Other(t) => Some(format!("other {}", t)),
            };
            (store.name_at(i).clone(), value)
        })
        .collect()
}

fn sync(langs: &Langs, roots: &[String], now: u64) -> Vec<Root> {
    roots
        .iter()
        .map(|_| {
            let mut root = Root::new();
            root.apply_all(&langs.refresh(now));
            root
        })
        .collect()
}

#[test]
fn source_entry_reaches_every_root() {
    let path = r"C:\Program Files\WinDivvun\spellers\se\se.bhfst";
    let mut store: Table<StoredValue> = Table::new();
    let (langs, roots) = refresh(&mut store, &spellers(&[("se", path)]), true);
    assert_eq!(snapshot(&store), vec![("se".to_string(), Some(path.to_string()))]);
    assert_eq!(roots.len(), 10);
    for root in sync(&langs, &roots, 1700000000) {
        assert_eq!(root.create.len(), 1);
        let record = root.create.get("se").unwrap();
        assert_eq!(record.lex, path);
        assert_eq!(record.lex64, path);
        assert_eq!(record.dll, DLL_32);
        assert_eq!(record.dll64, DLL_64);
        assert_eq!(root.delete.len(), 0);
        assert_eq!(root.count, Some(122163200));
        assert_eq!(root.order, Some(1));
    }
}

#[test]
fn source_entry_with_fallback_has_three_records() {
    let path = r"C:\spellers\sje\sje.bhfst";
    let mut store: Table<StoredValue> = Table::new();
    let (langs, roots) = refresh(&mut store, &spellers(&[("sje", path)]), false);
    assert_eq!(
        snapshot(&store),
        vec![
            ("sje".to_string(), Some(path.to_string())),
            ("sje-Latn".to_string(), Some(path.to_string())),
            ("sje-Latn-001".to_string(), Some(path.to_string())),
        ]
    );
    assert_eq!(roots.len(), 5);
    for (root, base) in sync(&langs, &roots, 1600000000).iter().zip(&roots) {
        assert_eq!(root.create.len(), 3);
        for key in ["sje", "sje-Latn", "sje-Latn-001"] {
            let record = root.create.get(key).unwrap();
            assert_eq!((record.lex.as_str(), record.lex64.as_str()), (path, path));
            assert!(record_key(base, Subtree::Create, key).ends_with(&format!(r"\Override\{}", key)));
        }
        assert_eq!(root.count, Some(22163200));
    }
}

#[test]
fn tag_that_left_the_sources_is_tombstoned() {
    let mut store: Table<StoredValue> = Table::new();
    let (before, roots) = refresh(&mut store, &spellers(&[("xx-Latn-SE", "x"), ("se", "s")]), true);
    let mut targets = sync(&before, &roots, 1700000000);
    for root in &targets {
        assert!(root.create.get("xx-Latn-SE").is_some());
        assert!(root.delete.get("xx-Latn-SE").is_none());
    }
    let (after, roots) = refresh(&mut store, &spellers(&[("se", "s")]), true);
    assert_eq!(
        snapshot(&store),
        vec![("se".to_string(), Some("s".to_string())), ("xx-Latn-SE".to_string(), None)]
    );
    assert_eq!(after.delete, vec!["xx-Latn-SE".to_string()]);
    assert_eq!(roots.len(), targets.len());
    for root in targets.iter_mut() {
        root.apply_all(&after.refresh(1700000100));
        assert!(root.create.get("xx-Latn-SE").is_none());
        let tomb = root.delete.get("xx-Latn-SE").unwrap();
        assert_eq!([&tomb.lex, &tomb.lex64, &tomb.dll, &tomb.dll64], ["", "", "", ""]);
        assert_eq!(root.create.get("se").map(|r| r.lex.as_str()), Some("s"));
        assert!(root.delete.get("se").is_none());
        assert_eq!(root.count, Some(122163300));
    }
}

#[test]
fn tag_that_became_invalid_is_deregistered() {
    let mut store: Table<StoredValue> = Table::new();
    refresh(&mut store, &spellers(&[("zz-Latn", "z")]), false);
    assert_eq!(store.len(), 2);
    let (langs, _) = refresh(&mut store, &spellers(&[("zz", "z")]), false);
    assert_eq!(
        snapshot(&store),
        vec![("zz-Latn".to_string(), None), ("zz-Latn-001".to_string(), None)]
    );
    assert_eq!(langs.create.len(), 0);
    assert_eq!(langs.delete.len(), 2);
}

#[test]
fn tag_that_came_back_is_registered_again() {
    let mut store: Table<StoredValue> = Table::new();
    refresh(&mut store, &spellers(&[("se", "one")]), false);
    refresh(&mut store, &spellers(&[]), false);
    assert_eq!(snapshot(&store), vec![("se".to_string(), None)]);
    let (langs, _) = refresh(&mut store, &spellers(&[("se", "two")]), false);
    assert_eq!(snapshot(&store), vec![("se".to_string(), Some("two".to_string()))]);
    assert!(langs.delete.is_empty());
}

#[test]
fn bad_entries_do_not_stop_the_cycle() {
    let mut store: Table<StoredValue> = Table::new();
    let sources = spellers(&[
        ("se", "first"),
        ("this is no tag", "never"),
        ("zz", "never"),
        ("", "never"),
        ("sma", "third"),
    ]);
    let (langs, roots) = refresh(&mut store, &sources, false);
    assert_eq!(
        snapshot(&store),
        vec![("se".to_string(), Some("first".to_string())), ("sma".to_string(), Some("third".to_string()))]
    );
    assert_eq!(langs.create.len(), 2);
    assert_eq!(roots.len(), 5);
}

#[test]
fn later_entry_wins_a_shared_key() {
    let mut store: Table<StoredValue> = Table::new();
    refresh(&mut store, &spellers(&[("sje", "a"), ("sje-Latn", "b")]), false);
    assert_eq!(
        snapshot(&store),
        vec![
            ("sje".to_string(), Some("a".to_string())),
            ("sje-Latn".to_string(), Some("b".to_string())),
            ("sje-Latn-001".to_string(), Some("b".to_string())),
        ]
    );
}

#[test]
fn cycle_without_sources_still_names_the_roots() {
    let mut store: Table<StoredValue> = Table::new();
    store.set("odd".to_string(), StoredValue::Other("<Link>".to_string()));
    let (langs, roots) = refresh(&mut store, &Vec::new(), true);
    assert_eq!(snapshot(&store), vec![("odd".to_string(), Some("other <Link>".to_string()))]);
    assert_eq!(langs.create.len(), 0);
    assert!(langs.delete.is_empty());
    assert_eq!(roots.len(), 10);
    for root in sync(&langs, &roots, 1577836800) {
        assert_eq!(root.count, Some(0));
        assert_eq!(root.create.len() + root.delete.len(), 0);
    }
}
