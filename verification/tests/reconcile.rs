use spelli::reg::{
    add_create_key, add_delete_key, record_key, set_regkey_counter, Langs, Record, StoreOp,
    StoredValue, Subtree, COUNTER_EPOCH,
};
use spelli::root::Root;
use spelli::sync::{Error, Outcome, Progress};
use spelli::table::Table;

const DLL_32: &str = r"C:\Program Files\WinDivvun\divvunspell-mso32.dll";
const DLL_64: &str = r"C:\Program Files\WinDivvun\divvunspell-mso64.dll";

fn langs(create: &[(&str, &str)], delete: &[&str]) -> Langs {
    let mut store: Table<StoredValue> = Table::new();
    for (name, path) in create {
        store.set(name.to_string(), StoredValue::Path(path.to_string()));
    }
    for name in delete {
        store.set(name.to_string(), StoredValue::Absent);
    }
    Langs::new(&store)
}

fn fields(r: &Record) -> [&str; 4] {
    [&r.lex, &r.lex64, &r.dll, &r.dll64]
}

fn describe(op: &StoreOp) -> String {
    match op {
        StoreOp::Remove { subtree, name } => format!("remove {:?} {}", subtree, name),
        StoreOp::Write { subtree, name, record } => {
            format!("write {:?} {} {:?}", subtree, name, fields(record))
        }
        StoreOp::Stamp { count, order } => format!("stamp {} {}", count, order),
    }
}

fn records(t: &Table<Record>) -> Vec<(String, Vec<String>)> {
    (0..t.len())
        .map(|i| {
            (t.name_at(i).clone(), fields(t.value_at(i)).iter().map(|s| s.to_string()).collect())
        })
        .collect()
}

#[test]
fn record_key_joins_with_backslashes() {
    assert_eq!(
        record_key(r"SOFTWARE\Microsoft\Office\16.0\User Settings\WinDivvun", Subtree::Create, "se"),
        r"SOFTWARE\Microsoft\Office\16.0\User Settings\WinDivvun\Create\SOFTWARE\Microsoft\Shared Tools\Proofing Tools\1.0\Override\se"
    );
    assert_eq!(
        record_key("base", Subtree::Delete, "se-Latn"),
        r"base\Delete\SOFTWARE\Microsoft\Shared Tools\Proofing Tools\1.0\Override\se-Latn"
    );
    assert_eq!(
        record_key("", Subtree::Create, ""),
        r"\Create\SOFTWARE\Microsoft\Shared Tools\Proofing Tools\1.0\Override\"
    );
}

#[test]
fn create_removes_the_delete_record_first() {
    let ops = add_create_key("se", r"C:\se.bhfst");
    assert_eq!(ops.len(), 2);
    assert!(matches!(&ops[0], StoreOp::Remove { subtree: Subtree::Delete, name } if name == "se"));
    match &ops[1] {
        StoreOp::Write { subtree: Subtree::Create, name, record } => {
            assert_eq!(name, "se");
            assert_eq!(fields(record), [r"C:\se.bhfst", r"C:\se.bhfst", DLL_32, DLL_64]);
        }
        other => panic!("{:?}", other),
    }
}

#[test]
fn delete_removes_the_create_record_first() {
    let ops = add_delete_key("xx");
    assert_eq!(ops.len(), 2);
    assert!(matches!(&ops[0], StoreOp::Remove { subtree: Subtree::Create, name } if name == "xx"));
    match &ops[1] {
        StoreOp::Write { subtree: Subtree::Delete, name, record } => {
            assert_eq!(name, "xx");
            assert_eq!(fields(record), ["", "", "", ""]);
        }
        other => panic!("{:?}", other),
    }
}

#[test]
fn counter_counts_seconds_from_2020() {
    assert_eq!(COUNTER_EPOCH, 1577836800);
    assert!(matches!(set_regkey_counter(1577836800), StoreOp::Stamp { count: 0, order: 1 }));
    assert!(matches!(set_regkey_counter(1577836801), StoreOp::Stamp { count: 1, order: 1 }));
    assert!(matches!(
        set_regkey_counter(1792800000),
        StoreOp::Stamp { count: 214963200, order: 1 }
    ));
    assert!(matches!(
        set_regkey_counter(1577836800 + 4294967295),
        StoreOp::Stamp { count: 4294967295, order: 1 }
    ));
}

#[test]
fn plan_registers_then_deregisters_then_stamps() {
    let l = langs(&[("se", "p"), ("aa", "q")], &["xx"]);
    let plan: Vec<String> = l.refresh(1577836800 + 5).iter().map(describe).collect();
    let p = format!("{:?}", ["p", "p", DLL_32, DLL_64]);
    let q = format!("{:?}", ["q", "q", DLL_32, DLL_64]);
    let empty = format!("{:?}", ["", "", "", ""]);
    assert_eq!(
        plan,
        vec![
            "remove Delete aa".to_string(),
            format!("write Create aa {}", q),
            "remove Delete se".to_string(),
            format!("write Create se {}", p),
            "remove Create xx".to_string(),
            format!("write Delete xx {}", empty),
            "stamp 5 1".to_string(),
        ]
    );
}

#[test]
fn plan_of_nothing_still_stamps() {
    let l = langs(&[], &[]);
    let plan: Vec<String> = l.refresh(1577836800 + 77).iter().map(describe).collect();
    assert_eq!(plan, vec!["stamp 77 1".to_string()]);
    let mut root = Root::new();
    root.apply_all(&l.refresh(1577836800 + 77));
    assert_eq!(root.count, Some(77));
    assert_eq!(root.order, Some(1));
    assert_eq!(root.create.len(), 0);
    assert_eq!(root.delete.len(), 0);
}

#[test]
fn apply_moves_a_name_between_the_subtrees() {
    let mut root = Root::new();
    root.apply_all(&langs(&[("se", "p"), ("xx", "old")], &[]).refresh(1577836800 + 1));
    assert_eq!(records(&root.create).len(), 2);
    assert_eq!(root.delete.len(), 0);
    root.apply_all(&langs(&[("se", "p2")], &["xx"]).refresh(1577836800 + 2));
    assert_eq!(
        records(&root.create),
        vec![("se".to_string(), vec!["p2".into(), "p2".into(), DLL_32.into(), DLL_64.into()])]
    );
    assert_eq!(
        records(&root.delete),
        vec![("xx".to_string(), vec![String::new(), String::new(), String::new(), String::new()])]
    );
    root.apply_all(&langs(&[("xx", "back")], &["se"]).refresh(1577836800 + 3));
    assert_eq!(records(&root.create).len(), 1);
    assert_eq!(root.create.get("xx").map(|r| r.lex.as_str()), Some("back"));
    assert!(root.delete.get("xx").is_none());
    assert!(root.create.get("se").is_none());
    assert_eq!(root.delete.get("se").map(|r| r.dll64.as_str()), Some(""));
}

#[test]
fn applying_twice_changes_no_record() {
    let l = langs(&[("se", "p"), ("aa", "q"), ("sje-Latn", "r")], &["xx", "yy"]);
    let mut root = Root::new();
    root.apply(&StoreOp::Write {
        subtree: Subtree::Create,
        name: "xx".to_string(),
        record: Record { lex: "o".into(), lex64: "o".into(), dll: "d".into(), dll64: "d".into() },
    });
    root.apply(&StoreOp::Write {
        subtree: Subtree::Delete,
        name: "se".to_string(),
        record: Record { lex: "".into(), lex64: "".into(), dll: "".into(), dll64: "".into() },
    });
    root.apply(&StoreOp::Write {
        subtree: Subtree::Create,
        name: "untouched".to_string(),
        record: Record { lex: "u".into(), lex64: "u".into(), dll: "d".into(), dll64: "d".into() },
    });
    root.apply_all(&l.refresh(1577836800 + 10));
    let once = (records(&root.create), records(&root.delete));
    root.apply_all(&l.refresh(1577836800 + 20));
    let twice = (records(&root.create), records(&root.delete));
    assert_eq!(once, twice);
    assert_eq!(once.0.len(), 4);
    assert_eq!(once.1.len(), 2);
    assert_eq!(root.create.get("untouched").map(|r| r.lex.as_str()), Some("u"));
}

#[test]
fn no_name_is_in_both_subtrees_after_apply() {
    let mut root = Root::new();
    let rounds: [(&[(&str, &str)], &[&str]); 4] = [
        (&[("a", "1"), ("b", "2")], &["c"]),
        (&[("c", "3")], &["a", "b"]),
        (&[("a", "4"), ("c", "5")], &["b"]),
        (&[], &["a", "b", "c"]),
    ];
    for (i, (create, delete)) in rounds.iter().enumerate() {
        root.apply_all(&langs(create, delete).refresh(1577836800 + i as u64));
        for k in 0..root.create.len() {
            assert!(root.delete.get(root.create.name_at(k)).is_none());
        }
        for k in 0..root.delete.len() {
            assert!(root.create.get(root.delete.name_at(k)).is_none());
        }
        assert_eq!(root.create.len() + root.delete.len(), 3);
    }
}

#[test]
fn later_apply_leaves_a_greater_count() {
    let l = langs(&[("se", "p")], &[]);
    let mut root = Root::new();
    assert_eq!(root.count, None);
    root.apply_all(&l.refresh(1700000000));
    let first = root.count.unwrap();
    root.apply_all(&l.refresh(1700000001));
    let second = root.count.unwrap();
    assert_eq!(first, 122163200);
    assert_eq!(second, 122163201);
    assert!(second > first);
    assert_eq!(root.order, Some(1));
}

#[test]
fn progress_goes_through_the_plan() {
    let plan = langs(&[("se", "p")], &["xx"]).refresh(1577836800);
    let mut run = Progress::start(plan);
    let mut seen = Vec::new();
    while let Some(op) = run.pending() {
        seen.push(describe(op));
        assert_eq!(run.result(), None);
        run.report(Outcome::Done);
    }
    assert_eq!(seen.len(), 5);
    assert!(seen[0].starts_with("remove Delete se"));
    assert!(seen[4].starts_with("stamp"));
    assert_eq!(run.result(), Some(Ok(())));
    run.report(Outcome::KeyFailed);
    assert_eq!(run.result(), Some(Ok(())));
}

#[test]
fn progress_tolerates_nothing_to_remove() {
    let mut run = Progress::start(add_create_key("se", "p"));
    run.report(Outcome::NotFound);
    assert!(matches!(run.pending(), Some(StoreOp::Write { .. })));
    run.report(Outcome::Done);
    assert_eq!(run.result(), Some(Ok(())));
}

#[test]
fn progress_gives_up_on_a_failed_removal() {
    let mut run = Progress::start(langs(&[("se", "p")], &["xx"]).refresh(1577836800));
    run.report(Outcome::KeyFailed);
    assert!(run.pending().is_none());
    assert_eq!(run.result(), Some(Err(Error::Key)));
    run.report(Outcome::Done);
    assert!(run.pending().is_none());
    assert_eq!(run.result(), Some(Err(Error::Key)));
}

#[test]
fn progress_gives_up_on_a_failed_write() {
    let mut run = Progress::start(add_delete_key("xx"));
    run.report(Outcome::Done);
    run.report(Outcome::ValueFailed);
    assert_eq!(run.result(), Some(Err(Error::Value)));
    let mut run = Progress::start(add_delete_key("xx"));
    run.report(Outcome::Done);
    run.report(Outcome::NotFound);
    assert_eq!(run.result(), Some(Err(Error::Key)));
}

#[test]
fn progress_of_an_empty_plan_is_done() {
    let run = Progress::start(Vec::new());
    assert!(run.pending().is_none());
    assert_eq!(run.result(), Some(Ok(())));
}
